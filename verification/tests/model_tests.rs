use wiregen::ast::{Attr, AttrParam, FieldDecl, GenericsInfo, Item, LitValue, TypePath, TypeRef};
use wiregen::error::{ErrorKind, SyntaxIssue};
use wiregen::model::{Model, TypeKind};

fn no_generics() -> GenericsInfo {
    GenericsInfo { n_lifetimes: 0, n_ty_params: 0, n_where_predicates: 0 }
}

fn path(name: &str) -> TypeRef {
    TypeRef::Path(TypePath {
        qualified: false,
        segments: vec![name.to_string()],
        has_args: false,
    })
}

fn attr(name: &str, params: &[(&str, Option<&str>)]) -> Attr {
    Attr {
        outer: true,
        is_doc: false,
        name: name.to_string(),
        params: params
            .iter()
            .map(|(v, k)| AttrParam {
                key: k.map(|s| s.to_string()),
                value: LitValue::Str(v.as_bytes().to_vec()),
            })
            .collect(),
    }
}

fn alias(name: &str, base: &str, attrs: Vec<Attr>) -> Item {
    Item::TypeAlias { name: name.to_string(), generics: no_generics(), ty: path(base), attrs }
}

#[test]
fn quantized_struct_layout() {
    // an f32 wrapped over the full turn, then a bounded u8: the integer
    // field starts where the float field's ten bits end
    let items = vec![Item::StructDecl {
        name: "Pose".to_string(),
        generics: no_generics(),
        fields: vec![
            FieldDecl {
                name: "yaw".to_string(),
                ty: path("f32"),
                attrs: vec![attr(
                    "qwrap",
                    &[("0", Some("low")), ("6.28318", Some("high")), ("0.01", Some("step"))],
                )],
            },
            FieldDecl {
                name: "gear".to_string(),
                ty: path("u8"),
                attrs: vec![attr("ibound", &[("1", None), ("10", None)])],
            },
        ],
    }];
    let m = Model::from_crate(&items).unwrap();
    assert_eq!(m.types.len(), 1);
    let t = &m.types[0];
    assert_eq!(t.width, 14);
    match &t.kind {
        TypeKind::Struct { fields } => {
            assert_eq!(fields.len(), 2);
            assert_eq!(fields[0].offset, 0);
            assert_eq!(fields[0].width, 10);
            assert_eq!(fields[1].offset, 10);
            assert_eq!(fields[1].width, 4);
        },
        _ => panic!("expected a struct"),
    }
}

#[test]
fn alias_to_undeclared_name_fails() {
    let items = vec![alias("A", "Missing", vec![])];
    let e = Model::from_crate(&items).unwrap_err();
    assert_eq!(e.kind, ErrorKind::UndefinedTypeReference);
    assert_eq!(e.item, 0);
}

#[test]
fn forward_reference_fails_even_if_declared_later() {
    let items = vec![alias("A", "B", vec![]), alias("B", "u8", vec![])];
    let e = Model::from_crate(&items).unwrap_err();
    assert_eq!(e.kind, ErrorKind::UndefinedTypeReference);
    assert_eq!(e.item, 0);
}

#[test]
fn alias_to_earlier_name_resolves() {
    let items = vec![
        alias("Small", "u8", vec![attr("ibound", &[("1", None), ("10", None)])]),
        alias("AlsoSmall", "Small", vec![]),
    ];
    let m = Model::from_crate(&items).unwrap();
    assert_eq!(m.types.len(), 2);
    assert_eq!(m.types[0].width, 4);
    assert_eq!(m.types[1].width, 4);
}

#[test]
fn duplicate_type_name_fails() {
    let items = vec![alias("A", "u8", vec![]), alias("A", "u16", vec![])];
    let e = Model::from_crate(&items).unwrap_err();
    assert_eq!(e.kind, ErrorKind::DuplicateTypeName);
    assert_eq!(e.item, 1);
}

#[test]
fn self_containment_fails_as_recursive() {
    let items = vec![Item::StructDecl {
        name: "S".to_string(),
        generics: no_generics(),
        fields: vec![FieldDecl { name: "inner".to_string(), ty: path("S"), attrs: vec![] }],
    }];
    let e = Model::from_crate(&items).unwrap_err();
    assert_eq!(e.kind, ErrorKind::RecursiveTypeDefinition);
}

#[test]
fn generics_are_rejected() {
    let items = vec![Item::StructDecl {
        name: "G".to_string(),
        generics: GenericsInfo { n_lifetimes: 0, n_ty_params: 1, n_where_predicates: 0 },
        fields: vec![],
    }];
    let e = Model::from_crate(&items).unwrap_err();
    assert_eq!(e.kind, ErrorKind::UnsupportedSyntax(SyntaxIssue::Generics));
}

#[test]
fn qualified_and_multi_segment_paths_are_rejected() {
    let items = vec![Item::TypeAlias {
        name: "A".to_string(),
        generics: no_generics(),
        ty: TypeRef::Path(TypePath {
            qualified: false,
            segments: vec!["std".to_string(), "u8".to_string()],
            has_args: false,
        }),
        attrs: vec![],
    }];
    let e = Model::from_crate(&items).unwrap_err();
    assert_eq!(e.kind, ErrorKind::UnsupportedSyntax(SyntaxIssue::PathType));
}

#[test]
fn duplicate_field_names_are_rejected() {
    let items = vec![Item::StructDecl {
        name: "S".to_string(),
        generics: no_generics(),
        fields: vec![
            FieldDecl { name: "x".to_string(), ty: path("u8"), attrs: vec![] },
            FieldDecl { name: "x".to_string(), ty: path("u16"), attrs: vec![] },
        ],
    }];
    let e = Model::from_crate(&items).unwrap_err();
    assert_eq!(e.kind, ErrorKind::UnsupportedSyntax(SyntaxIssue::DuplicateField));
}

#[test]
fn enum_tag_width_is_minimal() {
    let items = vec![
        Item::EnumDecl {
            name: "Three".to_string(),
            generics: no_generics(),
            variants: vec!["A".to_string(), "B".to_string(), "C".to_string()],
        },
        Item::EnumDecl {
            name: "One".to_string(),
            generics: no_generics(),
            variants: vec!["Only".to_string()],
        },
    ];
    let m = Model::from_crate(&items).unwrap();
    assert_eq!(m.types[0].width, 2);
    // a single always-known variant needs no bits at all
    assert_eq!(m.types[1].width, 0);
}

#[test]
fn empty_enum_is_rejected() {
    let items = vec![Item::EnumDecl {
        name: "Nothing".to_string(),
        generics: no_generics(),
        variants: vec![],
    }];
    let e = Model::from_crate(&items).unwrap_err();
    assert_eq!(e.kind, ErrorKind::UnsupportedSyntax(SyntaxIssue::EmptyEnum));
}

#[test]
fn array_fields_multiply_element_width() {
    let items = vec![Item::StructDecl {
        name: "Block".to_string(),
        generics: no_generics(),
        fields: vec![
            FieldDecl {
                name: "data".to_string(),
                ty: TypeRef::Array {
                    elem: TypePath {
                        qualified: false,
                        segments: vec!["u8".to_string()],
                        has_args: false,
                    },
                    len: 5,
                },
                attrs: vec![attr("ibound", &[("0", None), ("7", None)])],
            },
            FieldDecl { name: "tail".to_string(), ty: path("u8"), attrs: vec![] },
        ],
    }];
    let m = Model::from_crate(&items).unwrap();
    let t = &m.types[0];
    // five three-bit elements, then a native byte
    assert_eq!(t.width, 23);
    match &t.kind {
        TypeKind::Struct { fields } => {
            assert_eq!(fields[0].width, 15);
            assert_eq!(fields[1].offset, 15);
        },
        _ => panic!("expected a struct"),
    }
}

#[test]
fn unquantized_scalars_keep_native_width() {
    let items = vec![
        alias("A", "f32", vec![]),
        alias("B", "f64", vec![]),
        alias("C", "u32", vec![]),
        alias("D", "i64", vec![]),
    ];
    let m = Model::from_crate(&items).unwrap();
    assert_eq!(m.types[0].width, 32);
    assert_eq!(m.types[1].width, 64);
    assert_eq!(m.types[2].width, 32);
    assert_eq!(m.types[3].width, 64);
}
