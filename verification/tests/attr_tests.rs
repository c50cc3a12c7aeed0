use wiregen::ast::{Attr, AttrParam, FieldDecl, GenericsInfo, Item, LitValue, TypePath, TypeRef};
use wiregen::error::ErrorKind;
use wiregen::model::Model;

fn no_generics() -> GenericsInfo {
    GenericsInfo { n_lifetimes: 0, n_ty_params: 0, n_where_predicates: 0 }
}

fn path(name: &str) -> TypeRef {
    TypeRef::Path(TypePath {
        qualified: false,
        segments: vec![name.to_string()],
        has_args: false,
    })
}

fn attr(name: &str, params: &[(&str, Option<&str>)]) -> Attr {
    Attr {
        outer: true,
        is_doc: false,
        name: name.to_string(),
        params: params
            .iter()
            .map(|(v, k)| AttrParam {
                key: k.map(|s| s.to_string()),
                value: LitValue::Str(v.as_bytes().to_vec()),
            })
            .collect(),
    }
}

fn alias_with(attrs: Vec<Attr>, base: &str) -> Vec<Item> {
    vec![Item::TypeAlias {
        name: "T".to_string(),
        generics: no_generics(),
        ty: path(base),
        attrs,
    }]
}

#[test]
fn positional_and_keyword_parameters_agree() {
    let pos = Model::from_crate(&alias_with(
        vec![attr("qlinspace", &[("0", None), ("1", None), ("0.5", None)])],
        "f32",
    ))
    .unwrap();
    let kw = Model::from_crate(&alias_with(
        vec![attr("qlinspace", &[("0.5", Some("step")), ("0", Some("low")), ("1", Some("high"))])],
        "f32",
    ))
    .unwrap();
    assert_eq!(pos.types[0].width, 2);
    assert_eq!(kw.types[0].width, 2);
}

#[test]
fn unknown_attribute_fails() {
    let e = Model::from_crate(&alias_with(vec![attr("qfoo", &[("0", None)])], "f32"))
        .unwrap_err();
    assert_eq!(e.kind, ErrorKind::UnknownAttribute);
}

#[test]
fn doc_and_inner_attributes_are_ignored() {
    let mut doc = attr("doc", &[]);
    doc.is_doc = true;
    let mut inner = attr("whatever", &[]);
    inner.outer = false;
    let m = Model::from_crate(&alias_with(vec![doc, inner], "f32")).unwrap();
    assert_eq!(m.types[0].width, 32);
}

#[test]
fn duplicate_quantization_attribute_fails() {
    let a = attr("qlinspace", &[("0", None), ("1", None), ("0.5", None)]);
    let e = Model::from_crate(&alias_with(vec![a.clone(), a], "f32")).unwrap_err();
    assert_eq!(e.kind, ErrorKind::DuplicateAttribute);
}

#[test]
fn attribute_kind_mismatch_fails() {
    let e = Model::from_crate(&alias_with(
        vec![attr("ibound", &[("1", None), ("10", None)])],
        "f32",
    ))
    .unwrap_err();
    assert_eq!(e.kind, ErrorKind::AttributeKindMismatch);
    let e = Model::from_crate(&alias_with(
        vec![attr("qlinspace", &[("0", None), ("1", None), ("0.5", None)])],
        "u8",
    ))
    .unwrap_err();
    assert_eq!(e.kind, ErrorKind::AttributeKindMismatch);
}

#[test]
fn wrong_arity_fails() {
    let e = Model::from_crate(&alias_with(
        vec![attr("qlinspace", &[("0", None), ("1", None)])],
        "f32",
    ))
    .unwrap_err();
    assert_eq!(e.kind, ErrorKind::InvalidAttributeArity);
    // the step is mandatory also by keyword
    let e = Model::from_crate(&alias_with(
        vec![attr("qlinspace", &[("0", Some("low")), ("1", Some("high")), ("0.5", Some("stepp"))])],
        "f32",
    ))
    .unwrap_err();
    assert_eq!(e.kind, ErrorKind::InvalidAttributeArity);
    // mixing positional and keyword style is refused
    let e = Model::from_crate(&alias_with(
        vec![attr("qlinspace", &[("0", None), ("1", Some("high")), ("0.5", Some("step"))])],
        "f32",
    ))
    .unwrap_err();
    assert_eq!(e.kind, ErrorKind::InvalidAttributeArity);
    let e = Model::from_crate(&alias_with(
        vec![attr("ibound", &[("1", None), ("10", None), ("11", None)])],
        "u8",
    ))
    .unwrap_err();
    assert_eq!(e.kind, ErrorKind::InvalidAttributeArity);
}

#[test]
fn unparsable_literal_fails() {
    let e = Model::from_crate(&alias_with(
        vec![attr("qlinspace", &[("zero", None), ("1", None), ("0.5", None)])],
        "f32",
    ))
    .unwrap_err();
    assert_eq!(e.kind, ErrorKind::InvalidNumericLiteral);
    // a bound literal overflowing the base kind
    let e = Model::from_crate(&alias_with(
        vec![attr("ibound", &[("1", None), ("256", None)])],
        "u8",
    ))
    .unwrap_err();
    assert_eq!(e.kind, ErrorKind::InvalidNumericLiteral);
}

#[test]
fn interval_beyond_exact_scale_fails() {
    // the literals resolve, but the quantizer's scaled arithmetic cannot
    // hold the interval: too many fractional digits for one common scale
    let e = Model::from_crate(&alias_with(
        vec![attr("qlinspace", &[("0", None), ("1e-40", None), ("1e-45", None)])],
        "f32",
    ))
    .unwrap_err();
    assert_eq!(e.kind, ErrorKind::InvalidNumericLiteral);
    // or scaled bounds beyond the exact magnitude range
    let e = Model::from_crate(&alias_with(
        vec![attr("qlinspace", &[("0", None), ("1e40", None), ("1e39", None)])],
        "f32",
    ))
    .unwrap_err();
    assert_eq!(e.kind, ErrorKind::InvalidNumericLiteral);
}

#[test]
fn variant_tags_follow_declaration_order() {
    let variants: Vec<String> =
        vec!["Stop".to_string(), "Go".to_string(), "Turn".to_string()];
    assert_eq!(wiregen::model::variant_tag(&variants, &"Stop".to_string()), Some(0));
    assert_eq!(wiregen::model::variant_tag(&variants, &"Turn".to_string()), Some(2));
    assert_eq!(wiregen::model::variant_tag(&variants, &"Fly".to_string()), None);
    assert_eq!(wiregen::model::variant_of_tag(&variants, 1), Some(&"Go".to_string()));
    assert_eq!(wiregen::model::variant_of_tag(&variants, 3), None);
}

#[test]
fn quantized_field_inside_struct() {
    let items = vec![Item::StructDecl {
        name: "S".to_string(),
        generics: no_generics(),
        fields: vec![FieldDecl {
            name: "level".to_string(),
            ty: path("f64"),
            attrs: vec![attr("qlinspace", &[("0", None), ("1", None), ("0.5", None)])],
        }],
    }];
    let m = Model::from_crate(&items).unwrap();
    assert_eq!(m.types[0].width, 2);
}
