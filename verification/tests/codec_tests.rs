use wiregen::ast::{Attr, AttrParam, FieldDecl, GenericsInfo, Item, LitValue, TypePath, TypeRef};
use wiregen::codec::{decode_struct, encode_struct, ScalarVal};
use wiregen::error::ErrorKind;
use wiregen::model::{FieldDef, Model, TypeKind};
use wiregen::rat::Rat;

fn no_generics() -> GenericsInfo {
    GenericsInfo { n_lifetimes: 0, n_ty_params: 0, n_where_predicates: 0 }
}

fn path(name: &str) -> TypeRef {
    TypeRef::Path(TypePath {
        qualified: false,
        segments: vec![name.to_string()],
        has_args: false,
    })
}

fn attr(name: &str, params: &[&str]) -> Attr {
    Attr {
        outer: true,
        is_doc: false,
        name: name.to_string(),
        params: params
            .iter()
            .map(|v| AttrParam { key: None, value: LitValue::Str(v.as_bytes().to_vec()) })
            .collect(),
    }
}

fn pose_fields() -> Vec<FieldDef> {
    let items = vec![Item::StructDecl {
        name: "Pose".to_string(),
        generics: no_generics(),
        fields: vec![
            FieldDecl {
                name: "yaw".to_string(),
                ty: path("f32"),
                attrs: vec![attr("qwrap", &["0", "6.28318", "0.01"])],
            },
            FieldDecl {
                name: "gear".to_string(),
                ty: path("u8"),
                attrs: vec![attr("ibound", &["1", "10"])],
            },
        ],
    }];
    let m = Model::from_crate(&items).unwrap();
    match &m.types[0].kind {
        TypeKind::Struct { fields } => fields.clone(),
        _ => panic!("expected a struct"),
    }
}

#[test]
fn struct_stream_is_one_contiguous_bit_sequence() {
    let fields = pose_fields();
    let vals = vec![ScalarVal::F(Rat::new(1, 2)), ScalarVal::I(3)];
    let mut out: Vec<bool> = Vec::new();
    encode_struct(&fields, &vals, &mut out).unwrap();
    // ten bits of wrapped yaw, four bits of bounded gear, no padding
    assert_eq!(out.len(), 14);
}

#[test]
fn struct_round_trip_reproduces_fields() {
    let fields = pose_fields();
    // 0.5 radians lies on the hundredth-step grid, so it comes back exactly
    let vals = vec![ScalarVal::F(Rat::new(1, 2)), ScalarVal::I(3)];
    let mut out: Vec<bool> = Vec::new();
    encode_struct(&fields, &vals, &mut out).unwrap();
    let back = decode_struct(&fields, &out, 0);
    assert_eq!(back.len(), 2);
    match back[0] {
        ScalarVal::F(g) => {
            // 50000 / 100000 == 1/2
            assert_eq!(g.num * 2, g.den);
        },
        _ => panic!("expected a rational"),
    }
    assert_eq!(back[1], ScalarVal::I(3));
}

#[test]
fn encode_rejects_out_of_bound_integer() {
    let fields = pose_fields();
    let vals = vec![ScalarVal::F(Rat::new(1, 2)), ScalarVal::I(11)];
    let mut out: Vec<bool> = Vec::new();
    let e = encode_struct(&fields, &vals, &mut out).unwrap_err();
    assert_eq!(e.kind, ErrorKind::ValueOutOfBound);
}

#[test]
fn native_scalars_round_trip_exactly() {
    let items = vec![Item::StructDecl {
        name: "Mixed".to_string(),
        generics: no_generics(),
        fields: vec![
            FieldDecl { name: "a".to_string(), ty: path("i8"), attrs: vec![] },
            FieldDecl { name: "b".to_string(), ty: path("u16"), attrs: vec![] },
            FieldDecl { name: "c".to_string(), ty: path("f32"), attrs: vec![] },
        ],
    }];
    let m = Model::from_crate(&items).unwrap();
    let fields = match &m.types[0].kind {
        TypeKind::Struct { fields } => fields.clone(),
        _ => panic!("expected a struct"),
    };
    let vals = vec![
        ScalarVal::I(-5),
        ScalarVal::I(515),
        ScalarVal::Raw(0x3f80_0000),
    ];
    let mut out: Vec<bool> = Vec::new();
    encode_struct(&fields, &vals, &mut out).unwrap();
    assert_eq!(out.len(), 8 + 16 + 32);
    let back = decode_struct(&fields, &out, 0);
    assert_eq!(back, vals);
}

#[test]
fn wrapped_value_decodes_into_interval_after_many_turns() {
    let fields = pose_fields();
    // twenty-five full turns and a bit: still lands inside [0, 2*pi)
    let vals = vec![ScalarVal::F(Rat::new(15_708_0, 1000)), ScalarVal::I(1)];
    let mut out: Vec<bool> = Vec::new();
    encode_struct(&fields, &vals, &mut out).unwrap();
    let back = decode_struct(&fields, &out, 0);
    match back[0] {
        ScalarVal::F(g) => {
            assert!(g.num >= 0);
            // below high = 6.28318
            assert!((g.num as i128) * 100_000 < 628_318 * g.den);
        },
        _ => panic!("expected a rational"),
    }
}
