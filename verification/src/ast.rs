//! The input declaration tree.
//!
//! The surface parser (outside the library) hands over a sequence of
//! declaration nodes: type aliases, structs and C-style enums, each with
//! its attributes. Only plain shape data crosses the boundary — names,
//! counts, and the bytes of literal parameters — so every decision about
//! the input is made, and checked, here.

use vstd::prelude::*;

verus! {

/// What a declaration carries in angle brackets and where-clauses. Any
/// non-zero count makes the declaration inadmissible.
#[derive(Clone, Copy, Debug, PartialEq, Eq, Structural)]
pub struct GenericsInfo {
    pub n_lifetimes: usize,
    pub n_ty_params: usize,
    pub n_where_predicates: usize,
}

/// The value of an attribute parameter: the bytes of a string literal,
/// or some other literal kind the interpreter rejects.
#[derive(Clone, Debug)]
pub enum LitValue {
    Str(Vec<u8>),
    Other,
}

/// One attribute parameter, positional (`key` empty) or keyed.
#[derive(Clone, Debug)]
pub struct AttrParam {
    pub key: Option<String>,
    pub value: LitValue,
}

/// One attribute: its placement, name and ordered parameters.
#[derive(Clone, Debug)]
pub struct Attr {
    pub outer: bool,
    pub is_doc: bool,
    pub name: String,
    pub params: Vec<AttrParam>,
}

/// The shape of a path type: whether it is globally qualified, its
/// segment names, and whether any segment carries angle-bracket
/// arguments. Only a single bare segment without arguments is admissible.
#[derive(Clone, Debug)]
pub struct TypePath {
    pub qualified: bool,
    pub segments: Vec<String>,
    pub has_args: bool,
}

/// A referenced type: a path, or a fixed-size array of a path element.
#[derive(Clone, Debug)]
pub enum TypeRef {
    Path(TypePath),
    Array { elem: TypePath, len: u64 },
}

/// One struct field: its name, referenced type and attributes.
#[derive(Clone, Debug)]
pub struct FieldDecl {
    pub name: String,
    pub ty: TypeRef,
    pub attrs: Vec<Attr>,
}

/// One top-level declaration.
#[derive(Clone, Debug)]
pub enum Item {
    TypeAlias { name: String, generics: GenericsInfo, ty: TypeRef, attrs: Vec<Attr> },
    StructDecl { name: String, generics: GenericsInfo, fields: Vec<FieldDecl> },
    EnumDecl { name: String, generics: GenericsInfo, variants: Vec<String> },
}

impl Item {
    /// The declared type name.
    pub open spec fn spec_name(&self) -> Seq<char> {
        match self {
            Item::TypeAlias { name, .. } => name@,
            Item::StructDecl { name, .. } => name@,
            Item::EnumDecl { name, .. } => name@,
        }
    }
}

/// A declaration is generic as soon as it has a lifetime, a type
/// parameter or a where-clause predicate.
pub fn any_generic(g: &GenericsInfo) -> (b: bool)
    ensures
        b == (g.n_lifetimes != 0 || g.n_ty_params != 0 || g.n_where_predicates != 0),
{
    g.n_lifetimes != 0 || g.n_ty_params != 0 || g.n_where_predicates != 0
}

/// The bare identifier of an admissible path type: exactly one segment,
/// not globally qualified, no angle-bracket arguments.
pub fn admissible_path(p: &TypePath) -> (r: Option<&String>)
    ensures
        match r {
            Some(name) => !p.qualified && p.segments@.len() == 1 && !p.has_args
                && name@ == p.segments@[0]@,
            None => p.qualified || p.segments@.len() != 1 || p.has_args,
        },
{
    if !p.qualified && p.segments.len() == 1 && !p.has_args {
        Some(&p.segments[0])
    } else {
        None
    }
}

/// An attribute takes part in interpretation only when it is an outer,
/// non-doc attribute.
pub fn outer_attr(attr: &Attr) -> (b: bool)
    ensures
        b == (attr.outer && !attr.is_doc),
{
    attr.outer && !attr.is_doc
}

/// The two elements of an exactly-two-element vector.
pub fn list2<F>(vec: &Vec<F>) -> (r: Result<(&F, &F), ()>)
    ensures
        vec@.len() == 2 <==> r is Ok,
        r matches Ok(pair) ==> pair.0 == &vec@[0] && pair.1 == &vec@[1],
{
    if vec.len() == 2 {
        Ok((&vec[0], &vec[1]))
    } else {
        Err(())
    }
}

/// The byte content of a string-literal parameter value.
pub fn str_literal(param: &AttrParam) -> (r: Result<&Vec<u8>, ()>)
    ensures
        match r {
            Ok(bs) => param.value matches LitValue::Str(b) && bs@ == b@,
            Err(_) => !(param.value matches LitValue::Str(_)),
        },
{
    match &param.value {
        LitValue::Str(bs) => Ok(bs),
        LitValue::Other => Err(()),
    }
}

} // verus!
