//! Type registry, model builder and layout compiler.
//!
//! Declarations are resolved in input order into an append-only registry:
//! every referenced name must already stand in it, so the type graph is
//! acyclic by construction and every size is statically known. Each
//! registered type carries its packed bit width; each struct field its
//! bit offset — the sum of the widths of the fields before it — and its
//! width, in declaration order with no padding.

use vstd::prelude::*;
use crate::ast::{Item, TypeRef, FieldDecl, Attr, admissible_path, any_generic};
use crate::attr::{
    PrimFloatKind, PrimIntKind, FloatQuant, IntBound, float_quant_from_attrs,
    int_bound_from_attrs,
};
use crate::error::{Error, ErrorKind, SyntaxIssue};
use crate::quant::{quantf_wf, intbound_wf, bits_minimal, bits_for};

verus! {

/// A registered type's unique name.
#[derive(Clone, Debug)]
pub enum TypeId {
    Named(String),
}

impl TypeId {
    /// The name as a character sequence.
    pub open spec fn spec_str(&self) -> Seq<char> {
        match self {
            TypeId::Named(s) => s@,
        }
    }
}

/// A scalar element type as it appears inside a field: a reference to an
/// earlier registry entry, or an inline primitive scalar.
#[derive(Clone, Debug)]
pub enum ElemTy {
    Named(usize),
    Float { base: PrimFloatKind, quant: FloatQuant },
    Int { base: PrimIntKind, bound: IntBound },
}

/// A resolved field type: a single element, or a fixed-size array of
/// elements laid out consecutively.
#[derive(Clone, Debug)]
pub enum ResolvedTy {
    Elem(ElemTy),
    Array { elem: ElemTy, len: u64 },
}

/// A resolved struct field with its computed layout.
#[derive(Clone, Debug)]
pub struct FieldDef {
    pub name: String,
    pub ty: ResolvedTy,
    pub offset: u64,
    pub width: u64,
}

/// A registered type's resolved kind.
#[derive(Clone, Debug)]
pub enum TypeKind {
    PrimFloat { base: PrimFloatKind, quant: FloatQuant },
    PrimInt { base: PrimIntKind, bound: IntBound },
    Struct { fields: Vec<FieldDef> },
    Enum { variants: Vec<String> },
    Alias { target: usize },
}

/// One registry entry: a name, a kind, and a total packed bit width.
#[derive(Clone, Debug)]
pub struct Type {
    pub name: TypeId,
    pub kind: TypeKind,
    pub width: u64,
}

/// The fully resolved model: the append-only registry in declaration
/// order. Immutable once built.
#[derive(Clone, Debug)]
pub struct Model {
    pub types: Vec<Type>,
}

/// The packed width of a floating-point scalar: its quantized bit count,
/// or its native width.
pub open spec fn spec_float_width(base: PrimFloatKind, quant: FloatQuant) -> int {
    match quant {
        FloatQuant::Native => if base == PrimFloatKind::F32 { 32int } else { 64int },
        FloatQuant::Interval(q) => q.bits as int,
    }
}

/// The packed width of an integer scalar: its bounded bit count, or its
/// native width.
pub open spec fn spec_int_width(base: PrimIntKind, bound: IntBound) -> int {
    match bound {
        IntBound::Native => match base {
            PrimIntKind::U8 | PrimIntKind::I8 => 8int,
            PrimIntKind::U16 | PrimIntKind::I16 => 16int,
            PrimIntKind::U32 | PrimIntKind::I32 => 32int,
            PrimIntKind::U64 | PrimIntKind::I64 => 64int,
        },
        IntBound::Interval(b) => b.bits as int,
    }
}

/// A scalar element is well formed when its quantization spec is.
pub open spec fn elem_wf(m: Model, e: ElemTy, bound: int) -> bool {
    match e {
        ElemTy::Named(j) => 0 <= j < bound,
        ElemTy::Float { base, quant } => quant matches FloatQuant::Interval(q) ==> quantf_wf(q),
        ElemTy::Int { base, bound: b } => b matches IntBound::Interval(s) ==> intbound_wf(s),
    }
}

/// The packed width of a scalar element within a model.
pub open spec fn elem_width(m: Model, e: ElemTy) -> int {
    match e {
        ElemTy::Named(j) => if 0 <= j < m.types@.len() { m.types@[j as int].width as int } else { 0 },
        ElemTy::Float { base, quant } => spec_float_width(base, quant),
        ElemTy::Int { base, bound } => spec_int_width(base, bound),
    }
}

/// The packed width of a resolved field type: elements of an array are
/// laid out consecutively, so its width is the element width times the
/// length.
pub open spec fn resolved_width(m: Model, t: ResolvedTy) -> int {
    match t {
        ResolvedTy::Elem(e) => elem_width(m, e),
        ResolvedTy::Array { elem, len } => (len as int) * elem_width(m, elem),
    }
}

/// Well-formedness of a struct's field list: every element reference
/// points below `bound`, widths match the model, offsets are the exact
/// prefix sums of the widths before them, and names are unique.
pub open spec fn fields_wf(m: Model, fields: Seq<FieldDef>, bound: int) -> bool {
    &&& (forall|j: int| 0 <= j < fields.len() ==> match #[trigger] fields[j].ty {
        ResolvedTy::Elem(e) => elem_wf(m, e, bound),
        ResolvedTy::Array { elem, len } => elem_wf(m, elem, bound),
    })
    &&& (forall|j: int| 0 <= j < fields.len()
        ==> (#[trigger] fields[j].width) as int == resolved_width(m, fields[j].ty))
    &&& (forall|j: int| 0 <= j < fields.len() ==> (#[trigger] fields[j].offset) as int
        == if j == 0 { 0int } else { fields[j - 1].offset + fields[j - 1].width })
    &&& (forall|j: int, k: int| 0 <= j < k < fields.len()
        ==> #[trigger] fields[j].name@ != #[trigger] fields[k].name@)
}

/// Well-formedness of the registry entry at `i`.
pub open spec fn type_wf(m: Model, i: int) -> bool {
    let t = m.types@[i];
    match t.kind {
        TypeKind::PrimFloat { base, quant } => {
            &&& (quant matches FloatQuant::Interval(q) ==> quantf_wf(q))
            &&& t.width as int == spec_float_width(base, quant)
        },
        TypeKind::PrimInt { base, bound } => {
            &&& (bound matches IntBound::Interval(b) ==> intbound_wf(b))
            &&& t.width as int == spec_int_width(base, bound)
        },
        TypeKind::Struct { fields } => {
            &&& fields_wf(m, fields@, i)
            &&& t.width as int == if fields@.len() == 0 {
                0int
            } else {
                fields@[fields@.len() - 1].offset + fields@[fields@.len() - 1].width
            }
        },
        TypeKind::Enum { variants } => {
            &&& variants@.len() >= 1
            &&& t.width <= 64
            &&& bits_minimal(variants@.len() as int, t.width as u32)
            &&& (forall|j: int, k: int| 0 <= j < k < variants@.len()
                ==> #[trigger] variants@[j]@ != #[trigger] variants@[k]@)
        },
        TypeKind::Alias { target } => {
            &&& 0 <= target < i
            &&& t.width == m.types@[target as int].width
        },
    }
}

/// Well-formedness of the whole model: every entry well formed, names
/// unique across the registry.
pub open spec fn model_wf(m: Model) -> bool {
    &&& (forall|i: int| 0 <= i < m.types@.len() ==> #[trigger] type_wf(m, i))
    &&& (forall|i: int, j: int| 0 <= i < j < m.types@.len()
        ==> #[trigger] m.types@[i].name.spec_str() != #[trigger] m.types@[j].name.spec_str())
}

/// The sum of the widths of the first `j` fields.
pub open spec fn sum_widths(fields: Seq<FieldDef>, j: int) -> int
    decreases j,
{
    if j <= 0 {
        0
    } else {
        sum_widths(fields, j - 1) + fields[j - 1].width
    }
}

/// Struct layout law: under a well-formed field list, every field's
/// offset is exactly the sum of the widths of the fields before it —
/// members cover the struct contiguously, in order, with no gaps and no
/// overlap — and the total width is the sum of all member widths.
pub proof fn lemma_struct_layout(m: Model, fields: Seq<FieldDef>, bound: int, j: int)
    requires
        fields_wf(m, fields, bound),
        0 <= j < fields.len(),
    ensures
        fields[j].offset as int == sum_widths(fields, j),
        fields[j].offset + fields[j].width == sum_widths(fields, j + 1),
    decreases j,
{
    if j > 0 {
        lemma_struct_layout(m, fields, bound, j - 1);
    }
}

/// Compilation fails at declaration `e.item`: some registry built
/// correctly from the declarations before it refuses that declaration
/// with `e.kind`.
pub open spec fn build_fails_at(items: Seq<Item>, e: Error) -> bool {
    exists|mp: Model|
        {
            &&& #[trigger] mp.types@.len() == e.item
            &&& model_wf(mp)
            &&& (forall|i: int| 0 <= i < e.item
                ==> (#[trigger] mp.types@[i].name.spec_str()) == items[i].spec_name())
            &&& (forall|i: int| 0 <= i < e.item
                ==> entry_matches(mp, #[trigger] mp.types@[i], items[i]))
            &&& register_error_matches(mp, e.kind, items[e.item as int])
        }
}

impl Model {
    /// An empty registry.
    pub fn new() -> (m: Model)
        ensures
            m.types@.len() == 0,
            model_wf(m),
    {
        Model { types: Vec::new() }
    }

    /// The registry index of a name, if it is registered.
    pub fn find(&self, name: &String) -> (r: Option<usize>)
        ensures
            match r {
                Some(j) => j < self.types@.len() && self.types@[j as int].name.spec_str()
                    == name@,
                None => forall|j: int| 0 <= j < self.types@.len()
                    ==> #[trigger] self.types@[j].name.spec_str() != name@,
            },
    {
        let mut i: usize = 0;
        while i < self.types.len()
            invariant
                i <= self.types@.len(),
                forall|j: int| 0 <= j < i ==> #[trigger] self.types@[j].name.spec_str() != name@,
            decreases self.types@.len() - i,
        {
            let eq = match &self.types[i].name {
                TypeId::Named(s) => *s == *name,
            };
            if eq {
                return Some(i);
            }
            i = i + 1;
        }
        None
    }
}

/// Resolve one element type reference against the registry: a primitive
/// scalar name with the declaration's attributes, or a registered name.
/// A reference to the name under construction is the first back-edge of
/// a containment cycle.
fn resolve_elem(
    m: &Model,
    path: &crate::ast::TypePath,
    attrs: &Vec<Attr>,
    current: &String,
    item: usize,
) -> (r: Result<ElemTy, Error>)
    ensures
        r matches Ok(e) ==> elem_wf(*m, e, m.types@.len() as int)
            && elem_matches(*m, e, *path, attrs@),
        r matches Err(e) ==> e.item == item
            && elem_error_matches(*m, e.kind, *path, attrs@, current@),
{
    let name = match admissible_path(path) {
        Some(n) => n,
        None => {
            return Err(Error {
                kind: ErrorKind::UnsupportedSyntax(SyntaxIssue::PathType),
                item,
            });
        },
    };
    match PrimIntKind::try_parse(name.as_str()) {
        Ok(base) => {
            let bound = match int_bound_from_attrs(attrs, &base, item) {
                Ok(b) => b,
                Err(e) => {
                    proof {
                        assert(tp_name(*path) == Some(prim_int_name(base)));
                    }
                    return Err(e);
                },
            };
            return Ok(ElemTy::Int { base, bound });
        },
        Err(_) => {},
    }
    match PrimFloatKind::try_parse(name.as_str()) {
        Ok(base) => {
            let quant = match float_quant_from_attrs(attrs, item) {
                Ok(q) => q,
                Err(e) => {
                    proof {
                        assert(tp_name(*path) == Some(prim_float_name(base)));
                    }
                    return Err(e);
                },
            };
            return Ok(ElemTy::Float { base, quant });
        },
        Err(_) => {},
    }
    // a named reference: quantization attributes apply to primitive
    // scalars only
    proof {
        assert(!is_prim_name(name@));
    }
    let mut i: usize = 0;
    while i < attrs.len()
        invariant
            i <= attrs@.len(),
            !is_prim_name(name@),
            tp_name(*path) == Some(name@),
            forall|k: int| 0 <= k < i ==> !(#[trigger] crate::attr::attr_relevant(attrs@[k])),
        decreases attrs@.len() - i,
    {
        if crate::ast::outer_attr(&attrs[i]) {
            proof {
                assert(crate::attr::attr_relevant(attrs@[i as int]));
            }
            return Err(Error { kind: ErrorKind::AttributeKindMismatch, item });
        }
        i = i + 1;
    }
    if *name == *current {
        return Err(Error { kind: ErrorKind::RecursiveTypeDefinition, item });
    }
    match m.find(name) {
        Some(j) => Ok(ElemTy::Named(j)),
        None => Err(Error { kind: ErrorKind::UndefinedTypeReference, item }),
    }
}

/// The packed width of a resolved element, executable.
fn elem_width_exec(m: &Model, e: &ElemTy) -> (w: u64)
    requires
        elem_wf(*m, *e, m.types@.len() as int),
    ensures
        w as int == elem_width(*m, *e),
{
    match e {
        ElemTy::Named(j) => m.types[*j].width,
        ElemTy::Float { base, quant } => match quant {
            FloatQuant::Native => base.width(),
            FloatQuant::Interval(q) => q.bits as u64,
        },
        ElemTy::Int { base, bound } => match bound {
            IntBound::Native => base.width(),
            IntBound::Interval(b) => b.bits as u64,
        },
    }
}

/// Resolve a field's type reference and compute its packed width.
fn resolve_field_ty(
    m: &Model,
    ty: &TypeRef,
    attrs: &Vec<Attr>,
    current: &String,
    item: usize,
) -> (r: Result<(ResolvedTy, u64), Error>)
    ensures
        r matches Ok(p) ==> {
            &&& match p.0 {
                ResolvedTy::Elem(e) => elem_wf(*m, e, m.types@.len() as int),
                ResolvedTy::Array { elem, len } => elem_wf(*m, elem, m.types@.len() as int),
            }
            &&& p.1 as int == resolved_width(*m, p.0)
            &&& resolved_matches(*m, p.0, *ty, attrs@)
        },
        r matches Err(e) ==> e.item == item,
{
    match ty {
        TypeRef::Path(p) => {
            let e = resolve_elem(m, p, attrs, current, item)?;
            let w = elem_width_exec(m, &e);
            Ok((ResolvedTy::Elem(e), w))
        },
        TypeRef::Array { elem, len } => {
            let e = resolve_elem(m, elem, attrs, current, item)?;
            let ew = elem_width_exec(m, &e);
            if ew != 0 && *len > u64::MAX / ew {
                return Err(Error {
                    kind: ErrorKind::UnsupportedSyntax(SyntaxIssue::WidthOverflow),
                    item,
                });
            }
            proof {
                if ew != 0 {
                    vstd::arithmetic::div_mod::lemma_fundamental_div_mod(
                        u64::MAX as int, ew as int,
                    );
                    vstd::arithmetic::mul::lemma_mul_inequality(
                        *len as int, (u64::MAX as int) / (ew as int), ew as int,
                    );
                    vstd::arithmetic::div_mod::lemma_mod_division_less_than_divisor(
                        u64::MAX as int, ew as int,
                    );
                    assert(((u64::MAX as int) / (ew as int)) * (ew as int)
                        <= u64::MAX as int);
                } else {
                    assert((*len as int) * 0 == 0) by (nonlinear_arith);
                }
            }
            let w = if ew == 0 { 0 } else { *len * ew };
            Ok((ResolvedTy::Array { elem: e, len: *len }, w))
        },
    }
}

/// The bare name of an admissible path, if it has that shape.
pub open spec fn tp_name(p: crate::ast::TypePath) -> Option<Seq<char>> {
    if !p.qualified && p.segments@.len() == 1 && !p.has_args {
        Some(p.segments@[0]@)
    } else {
        None
    }
}

/// The bare name of an admissible path type, if the reference has that
/// shape.
pub open spec fn spec_path_name(t: TypeRef) -> Option<Seq<char>> {
    match t {
        TypeRef::Path(p) => tp_name(p),
        TypeRef::Array { .. } => None,
    }
}

/// The surface name of an integer base kind.
pub open spec fn prim_int_name(k: PrimIntKind) -> Seq<char> {
    match k {
        PrimIntKind::U8 => "u8"@,
        PrimIntKind::U16 => "u16"@,
        PrimIntKind::U32 => "u32"@,
        PrimIntKind::U64 => "u64"@,
        PrimIntKind::I8 => "i8"@,
        PrimIntKind::I16 => "i16"@,
        PrimIntKind::I32 => "i32"@,
        PrimIntKind::I64 => "i64"@,
    }
}

/// The surface name of a floating-point base kind.
pub open spec fn prim_float_name(k: PrimFloatKind) -> Seq<char> {
    match k {
        PrimFloatKind::F32 => "f32"@,
        PrimFloatKind::F64 => "f64"@,
    }
}

/// The name denotes a primitive scalar kind.
pub open spec fn is_prim_name(n: Seq<char>) -> bool {
    ||| n == "u8"@ || n == "u16"@ || n == "u32"@ || n == "u64"@
    ||| n == "i8"@ || n == "i16"@ || n == "i32"@ || n == "i64"@
    ||| n == "f32"@ || n == "f64"@
}

/// Some attribute of the declaration takes part in interpretation.
pub open spec fn any_relevant(attrs: Seq<Attr>) -> bool {
    exists|j: int| 0 <= j < attrs.len() && #[trigger] crate::attr::attr_relevant(attrs[j])
}

/// An alias declaration's resolved kind and width correspond to its
/// referenced path and attributes: a primitive scalar whose attribute
/// scan selects its quantization, or an attribute-free reference to the
/// registered entry of that name.
pub open spec fn kind_matches(m: Model, k: TypeKind, w: u64, ty: TypeRef, attrs: Seq<Attr>) -> bool {
    match k {
        TypeKind::PrimInt { base, bound } => {
            &&& spec_path_name(ty) == Some(prim_int_name(base))
            &&& match crate::attr::spec_bound_sel(attrs, 0, None, base) {
                Ok(sel) => match (sel, bound) {
                    (None, IntBound::Native) => w as int == spec_int_width(base, IntBound::Native),
                    (Some(t), IntBound::Interval(b)) => crate::attr::bound_matches(b, t, base)
                        && w == b.bits,
                    _ => false,
                },
                Err(_) => false,
            }
        },
        TypeKind::PrimFloat { base, quant } => {
            &&& spec_path_name(ty) == Some(prim_float_name(base))
            &&& match crate::attr::spec_float_sel(attrs, 0, None) {
                Ok(sel) => match (sel, quant) {
                    (None, FloatQuant::Native) => w as int == spec_float_width(base, FloatQuant::Native),
                    (Some(t), FloatQuant::Interval(q)) => crate::attr::quant_matches(q, t)
                        && w == q.bits,
                    _ => false,
                },
                Err(_) => false,
            }
        },
        TypeKind::Alias { target } => {
            &&& spec_path_name(ty) matches Some(n) && !is_prim_name(n) && !any_relevant(attrs)
                && 0 <= target < m.types@.len()
                && m.types@[target as int].name.spec_str() == n
                && w == m.types@[target as int].width
        },
        _ => false,
    }
}

/// An alias resolution error corresponds to its cause: an inadmissible
/// path shape, an attribute scan failure on a primitive base, an
/// attribute on a named reference, or an unregistered name.
pub open spec fn kind_error_matches(m: Model, k: ErrorKind, ty: TypeRef, attrs: Seq<Attr>) -> bool {
    let pn = spec_path_name(ty);
    ||| (k == ErrorKind::UnsupportedSyntax(SyntaxIssue::PathType) && pn is None)
    ||| (pn matches Some(n) && (exists|base: PrimIntKind| n == #[trigger] prim_int_name(base)
            && crate::attr::spec_bound_sel(attrs, 0, None, base) == Err::<Option<(crate::literal::Dec, crate::literal::Dec)>, ErrorKind>(k)))
    ||| (pn matches Some(n) && (exists|base: PrimFloatKind| n == #[trigger] prim_float_name(base))
            && crate::attr::spec_float_sel(attrs, 0, None)
                == Err::<Option<(crate::literal::Dec, crate::literal::Dec, crate::literal::Dec, crate::quant::FloatIntervalQuantKind)>, ErrorKind>(k))
    ||| (pn matches Some(n) && !is_prim_name(n) && k == ErrorKind::AttributeKindMismatch
            && any_relevant(attrs))
    ||| (pn matches Some(n) && !is_prim_name(n) && k == ErrorKind::UndefinedTypeReference
            && !any_relevant(attrs)
            && (forall|j: int| 0 <= j < m.types@.len()
                ==> (#[trigger] m.types@[j].name.spec_str()) != n))
}

/// A resolved element corresponds to its referenced path and the
/// declaration's attributes: a primitive scalar whose attribute scan
/// selects its quantization, or an attribute-free reference to the
/// registered entry of that name.
pub open spec fn elem_matches(m: Model, e: ElemTy, p: crate::ast::TypePath, attrs: Seq<Attr>) -> bool {
    match e {
        ElemTy::Int { base, bound } => {
            &&& tp_name(p) == Some(prim_int_name(base))
            &&& match crate::attr::spec_bound_sel(attrs, 0, None, base) {
                Ok(sel) => match (sel, bound) {
                    (None, IntBound::Native) => true,
                    (Some(t), IntBound::Interval(b)) => crate::attr::bound_matches(b, t, base),
                    _ => false,
                },
                Err(_) => false,
            }
        },
        ElemTy::Float { base, quant } => {
            &&& tp_name(p) == Some(prim_float_name(base))
            &&& match crate::attr::spec_float_sel(attrs, 0, None) {
                Ok(sel) => match (sel, quant) {
                    (None, FloatQuant::Native) => true,
                    (Some(t), FloatQuant::Interval(q)) => crate::attr::quant_matches(q, t),
                    _ => false,
                },
                Err(_) => false,
            }
        },
        ElemTy::Named(j) => {
            &&& tp_name(p) matches Some(n) && !is_prim_name(n) && !any_relevant(attrs)
                && 0 <= j < m.types@.len()
                && m.types@[j as int].name.spec_str() == n
        },
    }
}

/// An element resolution error corresponds to its cause; a reference to
/// the name under construction is the first back-edge of a containment
/// cycle.
pub open spec fn elem_error_matches(
    m: Model,
    k: ErrorKind,
    p: crate::ast::TypePath,
    attrs: Seq<Attr>,
    current: Seq<char>,
) -> bool {
    let pn = tp_name(p);
    ||| (k == ErrorKind::UnsupportedSyntax(SyntaxIssue::PathType) && pn is None)
    ||| (pn matches Some(n) && (exists|base: PrimIntKind| n == #[trigger] prim_int_name(base)
            && crate::attr::spec_bound_sel(attrs, 0, None, base)
                == Err::<Option<(crate::literal::Dec, crate::literal::Dec)>, ErrorKind>(k)))
    ||| (pn matches Some(n) && (exists|base: PrimFloatKind| n == #[trigger] prim_float_name(base))
            && crate::attr::spec_float_sel(attrs, 0, None)
                == Err::<Option<(crate::literal::Dec, crate::literal::Dec, crate::literal::Dec, crate::quant::FloatIntervalQuantKind)>, ErrorKind>(k))
    ||| (pn matches Some(n) && !is_prim_name(n) && k == ErrorKind::AttributeKindMismatch
            && any_relevant(attrs))
    ||| (pn matches Some(n) && !is_prim_name(n) && !any_relevant(attrs)
            && k == ErrorKind::RecursiveTypeDefinition && n == current)
    ||| (pn matches Some(n) && !is_prim_name(n) && !any_relevant(attrs)
            && k == ErrorKind::UndefinedTypeReference && n != current
            && (forall|j: int| 0 <= j < m.types@.len()
                ==> (#[trigger] m.types@[j].name.spec_str()) != n))
}

/// A resolved field type corresponds to its reference: the element of a
/// path, or the element and length of a fixed-size array.
pub open spec fn resolved_matches(m: Model, rt: ResolvedTy, ty: TypeRef, attrs: Seq<Attr>) -> bool {
    match (rt, ty) {
        (ResolvedTy::Elem(e), TypeRef::Path(p)) => elem_matches(m, e, p, attrs),
        (ResolvedTy::Array { elem, len }, TypeRef::Array { elem: p, len: l }) => elem_matches(
            m, elem, p, attrs,
        ) && len == l,
        _ => false,
    }
}

/// A registry entry corresponds to its declaration: the resolved alias
/// kind, the resolved fields in declaration order, or the declared
/// variant names.
pub open spec fn entry_matches(m: Model, t: Type, it: Item) -> bool {
    match it {
        Item::TypeAlias { ty, attrs, .. } => kind_matches(m, t.kind, t.width, ty, attrs@),
        Item::StructDecl { fields: decls, .. } => t.kind matches TypeKind::Struct { fields }
            && fields@.len() == decls@.len()
            && (forall|j: int| 0 <= j < decls@.len()
                ==> (#[trigger] fields@[j]).name@ == decls@[j].name@
                    && resolved_matches(m, fields@[j].ty, decls@[j].ty, decls@[j].attrs@)),
        Item::EnumDecl { variants, .. } => t.kind matches TypeKind::Enum { variants: vs }
            && vs@.len() == variants@.len()
            && (forall|j: int| 0 <= j < variants@.len()
                ==> (#[trigger] vs@[j])@ == variants@[j]@),
    }
}

/// What an entry's correspondence reads sits below the appended index,
/// so an append leaves it standing.
proof fn lemma_frame_entry_matches(m: Model, m2: Model, t: Type, it: Item)
    requires
        m2.types@.len() == m.types@.len() + 1,
        forall|k: int| 0 <= k < m.types@.len() ==> m2.types@[k] == m.types@[k],
        entry_matches(m, t, it),
    ensures
        entry_matches(m2, t, it),
{
    match it {
        Item::StructDecl { fields: decls, .. } => {
            match t.kind {
                TypeKind::Struct { fields } => {
                    assert forall|j: int| 0 <= j < decls@.len()
                        implies (#[trigger] fields@[j]).name@ == decls@[j].name@
                            && resolved_matches(m2, fields@[j].ty, decls@[j].ty, decls@[j].attrs@) by {
                        assert(fields@[j].name@ == decls@[j].name@
                            && resolved_matches(m, fields@[j].ty, decls@[j].ty, decls@[j].attrs@));
                    }
                },
                _ => {},
            }
        },
        _ => {},
    }
}

/// Resolve an alias declaration's target into a registered kind: a
/// primitive scalar carrying the declaration's attributes, or a
/// reference to an already registered name.
fn type_kind(m: &Model, ty: &TypeRef, attrs: &Vec<Attr>, item: usize) -> (r: Result<
    (TypeKind, u64),
    Error,
>)
    ensures
        r matches Ok(p) ==> alias_kind_wf(*m, p.0, p.1)
            && kind_matches(*m, p.0, p.1, *ty, attrs@),
        r matches Err(e) ==> e.item == item && kind_error_matches(*m, e.kind, *ty, attrs@),
{
    let path = match ty {
        TypeRef::Path(p) => p,
        TypeRef::Array { .. } => {
            return Err(Error {
                kind: ErrorKind::UnsupportedSyntax(SyntaxIssue::PathType),
                item,
            });
        },
    };
    let name = match admissible_path(path) {
        Some(n) => n,
        None => {
            return Err(Error {
                kind: ErrorKind::UnsupportedSyntax(SyntaxIssue::PathType),
                item,
            });
        },
    };
    match PrimIntKind::try_parse(name.as_str()) {
        Ok(base) => {
            let bound = match int_bound_from_attrs(attrs, &base, item) {
                Ok(b) => b,
                Err(e) => {
                    proof {
                        assert(spec_path_name(*ty) == Some(prim_int_name(base)));
                    }
                    return Err(e);
                },
            };
            let width = match &bound {
                IntBound::Native => base.width(),
                IntBound::Interval(b) => b.bits as u64,
            };
            return Ok((TypeKind::PrimInt { base, bound }, width));
        },
        Err(_) => {},
    }
    match PrimFloatKind::try_parse(name.as_str()) {
        Ok(base) => {
            let quant = match float_quant_from_attrs(attrs, item) {
                Ok(q) => q,
                Err(e) => {
                    proof {
                        assert(spec_path_name(*ty) == Some(prim_float_name(base)));
                    }
                    return Err(e);
                },
            };
            let width = match &quant {
                FloatQuant::Native => base.width(),
                FloatQuant::Interval(q) => q.bits as u64,
            };
            return Ok((TypeKind::PrimFloat { base, quant }, width));
        },
        Err(_) => {},
    }
    proof {
        assert(name@ != "u8"@ && name@ != "u16"@ && name@ != "u32"@ && name@ != "u64"@
            && name@ != "i8"@ && name@ != "i16"@ && name@ != "i32"@ && name@ != "i64"@);
        assert(name@ != "f32"@ && name@ != "f64"@);
        assert(!is_prim_name(name@));
    }
    let mut i: usize = 0;
    while i < attrs.len()
        invariant
            i <= attrs@.len(),
            !is_prim_name(name@),
            spec_path_name(*ty) == Some(name@),
            forall|k: int| 0 <= k < i ==> !(#[trigger] crate::attr::attr_relevant(attrs@[k])),
        decreases attrs@.len() - i,
    {
        if crate::ast::outer_attr(&attrs[i]) {
            proof {
                assert(crate::attr::attr_relevant(attrs@[i as int]));
            }
            return Err(Error { kind: ErrorKind::AttributeKindMismatch, item });
        }
        i = i + 1;
    }
    match m.find(name) {
        Some(j) => Ok((TypeKind::Alias { target: j }, m.types[j].width)),
        None => Err(Error { kind: ErrorKind::UndefinedTypeReference, item }),
    }
}

/// An element-wise copy of a name list.
fn clone_strings(v: &Vec<String>) -> (r: Vec<String>)
    ensures
        r@.len() == v@.len(),
        forall|i: int| 0 <= i < v@.len() ==> (#[trigger] r@[i]@) == v@[i]@,
{
    let mut r: Vec<String> = Vec::new();
    let mut i: usize = 0;
    while i < v.len()
        invariant
            i <= v@.len(),
            r@.len() == i,
            forall|k: int| 0 <= k < i ==> (#[trigger] r@[k]@) == v@[k]@,
        decreases v@.len() - i,
    {
        r.push(v[i].clone());
        i = i + 1;
    }
    r
}

/// Whether a name already occurs among the built fields.
fn name_in_fields(fields: &Vec<FieldDef>, name: &String) -> (b: bool)
    ensures
        b == exists|j: int| 0 <= j < fields@.len() && (#[trigger] fields@[j].name@) == name@,
{
    let mut i: usize = 0;
    while i < fields.len()
        invariant
            i <= fields@.len(),
            forall|j: int| 0 <= j < i ==> (#[trigger] fields@[j].name@) != name@,
        decreases fields@.len() - i,
    {
        if fields[i].name.eq(name) {
            return true;
        }
        i = i + 1;
    }
    false
}

/// Whether the names in a vector are pairwise distinct.
fn strings_unique(v: &Vec<String>) -> (b: bool)
    ensures
        b == forall|j: int, k: int| 0 <= j < k < v@.len()
            ==> (#[trigger] v@[j]@) != (#[trigger] v@[k]@),
{
    let mut i: usize = 0;
    while i < v.len()
        invariant
            i <= v@.len(),
            forall|j: int, k: int| 0 <= j < k < i ==> (#[trigger] v@[j]@) != (#[trigger] v@[k]@),
        decreases v@.len() - i,
    {
        let mut j: usize = 0;
        while j < i
            invariant
                j <= i < v@.len(),
                forall|k: int| 0 <= k < j ==> (#[trigger] v@[k]@) != v@[i as int]@,
            decreases i - j,
        {
            if v[j].eq(&v[i]) {
                return false;
            }
            j = j + 1;
        }
        i = i + 1;
    }
    true
}

/// Resolve a struct's field declarations into laid-out field
/// definitions: declaration order, each field at the bit offset equal to
/// the sum of the widths before it, the total the sum of all widths.
fn build_fields(m: &Model, decls: &Vec<FieldDecl>, current: &String, item: usize) -> (r: Result<
    (Vec<FieldDef>, u64),
    Error,
>)
    ensures
        r matches Ok(p) ==> {
            &&& fields_wf(*m, p.0@, m.types@.len() as int)
            &&& p.1 as int == if p.0@.len() == 0 {
                0int
            } else {
                p.0@[p.0@.len() - 1].offset + p.0@[p.0@.len() - 1].width
            }
            &&& p.0@.len() == decls@.len()
            &&& (forall|j: int| 0 <= j < decls@.len()
                ==> (#[trigger] p.0@[j]).name@ == decls@[j].name@
                    && resolved_matches(*m, p.0@[j].ty, decls@[j].ty, decls@[j].attrs@))
        },
        r matches Err(e) ==> e.item == item,
{
    let mut fields: Vec<FieldDef> = Vec::new();
    let mut cur: u64 = 0;
    let mut i: usize = 0;
    while i < decls.len()
        invariant
            i <= decls@.len(),
            fields@.len() == i,
            fields_wf(*m, fields@, m.types@.len() as int),
            forall|j: int| 0 <= j < i ==> (#[trigger] fields@[j]).name@ == decls@[j].name@
                && resolved_matches(*m, fields@[j].ty, decls@[j].ty, decls@[j].attrs@),
            cur as int == if i == 0 {
                0int
            } else {
                fields@[i - 1].offset + fields@[i - 1].width
            },
        decreases decls@.len() - i,
    {
        let d = &decls[i];
        if name_in_fields(&fields, &d.name) {
            return Err(Error {
                kind: ErrorKind::UnsupportedSyntax(SyntaxIssue::DuplicateField),
                item,
            });
        }
        let (rty, w) = resolve_field_ty(m, &d.ty, &d.attrs, current, item)?;
        if w > u64::MAX - cur {
            return Err(Error {
                kind: ErrorKind::UnsupportedSyntax(SyntaxIssue::WidthOverflow),
                item,
            });
        }
        fields.push(FieldDef { name: d.name.clone(), ty: rty, offset: cur, width: w });
        cur = cur + w;
        i = i + 1;
    }
    Ok((fields, cur))
}

/// The declared generic counts of an item.
pub open spec fn item_generic(it: Item) -> bool {
    match it {
        Item::TypeAlias { generics, .. } => generics.n_lifetimes != 0 || generics.n_ty_params != 0
            || generics.n_where_predicates != 0,
        Item::StructDecl { generics, .. } => generics.n_lifetimes != 0 || generics.n_ty_params != 0
            || generics.n_where_predicates != 0,
        Item::EnumDecl { generics, .. } => generics.n_lifetimes != 0 || generics.n_ty_params != 0
            || generics.n_where_predicates != 0,
    }
}

/// A registration error corresponds to its cause: generics on the
/// declaration, a name already registered, or — for aliases and enums —
/// the exact resolution failure. A struct registration error carries
/// only its declaration index here; its cause is pinned one level down,
/// in the contracts of the field resolvers.
pub open spec fn register_error_matches(m: Model, k: ErrorKind, it: Item) -> bool {
    ||| (k == ErrorKind::UnsupportedSyntax(SyntaxIssue::Generics) && item_generic(it))
    ||| (!item_generic(it) && k == ErrorKind::DuplicateTypeName
        && (exists|j: int| 0 <= j < m.types@.len()
            && (#[trigger] m.types@[j].name.spec_str()) == it.spec_name()))
    ||| (!item_generic(it)
        && (forall|j: int| 0 <= j < m.types@.len()
            ==> (#[trigger] m.types@[j].name.spec_str()) != it.spec_name())
        && match it {
            Item::TypeAlias { ty, attrs, .. } => kind_error_matches(m, k, ty, attrs@),
            Item::StructDecl { .. } => true,
            Item::EnumDecl { variants, .. } => (k == ErrorKind::UnsupportedSyntax(
                SyntaxIssue::EmptyEnum,
            ) && variants@.len() == 0) || (k == ErrorKind::UnsupportedSyntax(
                SyntaxIssue::DuplicateVariant,
            ) && exists|j: int, l: int| 0 <= j < l < variants@.len()
                && (#[trigger] variants@[j]@) == (#[trigger] variants@[l]@)),
        })
}

/// Register the declaration at `idx` into the model, resolving it
/// against the entries already registered.
fn register_item(m: &mut Model, it: &Item, idx: usize) -> (r: Result<(), Error>)
    requires
        model_wf(*old(m)),
    ensures
        r is Ok ==> {
            &&& model_wf(*final(m))
            &&& final(m).types@.len() == old(m).types@.len() + 1
            &&& (forall|i: int| 0 <= i < old(m).types@.len()
                ==> final(m).types@[i] == old(m).types@[i])
            &&& final(m).types@[old(m).types@.len() as int].name.spec_str() == it.spec_name()
            &&& entry_matches(*old(m), final(m).types@[old(m).types@.len() as int], *it)
        },
        r is Err ==> *final(m) == *old(m) && (r matches Err(e) ==> e.item == idx
            && register_error_matches(*old(m), e.kind, *it)),
{
    let (name, generics): (&String, &crate::ast::GenericsInfo) = match it {
        Item::TypeAlias { name, generics, .. } => (name, generics),
        Item::StructDecl { name, generics, .. } => (name, generics),
        Item::EnumDecl { name, generics, .. } => (name, generics),
    };
    if any_generic(generics) {
        return Err(Error {
            kind: ErrorKind::UnsupportedSyntax(SyntaxIssue::Generics),
            item: idx,
        });
    }
    if m.find(name).is_some() {
        return Err(Error { kind: ErrorKind::DuplicateTypeName, item: idx });
    }
    let entry: Type = match it {
        Item::TypeAlias { name, ty, attrs, .. } => {
            let (kind, width) = type_kind(m, ty, attrs, idx)?;
            Type { name: TypeId::Named(name.clone()), kind, width }
        },
        Item::StructDecl { name, fields, .. } => {
            let (defs, total) = build_fields(m, fields, name, idx)?;
            Type { name: TypeId::Named(name.clone()), kind: TypeKind::Struct { fields: defs }, width: total }
        },
        Item::EnumDecl { name, variants, .. } => {
            if variants.len() == 0 {
                return Err(Error {
                    kind: ErrorKind::UnsupportedSyntax(SyntaxIssue::EmptyEnum),
                    item: idx,
                });
            }
            if !strings_unique(variants) {
                return Err(Error {
                    kind: ErrorKind::UnsupportedSyntax(SyntaxIssue::DuplicateVariant),
                    item: idx,
                });
            }
            let bits = bits_for(variants.len() as u128);
            Type {
                name: TypeId::Named(name.clone()),
                kind: TypeKind::Enum { variants: clone_strings(variants) },
                width: bits as u64,
            }
        },
    };
    let ghost m0 = *m;
    let ghost ge = entry;
    m.types.push(entry);
    proof {
        let n = m0.types@.len() as int;
        match ge.kind {
            TypeKind::Struct { fields } => {
                lemma_frame_fields_wf(m0, *m, fields@, n);
            },
            _ => {},
        }
        assert(type_wf(*m, n));
        assert forall|i: int| 0 <= i < m0.types@.len()
            implies m.types@[i].name.spec_str() != ge.name.spec_str() by {
            assert(m0.types@[i].name.spec_str() != name@);
        }
        lemma_push_keeps_wf(m0, *m, ge);
    }
    Ok(())
}

/// A field list's well-formedness is unchanged by an append to the
/// registry: every width it depends on sits below the appended index.
proof fn lemma_frame_fields_wf(m: Model, m2: Model, fields: Seq<FieldDef>, bound: int)
    requires
        m2.types@.len() == m.types@.len() + 1,
        forall|k: int| 0 <= k < m.types@.len() ==> m2.types@[k] == m.types@[k],
        bound <= m.types@.len(),
        fields_wf(m, fields, bound),
    ensures
        fields_wf(m2, fields, bound),
{
    assert forall|j: int| 0 <= j < fields.len()
        implies (#[trigger] fields[j].width) as int == resolved_width(m2, fields[j].ty) by {
        assert(fields[j].width as int == resolved_width(m, fields[j].ty));
        lemma_frame_resolved_width(m, m2, fields[j].ty, bound);
    }
}

/// Appending a well-formed entry keeps every earlier entry well formed:
/// nothing an earlier entry reads changes.
#[verifier::rlimit(60)]
#[verifier::spinoff_prover]
proof fn lemma_push_keeps_wf(m: Model, m2: Model, t: Type)
    requires
        m2.types@ == m.types@.push(t),
        model_wf(m),
        type_wf(m2, m.types@.len() as int),
        forall|i: int| 0 <= i < m.types@.len()
            ==> m2.types@[i].name.spec_str() != t.name.spec_str(),
    ensures
        model_wf(m2),
{
    let n = m.types@.len() as int;
    assert forall|i: int| 0 <= i < m2.types@.len() implies #[trigger] type_wf(m2, i) by {
        if i < n {
            assert(type_wf(m, i));
            assert(m2.types@[i] == m.types@[i]);
            lemma_frame_type_wf(m, m2, i);
        }
    }
    assert forall|i: int, j: int| 0 <= i < j < m2.types@.len()
        implies #[trigger] m2.types@[i].name.spec_str()
            != #[trigger] m2.types@[j].name.spec_str() by {
        if j < n {
            assert(m.types@[i].name.spec_str() != m.types@[j].name.spec_str());
        } else {
            assert(m2.types@[i].name.spec_str() != t.name.spec_str());
        }
    }
}

/// Well-formedness of an entry depends only on the entries at or below
/// its own index, which an append leaves in place.
proof fn lemma_frame_type_wf(m: Model, m2: Model, i: int)
    requires
        m2.types@.len() == m.types@.len() + 1,
        forall|k: int| 0 <= k < m.types@.len() ==> m2.types@[k] == m.types@[k],
        0 <= i < m.types@.len(),
        type_wf(m, i),
    ensures
        type_wf(m2, i),
{
    match m.types@[i].kind {
        TypeKind::Struct { fields } => {
            assert forall|j: int| 0 <= j < fields@.len()
                implies (#[trigger] fields@[j].width) as int == resolved_width(m2, fields@[j].ty) by {
                assert(fields@[j].width as int == resolved_width(m, fields@[j].ty));
                lemma_frame_resolved_width(m, m2, fields@[j].ty, i);
            }
            assert(fields_wf(m2, fields@, i));
        },
        _ => {},
    }
}

/// A field type's width is unchanged by an append, since its element
/// references point below the appended index.
proof fn lemma_frame_resolved_width(m: Model, m2: Model, t: ResolvedTy, bound: int)
    requires
        m2.types@.len() == m.types@.len() + 1,
        forall|k: int| 0 <= k < m.types@.len() ==> m2.types@[k] == m.types@[k],
        bound <= m.types@.len(),
        match t {
            ResolvedTy::Elem(e) => elem_wf(m, e, bound),
            ResolvedTy::Array { elem, len } => elem_wf(m, elem, bound),
        },
    ensures
        resolved_width(m2, t) == resolved_width(m, t),
{
}

impl Model {
    /// Build the model from the declaration sequence: each declaration
    /// is resolved against the ones before it and registered in order;
    /// the first failure aborts the whole compilation with no model.
    pub fn from_crate(items: &Vec<Item>) -> (r: Result<Model, Error>)
        ensures
            r matches Ok(m) ==> {
                &&& model_wf(m)
                &&& m.types@.len() == items@.len()
                &&& (forall|i: int| 0 <= i < items@.len()
                    ==> (#[trigger] m.types@[i].name.spec_str()) == items@[i].spec_name())
                &&& (forall|i: int| 0 <= i < items@.len()
                    ==> entry_matches(m, #[trigger] m.types@[i], items@[i]))
            },
            r matches Err(e) ==> e.item < items@.len() && build_fails_at(items@, e),
    {
        let mut m = Model::new();
        let mut idx: usize = 0;
        while idx < items.len()
            invariant
                idx <= items@.len(),
                m.types@.len() == idx,
                model_wf(m),
                forall|i: int| 0 <= i < idx
                    ==> (#[trigger] m.types@[i].name.spec_str()) == items@[i].spec_name(),
                forall|i: int| 0 <= i < idx
                    ==> entry_matches(m, #[trigger] m.types@[i], items@[i]),
            decreases items@.len() - idx,
        {
            let ghost m_before = m;
            match register_item(&mut m, &items[idx], idx) {
                Ok(_) => {
                    proof {
                        assert(m_before.types@.len() == idx);
                        assert(m.types@[idx as int].name.spec_str()
                            == items@[idx as int].spec_name());
                    }
                },
                Err(e) => {
                    proof {
                        assert(m.types@.len() == e.item && model_wf(m)
                            && register_error_matches(m, e.kind, items@[e.item as int]));
                    }
                    return Err(e);
                },
            }
            proof {
                assert forall|i2: int| 0 <= i2 < idx + 1
                    implies (#[trigger] m.types@[i2].name.spec_str())
                        == items@[i2].spec_name() by {
                    if i2 < idx {
                        assert(m.types@[i2] == m_before.types@[i2]);
                        assert(m_before.types@[i2].name.spec_str() == items@[i2].spec_name());
                    }
                }
                assert forall|i: int| 0 <= i < idx + 1 implies entry_matches(
                    m, #[trigger] m.types@[i], items@[i],
                ) by {
                    if i < idx {
                        lemma_frame_entry_matches(m_before, m, m_before.types@[i], items@[i]);
                    } else {
                        lemma_frame_entry_matches(
                            m_before, m, m.types@[idx as int], items@[idx as int],
                        );
                    }
                }
            }
            idx = idx + 1;
        }
        Ok(m)
    }
}

/// The encoded tag of an enum variant: its declaration index, the first
/// variant encoding to zero.
pub fn variant_tag(variants: &Vec<String>, name: &String) -> (r: Option<u64>)
    ensures
        match r {
            Some(t) => t < variants@.len() && variants@[t as int]@ == name@
                && (forall|j: int| 0 <= j < t ==> (#[trigger] variants@[j]@) != name@),
            None => forall|j: int| 0 <= j < variants@.len()
                ==> (#[trigger] variants@[j]@) != name@,
        },
{
    let mut i: usize = 0;
    while i < variants.len()
        invariant
            i <= variants@.len(),
            forall|j: int| 0 <= j < i ==> (#[trigger] variants@[j]@) != name@,
        decreases variants@.len() - i,
    {
        if variants[i].eq(name) {
            return Some(i as u64);
        }
        i = i + 1;
    }
    None
}

/// The variant name a tag decodes to: the one declared at that index.
pub fn variant_of_tag(variants: &Vec<String>, tag: u64) -> (r: Option<&String>)
    ensures
        match r {
            Some(s) => tag < variants@.len() && s@ == variants@[tag as int]@,
            None => tag >= variants@.len(),
        },
{
    if (tag as usize) < variants.len() && tag <= usize::MAX as u64 {
        Some(&variants[tag as usize])
    } else {
        None
    }
}

/// What an alias declaration may register: a well-formed scalar kind
/// with its width, or an alias to an earlier entry with that entry's
/// width.
pub open spec fn alias_kind_wf(m: Model, k: TypeKind, w: u64) -> bool {
    match k {
        TypeKind::PrimFloat { base, quant } => {
            &&& (quant matches FloatQuant::Interval(q) ==> quantf_wf(q))
            &&& w as int == spec_float_width(base, quant)
        },
        TypeKind::PrimInt { base, bound } => {
            &&& (bound matches IntBound::Interval(b) ==> intbound_wf(b))
            &&& w as int == spec_int_width(base, bound)
        },
        TypeKind::Alias { target } => {
            &&& 0 <= target < m.types@.len()
            &&& w == m.types@[target as int].width
        },
        _ => false,
    }
}

} // verus!
