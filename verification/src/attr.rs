//! Attribute interpreter.
//!
//! Recognizes the three quantization attributes — `qlinspace` and `qwrap`
//! on floating-point bases, `ibound` on integer bases — validates their
//! parameters, resolves the literals into exact constants, and builds the
//! validated quantization specs of the engine.

use vstd::prelude::*;
use crate::ast::{Attr, AttrParam, LitValue, outer_attr, list2, str_literal};
use crate::error::{Error, ErrorKind};
use crate::literal::{Dec, parse_literal};
use crate::quant::{
    QuantF, IntBoundSpec, FloatIntervalQuantKind, quantf_wf, intbound_wf, bits_for,
};
use crate::rat::{pow10, pow10_i128, lemma_pow10_pos, lemma_pow10_mono, lemma_pow10_literal, lemma_mul_bound, SCALE_MAX};

verus! {

/// The floating-point base kinds.
#[derive(Clone, Copy, Debug, PartialEq, Eq, Structural)]
pub enum PrimFloatKind {
    F32,
    F64,
}

/// The integer base kinds.
#[derive(Clone, Copy, Debug, PartialEq, Eq, Structural)]
pub enum PrimIntKind {
    U8,
    U16,
    U32,
    U64,
    I8,
    I16,
    I32,
    I64,
}

impl PrimFloatKind {
    /// Recognize a floating-point base type name.
    pub fn try_parse(s: &str) -> (r: Result<PrimFloatKind, ()>)
        ensures
            match r {
                Ok(k) => (k == PrimFloatKind::F32 && s@ == "f32"@)
                    || (k == PrimFloatKind::F64 && s@ == "f64"@),
                Err(_) => s@ != "f32"@ && s@ != "f64"@,
            },
    {
        proof {
            reveal_strlit("f32");
            reveal_strlit("f64");
        }
        let o = s.to_owned();
        if o == "f32".to_owned() {
            Ok(PrimFloatKind::F32)
        } else if o == "f64".to_owned() {
            Ok(PrimFloatKind::F64)
        } else {
            Err(())
        }
    }

    /// The native bit width of the base kind.
    pub fn width(&self) -> (w: u64)
        ensures
            self == PrimFloatKind::F32 ==> w == 32,
            self == PrimFloatKind::F64 ==> w == 64,
    {
        match self {
            PrimFloatKind::F32 => 32,
            PrimFloatKind::F64 => 64,
        }
    }
}

impl PrimIntKind {
    /// Recognize an integer base type name.
    pub fn try_parse(s: &str) -> (r: Result<PrimIntKind, ()>)
        ensures
            match r {
                Ok(k) => (k == PrimIntKind::U8 && s@ == "u8"@)
                    || (k == PrimIntKind::U16 && s@ == "u16"@)
                    || (k == PrimIntKind::U32 && s@ == "u32"@)
                    || (k == PrimIntKind::U64 && s@ == "u64"@)
                    || (k == PrimIntKind::I8 && s@ == "i8"@)
                    || (k == PrimIntKind::I16 && s@ == "i16"@)
                    || (k == PrimIntKind::I32 && s@ == "i32"@)
                    || (k == PrimIntKind::I64 && s@ == "i64"@),
                Err(_) => s@ != "u8"@ && s@ != "u16"@ && s@ != "u32"@ && s@ != "u64"@
                    && s@ != "i8"@ && s@ != "i16"@ && s@ != "i32"@ && s@ != "i64"@,
            },
    {
        proof {
            reveal_strlit("u8");
            reveal_strlit("u16");
            reveal_strlit("u32");
            reveal_strlit("u64");
            reveal_strlit("i8");
            reveal_strlit("i16");
            reveal_strlit("i32");
            reveal_strlit("i64");
        }
        let o = s.to_owned();
        if o == "u8".to_owned() {
            Ok(PrimIntKind::U8)
        } else if o == "u16".to_owned() {
            Ok(PrimIntKind::U16)
        } else if o == "u32".to_owned() {
            Ok(PrimIntKind::U32)
        } else if o == "u64".to_owned() {
            Ok(PrimIntKind::U64)
        } else if o == "i8".to_owned() {
            Ok(PrimIntKind::I8)
        } else if o == "i16".to_owned() {
            Ok(PrimIntKind::I16)
        } else if o == "i32".to_owned() {
            Ok(PrimIntKind::I32)
        } else if o == "i64".to_owned() {
            Ok(PrimIntKind::I64)
        } else {
            Err(())
        }
    }

    /// The smallest value of the base kind.
    pub open spec fn spec_min(&self) -> int {
        match self {
            PrimIntKind::U8 | PrimIntKind::U16 | PrimIntKind::U32 | PrimIntKind::U64 => 0,
            PrimIntKind::I8 => -0x80,
            PrimIntKind::I16 => -0x8000,
            PrimIntKind::I32 => -0x8000_0000,
            PrimIntKind::I64 => -0x8000_0000_0000_0000,
        }
    }

    /// The largest value of the base kind.
    pub open spec fn spec_max(&self) -> int {
        match self {
            PrimIntKind::U8 => 0xFF,
            PrimIntKind::U16 => 0xFFFF,
            PrimIntKind::U32 => 0xFFFF_FFFF,
            PrimIntKind::U64 => 0xFFFF_FFFF_FFFF_FFFF,
            PrimIntKind::I8 => 0x7F,
            PrimIntKind::I16 => 0x7FFF,
            PrimIntKind::I32 => 0x7FFF_FFFF,
            PrimIntKind::I64 => 0x7FFF_FFFF_FFFF_FFFF,
        }
    }

    /// The smallest value, executable.
    pub fn min_value(&self) -> (v: i128)
        ensures
            v == self.spec_min(),
    {
        match self {
            PrimIntKind::U8 | PrimIntKind::U16 | PrimIntKind::U32 | PrimIntKind::U64 => 0,
            PrimIntKind::I8 => -0x80,
            PrimIntKind::I16 => -0x8000,
            PrimIntKind::I32 => -0x8000_0000,
            PrimIntKind::I64 => -0x8000_0000_0000_0000,
        }
    }

    /// The largest value, executable.
    pub fn max_value(&self) -> (v: i128)
        ensures
            v == self.spec_max(),
    {
        match self {
            PrimIntKind::U8 => 0xFF,
            PrimIntKind::U16 => 0xFFFF,
            PrimIntKind::U32 => 0xFFFF_FFFF,
            PrimIntKind::U64 => 0xFFFF_FFFF_FFFF_FFFF,
            PrimIntKind::I8 => 0x7F,
            PrimIntKind::I16 => 0x7FFF,
            PrimIntKind::I32 => 0x7FFF_FFFF,
            PrimIntKind::I64 => 0x7FFF_FFFF_FFFF_FFFF,
        }
    }

    /// The native bit width of the base kind.
    pub fn width(&self) -> (w: u64)
        ensures
            w == match self {
                PrimIntKind::U8 | PrimIntKind::I8 => 8int,
                PrimIntKind::U16 | PrimIntKind::I16 => 16int,
                PrimIntKind::U32 | PrimIntKind::I32 => 32int,
                PrimIntKind::U64 | PrimIntKind::I64 => 64int,
            },
    {
        match self {
            PrimIntKind::U8 | PrimIntKind::I8 => 8,
            PrimIntKind::U16 | PrimIntKind::I16 => 16,
            PrimIntKind::U32 | PrimIntKind::I32 => 32,
            PrimIntKind::U64 | PrimIntKind::I64 => 64,
        }
    }
}

/// The quantization of a floating-point scalar: none, or a validated
/// interval quantization.
#[derive(Clone, Copy, Debug, PartialEq, Eq, Structural)]
pub enum FloatQuant {
    Native,
    Interval(QuantF),
}

/// The bound of an integer scalar: none, or a validated inclusive range.
#[derive(Clone, Copy, Debug, PartialEq, Eq, Structural)]
pub enum IntBound {
    Native,
    Interval(IntBoundSpec),
}

/// The common decimal scale exponent of three constants: large enough to
/// clear every fractional digit.
pub open spec fn spec_common_scale(a: Dec, b: Dec, c: Dec) -> int {
    let m1: int = if a.exp < 0 { -(a.exp as int) } else { 0 };
    let m2: int = if b.exp < 0 { -(b.exp as int) } else { 0 };
    let m3: int = if c.exp < 0 { -(c.exp as int) } else { 0 };
    let m12: int = if m1 >= m2 { m1 } else { m2 };
    if m12 >= m3 { m12 } else { m3 }
}

/// The constant `d` scaled by `10^k`: an integer once `k` clears the
/// fractional digits.
pub open spec fn spec_scaled(d: Dec, k: int) -> int {
    d.mant * pow10((d.exp + k) as nat)
}

/// Scale a constant by `10^k`, exactly; `None` when the scaled value
/// leaves the admissible range.
fn scale_dec(d: &Dec, k: u32) -> (r: Option<i128>)
    requires
        -18 <= d.exp <= crate::literal::EXP_MAX,
        -SCALE_MAX <= d.mant <= SCALE_MAX,
        k <= 18,
        d.exp + k >= 0,
    ensures
        match r {
            Some(v) => v == spec_scaled(*d, k as int) && -SCALE_MAX <= v <= SCALE_MAX,
            None => spec_scaled(*d, k as int) > SCALE_MAX
                || spec_scaled(*d, k as int) < -SCALE_MAX,
        },
{
    let sh: i32 = d.exp + (k as i32);
    proof {
        lemma_pow10_literal();
        lemma_pow10_pos(sh as nat);
    }
    if d.mant == 0 {
        proof {
            assert(spec_scaled(*d, k as int) == 0) by (nonlinear_arith)
                requires d.mant == 0, spec_scaled(*d, k as int) == d.mant * pow10((d.exp + k) as nat),
            ;
        }
        return Some(0);
    }
    if sh > 18 {
        // at least ten to the nineteenth in magnitude
        proof {
            lemma_pow10_mono(19, sh as nat);
            let p = pow10(sh as nat);
            assert(d.mant * p > SCALE_MAX || d.mant * p < -SCALE_MAX) by (nonlinear_arith)
                requires
                    (d.mant >= 1 || d.mant <= -1),
                    p >= 10_000_000_000_000_000_000,
            ;
        }
        return None;
    }
    let p: i128 = pow10_i128(sh as u32);
    proof {
        lemma_pow10_mono(sh as nat, 18);
        lemma_mul_bound(d.mant as int, SCALE_MAX as int, p as int, SCALE_MAX as int);
    }
    let v: i128 = d.mant * p;
    if -1_000_000_000_000_000_000 <= v && v <= 1_000_000_000_000_000_000 {
        Some(v)
    } else {
        None
    }
}

/// An interval quantization is admissible exactly when the common scale
/// and the scaled bounds stay in the exact range, the interval is
/// non-empty, the step positive, and at least one level exists.
pub open spec fn interval_ok(low: Dec, high: Dec, step: Dec, kind: FloatIntervalQuantKind) -> bool {
    let k = spec_common_scale(low, high, step);
    let ls = spec_scaled(low, k);
    let hs = spec_scaled(high, k);
    let ss = spec_scaled(step, k);
    &&& k <= 18
    &&& -SCALE_MAX <= ls <= SCALE_MAX
    &&& -SCALE_MAX <= hs <= SCALE_MAX
    &&& -SCALE_MAX <= ss <= SCALE_MAX
    &&& ls < hs
    &&& ss >= 1
    &&& (kind == FloatIntervalQuantKind::Wrap ==> (hs - ls) / ss >= 1)
}

/// Build a validated interval quantization from three exact constants.
/// On success the spec's scaled parameters denote exactly the constants'
/// values over the common power-of-ten scale.
pub fn build_interval(low: &Dec, high: &Dec, step: &Dec, kind: FloatIntervalQuantKind) -> (r:
    Result<QuantF, ()>)
    requires
        -crate::literal::EXP_MAX <= low.exp <= crate::literal::EXP_MAX
            && -SCALE_MAX <= low.mant <= SCALE_MAX,
        -crate::literal::EXP_MAX <= high.exp <= crate::literal::EXP_MAX
            && -SCALE_MAX <= high.mant <= SCALE_MAX,
        -crate::literal::EXP_MAX <= step.exp <= crate::literal::EXP_MAX
            && -SCALE_MAX <= step.mant <= SCALE_MAX,
    ensures
        r is Ok <==> interval_ok(*low, *high, *step, kind),
        r matches Ok(q) ==> {
            let k = spec_common_scale(*low, *high, *step);
            &&& quantf_wf(q)
            &&& q.kind == kind
            &&& q.scale == pow10(k as nat)
            &&& q.low == spec_scaled(*low, k)
            &&& q.high == spec_scaled(*high, k)
            &&& q.step == spec_scaled(*step, k)
        },
{
    let m1: i32 = if low.exp < 0 { -low.exp } else { 0 };
    let m2: i32 = if high.exp < 0 { -high.exp } else { 0 };
    let m3: i32 = if step.exp < 0 { -step.exp } else { 0 };
    let m12: i32 = if m1 >= m2 { m1 } else { m2 };
    let k: i32 = if m12 >= m3 { m12 } else { m3 };
    if k > 18 {
        // the common denominator would overflow the exact scale range
        return Err(());
    }
    let scale: i128 = pow10_i128(k as u32);
    proof {
        lemma_pow10_literal();
        lemma_pow10_mono(k as nat, 18);
    }
    let ls = match scale_dec(low, k as u32) {
        Some(v) => v,
        None => { return Err(()); },
    };
    let hs = match scale_dec(high, k as u32) {
        Some(v) => v,
        None => { return Err(()); },
    };
    let ss = match scale_dec(step, k as u32) {
        Some(v) => v,
        None => { return Err(()); },
    };
    if !(ls < hs) {
        return Err(());
    }
    if !(ss >= 1) {
        return Err(());
    }
    let diff: u128 = (hs - ls) as u128;
    let levels: u128 = diff / (ss as u128);
    let n: i128 = match kind {
        FloatIntervalQuantKind::Linspace => (levels as i128) + 1,
        FloatIntervalQuantKind::Wrap => levels as i128,
    };
    if n < 1 {
        return Err(());
    }
    proof {
        vstd::arithmetic::div_mod::lemma_div_nonincreasing((hs - ls) as int, ss as int);
        vstd::arithmetic::div_mod::lemma_div_pos_is_pos((hs - ls) as int, ss as int);
    }
    let bits: u32 = bits_for(n as u128);
    Ok(QuantF { low: ls, high: hs, step: ss, scale, kind, n, bits })
}

/// The exact integer denoted by a constant, when it denotes one.
pub open spec fn spec_dec_int(d: Dec) -> Option<int> {
    if d.exp >= 0 {
        Some(d.mant * pow10(d.exp as nat))
    } else {
        if (d.mant as int) % pow10((-d.exp) as nat) == 0 {
            Some((d.mant as int) / pow10((-d.exp) as nat))
        } else {
            None
        }
    }
}

/// Resolve a constant to the exact integer it denotes; `None` when it has
/// a fractional part.
pub fn dec_to_int(d: &Dec) -> (r: Option<i128>)
    requires
        -crate::literal::EXP_MAX <= d.exp <= crate::literal::EXP_MAX,
        -SCALE_MAX <= d.mant <= SCALE_MAX,
    ensures
        match r {
            Some(v) => spec_dec_int(*d) == Some(v as int),
            None => match spec_dec_int(*d) {
                Some(w) => w >= 100_000_000_000_000_000_000
                    || w <= -100_000_000_000_000_000_000,
                None => true,
            },
        },
{
    proof {
        lemma_pow10_literal();
    }
    if d.exp >= 0 {
        if d.mant == 0 {
            proof {
                assert(0int * pow10(d.exp as nat) == 0) by (nonlinear_arith);
            }
            return Some(0);
        }
        if d.exp > 19 {
            // at least ten to the twentieth in magnitude: outside every
            // integer base kind
            proof {
                lemma_pow10_mono(20, d.exp as nat);
                let p = pow10(d.exp as nat);
                assert(d.mant * p >= p || d.mant * p <= -p) by (nonlinear_arith)
                    requires d.mant >= 1 || d.mant <= -1,
                ;
            }
            return None;
        }
        proof {
            lemma_pow10_mono(d.exp as nat, 19);
        }
        let p = pow10_i128(d.exp as u32);
        proof {
            lemma_mul_bound(
                d.mant as int, SCALE_MAX as int, p as int,
                10_000_000_000_000_000_000,
            );
        }
        Some(d.mant * p)
    } else if -d.exp > 36 {
        // the denominator exceeds any admissible mantissa, so only zero
        // is an integer here
        if d.mant == 0 {
            proof {
                lemma_pow10_pos((-d.exp) as nat);
                vstd::arithmetic::div_mod::lemma_small_mod(0, pow10((-d.exp) as nat) as nat);
                vstd::arithmetic::div_mod::lemma_div_of0(pow10((-d.exp) as nat) as int);
            }
            Some(0)
        } else {
            proof {
                lemma_pow10_mono(37, (-d.exp) as nat);
                lemma_pow10_pos((-d.exp) as nat);
                let p = pow10((-d.exp) as nat) as int;
                if d.mant > 0 {
                    vstd::arithmetic::div_mod::lemma_small_mod(d.mant as nat, p as nat);
                } else {
                    vstd::arithmetic::div_mod::lemma_fundamental_div_mod_converse_mod(
                        d.mant as int, p, -1, d.mant + p,
                    );
                }
            }
            None
        }
    } else {
        proof {
            lemma_pow10_mono((-d.exp) as nat, 36);
        }
        let p = pow10_i128((-d.exp) as u32);
        let (q, rem) = crate::rat::div_mod_floor(d.mant, p);
        if rem == 0 {
            Some(q)
        } else {
            None
        }
    }
}

/// Whether a name equals a given literal.
fn name_is(s: &String, lit: &str) -> (b: bool)
    ensures
        b == (s@ == lit@),
{
    let o: String = lit.to_owned();
    *s == o
}

/// An attribute takes part in interpretation: outer and not a doc
/// comment.
pub open spec fn attr_relevant(a: Attr) -> bool {
    a.outer && !a.is_doc
}

/// The parameter is keyed by the given name.
pub open spec fn param_key_is(p: AttrParam, name: Seq<char>) -> bool {
    match p.key {
        Some(k) => k@ == name,
        None => false,
    }
}

/// The exact constant a parameter resolves to: the bytes of its string
/// literal, parsed, inside the resolver's exact range.
pub open spec fn spec_param_constant(p: AttrParam) -> Option<Dec> {
    match p.value {
        LitValue::Str(bs) => match crate::literal::spec_parse_literal(bs@) {
            Some(pair) => if crate::literal::dec_in_range(pair.0, pair.1) {
                Some(Dec { mant: pair.0 as i128, exp: pair.1 as i32 })
            } else {
                None
            },
            None => None,
        },
        LitValue::Other => None,
    }
}

/// The first parameter at or after `i` keyed by `name`.
pub open spec fn spec_find_key(params: Seq<AttrParam>, name: Seq<char>, i: int) -> Option<AttrParam>
    decreases params.len() - i,
{
    if i < 0 || i >= params.len() {
        None
    } else if param_key_is(params[i], name) {
        Some(params[i])
    } else {
        spec_find_key(params, name, i + 1)
    }
}

/// Three parameters resolved to constants; any failure is an invalid
/// numeric literal.
pub open spec fn spec_constants3(a: AttrParam, b: AttrParam, c: AttrParam) -> Result<
    (Dec, Dec, Dec),
    ErrorKind,
> {
    match (spec_param_constant(a), spec_param_constant(b), spec_param_constant(c)) {
        (Some(x), Some(y), Some(z)) => Ok((x, y, z)),
        _ => Err(ErrorKind::InvalidNumericLiteral),
    }
}

/// The `low`, `high`, `step` constants of an interval attribute: three
/// parameters, all positional in that order or all keyed by those names;
/// anything else is an arity error.
pub open spec fn spec_three_res(params: Seq<AttrParam>) -> Result<(Dec, Dec, Dec), ErrorKind> {
    if params.len() != 3 {
        Err(ErrorKind::InvalidAttributeArity)
    } else if params[0].key is None && params[1].key is None && params[2].key is None {
        spec_constants3(params[0], params[1], params[2])
    } else if params[0].key is Some && params[1].key is Some && params[2].key is Some {
        match (
            spec_find_key(params, "low"@, 0),
            spec_find_key(params, "high"@, 0),
            spec_find_key(params, "step"@, 0),
        ) {
            (Some(l), Some(h), Some(st)) => spec_constants3(l, h, st),
            _ => Err(ErrorKind::InvalidAttributeArity),
        }
    } else {
        Err(ErrorKind::InvalidAttributeArity)
    }
}

/// The two bound constants of an `ibound` attribute: exactly two
/// positional parameters.
pub open spec fn spec_two_res(params: Seq<AttrParam>) -> Result<(Dec, Dec), ErrorKind> {
    if params.len() != 2 {
        Err(ErrorKind::InvalidAttributeArity)
    } else if params[0].key is Some || params[1].key is Some {
        Err(ErrorKind::InvalidAttributeArity)
    } else {
        match (spec_param_constant(params[0]), spec_param_constant(params[1])) {
            (Some(l), Some(h)) => Ok((l, h)),
            _ => Err(ErrorKind::InvalidNumericLiteral),
        }
    }
}

/// Two constants give an admissible bound for a base kind: both denote
/// integers, in order, inside the kind's range.
pub open spec fn bound_ok(low: Dec, high: Dec, base: PrimIntKind) -> bool {
    match (spec_dec_int(low), spec_dec_int(high)) {
        (Some(lv), Some(hv)) => base.spec_min() <= lv <= hv <= base.spec_max(),
        _ => false,
    }
}

/// The scan over a declaration's attributes for a floating-point base:
/// the selected interval constants and kind, or the first error, with
/// the constants of an already selected attribute carried along.
pub open spec fn spec_float_sel(
    attrs: Seq<Attr>,
    i: int,
    found: Option<(Dec, Dec, Dec, FloatIntervalQuantKind)>,
) -> Result<Option<(Dec, Dec, Dec, FloatIntervalQuantKind)>, ErrorKind>
    decreases attrs.len() - i,
{
    if i < 0 || i >= attrs.len() {
        Ok(found)
    } else {
        let a = attrs[i];
        if !attr_relevant(a) {
            spec_float_sel(attrs, i + 1, found)
        } else if a.name@ == "qlinspace"@ || a.name@ == "qwrap"@ {
            if found is Some {
                Err(ErrorKind::DuplicateAttribute)
            } else {
                match spec_three_res(a.params@) {
                    Err(k) => Err(k),
                    Ok(t) => {
                        let kind = if a.name@ == "qlinspace"@ {
                            FloatIntervalQuantKind::Linspace
                        } else {
                            FloatIntervalQuantKind::Wrap
                        };
                        if interval_ok(t.0, t.1, t.2, kind) {
                            spec_float_sel(attrs, i + 1, Some((t.0, t.1, t.2, kind)))
                        } else {
                            Err(ErrorKind::InvalidNumericLiteral)
                        }
                    },
                }
            }
        } else if a.name@ == "ibound"@ {
            Err(ErrorKind::AttributeKindMismatch)
        } else {
            Err(ErrorKind::UnknownAttribute)
        }
    }
}

/// The scan over a declaration's attributes for an integer base.
pub open spec fn spec_bound_sel(
    attrs: Seq<Attr>,
    i: int,
    found: Option<(Dec, Dec)>,
    base: PrimIntKind,
) -> Result<Option<(Dec, Dec)>, ErrorKind>
    decreases attrs.len() - i,
{
    if i < 0 || i >= attrs.len() {
        Ok(found)
    } else {
        let a = attrs[i];
        if !attr_relevant(a) {
            spec_bound_sel(attrs, i + 1, found, base)
        } else if a.name@ == "ibound"@ {
            if found is Some {
                Err(ErrorKind::DuplicateAttribute)
            } else {
                match spec_two_res(a.params@) {
                    Err(k) => Err(k),
                    Ok(t) => if bound_ok(t.0, t.1, base) {
                        spec_bound_sel(attrs, i + 1, Some(t), base)
                    } else {
                        Err(ErrorKind::InvalidNumericLiteral)
                    },
                }
            }
        } else if a.name@ == "qlinspace"@ || a.name@ == "qwrap"@ {
            Err(ErrorKind::AttributeKindMismatch)
        } else {
            Err(ErrorKind::UnknownAttribute)
        }
    }
}

/// The validated spec carries exactly the selected constants over their
/// common scale.
pub open spec fn quant_matches(q: QuantF, t: (Dec, Dec, Dec, FloatIntervalQuantKind)) -> bool {
    let k = spec_common_scale(t.0, t.1, t.2);
    &&& quantf_wf(q)
    &&& q.kind == t.3
    &&& q.scale == pow10(k as nat)
    &&& q.low == spec_scaled(t.0, k)
    &&& q.high == spec_scaled(t.1, k)
    &&& q.step == spec_scaled(t.2, k)
}

/// The validated bound carries exactly the selected integer constants.
pub open spec fn bound_matches(b: IntBoundSpec, t: (Dec, Dec), base: PrimIntKind) -> bool {
    &&& intbound_wf(b)
    &&& spec_dec_int(t.0) == Some(b.low as int)
    &&& spec_dec_int(t.1) == Some(b.high as int)
    &&& base.spec_min() <= b.low <= b.high <= base.spec_max()
}

/// The byte content of one parameter that must be a string literal,
/// parsed to an exact constant.
fn param_constant(p: &AttrParam, item: usize) -> (r: Result<Dec, Error>)
    ensures
        match r {
            Ok(d) => spec_param_constant(*p) == Some(d),
            Err(e) => spec_param_constant(*p) is None
                && e.kind == ErrorKind::InvalidNumericLiteral && e.item == item,
        },
{
    match str_literal(p) {
        Ok(bs) => match parse_literal(bs.as_slice()) {
            Some(d) => Ok(d),
            None => Err(Error { kind: ErrorKind::InvalidNumericLiteral, item }),
        },
        Err(_) => Err(Error { kind: ErrorKind::InvalidNumericLiteral, item }),
    }
}

/// Resolve the three parameters of an interval attribute, positional or
/// keyed as `low`, `high`, `step`, into three exact constants.
fn three_params(params: &Vec<AttrParam>, item: usize) -> (r: Result<(Dec, Dec, Dec), Error>)
    ensures
        match spec_three_res(params@) {
            Ok(t) => r == Ok::<_, Error>(t),
            Err(k) => r matches Err(e) && e.kind == k && e.item == item,
        },
{
    if params.len() != 3 {
        return Err(Error { kind: ErrorKind::InvalidAttributeArity, item });
    }
    let all_pos = params[0].key.is_none() && params[1].key.is_none() && params[2].key.is_none();
    let all_key = params[0].key.is_some() && params[1].key.is_some() && params[2].key.is_some();
    if all_pos {
        let a = param_constant(&params[0], item)?;
        let b = param_constant(&params[1], item)?;
        let c = param_constant(&params[2], item)?;
        Ok((a, b, c))
    } else if all_key {
        let low = match find_key(params, "low") {
            Some(p) => p,
            None => { return Err(Error { kind: ErrorKind::InvalidAttributeArity, item }); },
        };
        let high = match find_key(params, "high") {
            Some(p) => p,
            None => { return Err(Error { kind: ErrorKind::InvalidAttributeArity, item }); },
        };
        let step = match find_key(params, "step") {
            Some(p) => p,
            None => { return Err(Error { kind: ErrorKind::InvalidAttributeArity, item }); },
        };
        let a = param_constant(low, item)?;
        let b = param_constant(high, item)?;
        let c = param_constant(step, item)?;
        Ok((a, b, c))
    } else {
        Err(Error { kind: ErrorKind::InvalidAttributeArity, item })
    }
}

/// The first parameter keyed by the given name.
fn find_key<'a>(params: &'a Vec<AttrParam>, name: &str) -> (r: Option<&'a AttrParam>)
    ensures
        match r {
            Some(p) => spec_find_key(params@, name@, 0) == Some(*p),
            None => spec_find_key(params@, name@, 0) is None,
        },
{
    let mut i: usize = 0;
    while i < params.len()
        invariant
            i <= params@.len(),
            spec_find_key(params@, name@, 0) == spec_find_key(params@, name@, i as int),
        decreases params@.len() - i,
    {
        match &params[i].key {
            Some(k) => {
                if name_is(k, name) {
                    return Some(&params[i]);
                }
            },
            None => {},
        }
        i = i + 1;
    }
    None
}

/// Interpret the attributes of a floating-point scalar declaration:
/// the scan of `spec_float_sel` decides — at most one outer interval
/// quantization whose constants build the returned spec, `ibound`
/// refused as a kind mismatch, unknown names refused.
pub fn float_quant_from_attrs(attrs: &Vec<Attr>, item: usize) -> (r: Result<FloatQuant, Error>)
    ensures
        ({
            let sel = spec_float_sel(attrs@, 0, None);
            match r {
                Ok(fq) => match fq {
                    FloatQuant::Native => sel == Ok::<
                        Option<(Dec, Dec, Dec, FloatIntervalQuantKind)>,
                        ErrorKind,
                    >(None),
                    FloatQuant::Interval(q) => sel matches Ok(Some(t)) && quant_matches(q, t),
                },
                Err(e) => sel matches Err(k) && e.item == item && e.kind == k,
            }
        }),
{
    let mut found: Option<QuantF> = None;
    let ghost mut gsel: Option<(Dec, Dec, Dec, FloatIntervalQuantKind)> = None;
    let mut i: usize = 0;
    while i < attrs.len()
        invariant
            i <= attrs@.len(),
            spec_float_sel(attrs@, 0, None) == spec_float_sel(attrs@, i as int, gsel),
            found is None <==> gsel is None,
            match (found, gsel) {
                (Some(q), Some(t)) => quant_matches(q, t),
                _ => true,
            },
        decreases attrs@.len() - i,
    {
        let a = &attrs[i];
        if outer_attr(a) {
            let is_lin = name_is(&a.name, "qlinspace");
            let is_wrap = name_is(&a.name, "qwrap");
            if is_lin || is_wrap {
                if found.is_some() {
                    return Err(Error { kind: ErrorKind::DuplicateAttribute, item });
                }
                let (low, high, step) = three_params(&a.params, item)?;
                let kind = if is_lin {
                    FloatIntervalQuantKind::Linspace
                } else {
                    FloatIntervalQuantKind::Wrap
                };
                match build_interval(&low, &high, &step, kind) {
                    Ok(q) => {
                        found = Some(q);
                        proof {
                            gsel = Some((low, high, step, kind));
                        }
                    },
                    Err(_) => {
                        return Err(Error { kind: ErrorKind::InvalidNumericLiteral, item });
                    },
                }
            } else if name_is(&a.name, "ibound") {
                return Err(Error { kind: ErrorKind::AttributeKindMismatch, item });
            } else {
                return Err(Error { kind: ErrorKind::UnknownAttribute, item });
            }
        }
        i = i + 1;
    }
    match found {
        Some(q) => Ok(FloatQuant::Interval(q)),
        None => Ok(FloatQuant::Native),
    }
}

/// Interpret the attributes of an integer scalar declaration: the scan
/// of `spec_bound_sel` decides — at most one outer `ibound` with two
/// positional parameters building the returned bound, interval
/// quantizations refused as a kind mismatch, unknown names refused.
pub fn int_bound_from_attrs(attrs: &Vec<Attr>, base: &PrimIntKind, item: usize) -> (r: Result<
    IntBound,
    Error,
>)
    ensures
        ({
            let sel = spec_bound_sel(attrs@, 0, None, *base);
            match r {
                Ok(ib) => match ib {
                    IntBound::Native => sel == Ok::<Option<(Dec, Dec)>, ErrorKind>(None),
                    IntBound::Interval(b) => sel matches Ok(Some(t)) && bound_matches(b, t, *base),
                },
                Err(e) => sel matches Err(k) && e.item == item && e.kind == k,
            }
        }),
{
    let mut found: Option<IntBoundSpec> = None;
    let ghost mut gsel: Option<(Dec, Dec)> = None;
    let mut i: usize = 0;
    while i < attrs.len()
        invariant
            i <= attrs@.len(),
            spec_bound_sel(attrs@, 0, None, *base) == spec_bound_sel(attrs@, i as int, gsel, *base),
            found is None <==> gsel is None,
            match (found, gsel) {
                (Some(b), Some(t)) => bound_matches(b, t, *base),
                _ => true,
            },
        decreases attrs@.len() - i,
    {
        let a = &attrs[i];
        if outer_attr(a) {
            if name_is(&a.name, "ibound") {
                if found.is_some() {
                    return Err(Error { kind: ErrorKind::DuplicateAttribute, item });
                }
                if a.params.len() != 2 {
                    return Err(Error { kind: ErrorKind::InvalidAttributeArity, item });
                }
                if a.params[0].key.is_some() || a.params[1].key.is_some() {
                    return Err(Error { kind: ErrorKind::InvalidAttributeArity, item });
                }
                let low = param_constant(&a.params[0], item)?;
                let high = param_constant(&a.params[1], item)?;
                match build_bound(&low, &high, base) {
                    Ok(b) => {
                        found = Some(b);
                        proof {
                            gsel = Some((low, high));
                        }
                    },
                    Err(_) => {
                        return Err(Error { kind: ErrorKind::InvalidNumericLiteral, item });
                    },
                }
            } else if name_is(&a.name, "qlinspace") || name_is(&a.name, "qwrap") {
                return Err(Error { kind: ErrorKind::AttributeKindMismatch, item });
            } else {
                return Err(Error { kind: ErrorKind::UnknownAttribute, item });
            }
        }
        i = i + 1;
    }
    match found {
        Some(b) => Ok(IntBound::Interval(b)),
        None => Ok(IntBound::Native),
    }
}

/// Build a validated integer bound from two exact constants for a base
/// kind: success exactly when both denote integers inside the kind's
/// range, in order.
pub fn build_bound(low: &Dec, high: &Dec, base: &PrimIntKind) -> (r: Result<IntBoundSpec, ()>)
    requires
        -crate::literal::EXP_MAX <= low.exp <= crate::literal::EXP_MAX
            && -SCALE_MAX <= low.mant <= SCALE_MAX,
        -crate::literal::EXP_MAX <= high.exp <= crate::literal::EXP_MAX
            && -SCALE_MAX <= high.mant <= SCALE_MAX,
    ensures
        r is Ok <==> bound_ok(*low, *high, *base),
        r matches Ok(b) ==> bound_matches(b, (*low, *high), *base),
{
    let l = match dec_to_int(low) {
        Some(v) => v,
        None => { return Err(()); },
    };
    let h = match dec_to_int(high) {
        Some(v) => v,
        None => { return Err(()); },
    };
    if base.min_value() <= l && l <= h && h <= base.max_value() {
        Ok(IntBoundSpec::new(l, h))
    } else {
        Err(())
    }
}

} // verus!
