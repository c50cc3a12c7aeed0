//! Packed bitstream codec.
//!
//! Every encoded scalar is a level index written most-significant-bit
//! first, and fields follow one another with no padding: the stream is
//! one continuous bit sequence. Writing and reading an index are exact
//! inverses, and a whole struct value round-trips field by field.

use vstd::prelude::*;
use vstd::arithmetic::power2::pow2;
use crate::rat::{Rat, rat_wf};
use crate::quant::{QuantF, quantf_wf, intbound_wf, FloatIntervalQuantKind};
use crate::quant::{encode_interval, decode_interval, grid_value, lin_index, wrap_index};
use crate::attr::{FloatQuant, IntBound, PrimIntKind};
use crate::model::{FieldDef, ResolvedTy, ElemTy, spec_float_width, spec_int_width};
use crate::error::{Error, ErrorKind};

verus! {

/// Bit `j` (most significant first) of a `w`-bit value.
pub open spec fn bit_at(v: int, w: int, j: int) -> bool {
    (v / pow2((w - 1 - j) as nat) as int) % 2 == 1
}

/// The `w` bits of a value, most significant first.
pub open spec fn bits_of(v: int, w: int) -> Seq<bool> {
    Seq::new(w as nat, |j: int| bit_at(v, w, j))
}

/// The value of the `w` bits at `pos`, most significant first.
pub open spec fn value_of(s: Seq<bool>, pos: int, w: int) -> int
    decreases w,
{
    if w <= 0 {
        0
    } else {
        2 * value_of(s, pos, w - 1) + (if s[pos + w - 1] { 1int } else { 0int })
    }
}

/// Reading the bits of `v` yields `v` again: the codec's bit layer is
/// injective on every `w`-bit value.
pub proof fn lemma_value_of_bits(s: Seq<bool>, pos: int, v: int, w: int)
    requires
        0 <= v < pow2(w as nat),
        0 <= w,
        forall|j: int| 0 <= j < w ==> s[pos + j] == bits_of(v, w)[j],
    ensures
        value_of(s, pos, w) == v,
    decreases w,
{
    if w == 0 {
        assert(pow2(0) == 1) by {
            vstd::arithmetic::power2::lemma2_to64();
        };
    } else {
        let h = v / 2;
        vstd::arithmetic::power2::lemma_pow2_unfold(w as nat);
        vstd::arithmetic::div_mod::lemma_fundamental_div_mod(v, 2);
        vstd::arithmetic::div_mod::lemma_mod_division_less_than_divisor(v, 2);
        vstd::arithmetic::div_mod::lemma_div_pos_is_pos(v, 2);
        assert(h < pow2((w - 1) as nat)) by {
            vstd::arithmetic::div_mod::lemma_div_is_ordered(v, pow2(w as nat) as int - 1, 2);
            assert((2 * pow2((w - 1) as nat) - 1) / 2 == pow2((w - 1) as nat) as int - 1) by {
                vstd::arithmetic::div_mod::lemma_fundamental_div_mod_converse_div(
                    2 * pow2((w - 1) as nat) - 1,
                    2,
                    pow2((w - 1) as nat) as int - 1,
                    1,
                );
            };
        };
        assert forall|j: int| 0 <= j < w - 1 implies s[pos + j] == #[trigger] bits_of(h, w - 1)[j] by {
            assert(s[pos + j] == bits_of(v, w)[j]);
            let e = (w - 2 - j) as nat;
            vstd::arithmetic::power2::lemma_pow2_pos(e);
            vstd::arithmetic::power2::lemma_pow2_unfold((e + 1) as nat);
            vstd::arithmetic::div_mod::lemma_div_denominator(v, 2, pow2(e) as int);
            assert(bit_at(v, w, j) == bit_at(h, w - 1, j));
        }
        lemma_value_of_bits(s, pos, h, w - 1);
        assert(s[pos + w - 1] == bits_of(v, w)[w - 1]);
        assert(bit_at(v, w, w - 1) == (v % 2 == 1)) by {
            assert(pow2(0) == 1) by {
                vstd::arithmetic::power2::lemma2_to64();
            };
            vstd::arithmetic::div_mod::lemma_div_basics(v);
        };
    }
}

/// Append the `w` bits of `v`, most significant first.
pub fn write_bits(out: &mut Vec<bool>, v: u64, w: u32)
    requires
        w <= 64,
        (v as int) < pow2(w as nat),
    ensures
        final(out)@ == old(out)@ + bits_of(v as int, w as int),
{
    let ghost base = out@;
    let mut j: u32 = 0;
    while j < w
        invariant
            j <= w <= 64,
            (v as int) < pow2(w as nat),
            out@.len() == base.len() + j,
            forall|k: int| 0 <= k < base.len() ==> out@[k] == base[k],
            forall|k: int| 0 <= k < j ==> out@[base.len() + k] == bit_at(v as int, w as int, k),
        decreases w - j,
    {
        let sh: u64 = (w - 1 - j) as u64;
        proof {
            vstd::bits::lemma_u64_shr_is_div(v, sh);
        }
        let bit: bool = ((v >> sh) % 2) == 1;
        out.push(bit);
        j = j + 1;
    }
    proof {
        assert(out@ =~= base + bits_of(v as int, w as int));
    }
}

/// Read the `w` bits at `pos`, most significant first.
pub fn read_bits(bits: &Vec<bool>, pos: usize, w: u32) -> (r: u64)
    requires
        w <= 64,
        pos + w <= bits@.len(),
    ensures
        r == value_of(bits@, pos as int, w as int),
        (r as int) < pow2(w as nat),
{
    proof {
        vstd::arithmetic::power2::lemma2_to64();
    }
    let n = bits.len();
    let mut acc: u64 = 0;
    let mut j: u32 = 0;
    while j < w
        invariant
            j <= w <= 64,
            pos + w <= bits@.len(),
            n == bits@.len(),
            acc == value_of(bits@, pos as int, j as int),
            (acc as int) < pow2(j as nat),
        decreases w - j,
    {
        proof {
            vstd::arithmetic::power2::lemma2_to64();
            vstd::arithmetic::power2::lemma2_to64_rest();
            vstd::arithmetic::power2::lemma_pow2_unfold((j + 1) as nat);
            if j + 1 < 64 {
                vstd::arithmetic::power2::lemma_pow2_strictly_increases((j + 1) as nat, 64);
            }
        }
        let b = bits[pos + (j as usize)];
        acc = acc * 2 + (if b { 1 } else { 0 });
        j = j + 1;
    }
    acc
}

/// One scalar of a struct value: an exact rational for a quantized
/// float, the raw bit pattern of an unquantized float, or an integer.
#[derive(Clone, Copy, Debug, PartialEq, Eq, Structural)]
pub enum ScalarVal {
    F(Rat),
    Raw(u64),
    I(i128),
}

/// The field is an inline scalar with a well-formed spec and the width
/// the quantization engine assigns.
pub open spec fn field_ok(f: FieldDef) -> bool {
    match f.ty {
        ResolvedTy::Elem(e) => match e {
            ElemTy::Float { base, quant } => {
                &&& (quant matches FloatQuant::Interval(q) ==> quantf_wf(q))
                &&& f.width as int == spec_float_width(base, quant)
            },
            ElemTy::Int { base, bound } => {
                &&& (bound matches IntBound::Interval(b) ==> intbound_wf(b))
                &&& f.width as int == spec_int_width(base, bound)
            },
            ElemTy::Named(_) => false,
        },
        ResolvedTy::Array { .. } => false,
    }
}

/// The value populates the field: the right variant, well formed, and —
/// for a native integer — inside its base kind.
pub open spec fn val_conforms(f: FieldDef, v: ScalarVal) -> bool {
    match f.ty {
        ResolvedTy::Elem(e) => match (e, v) {
            (ElemTy::Float { quant: FloatQuant::Interval(_), .. }, ScalarVal::F(r)) => rat_wf(r),
            (ElemTy::Float { quant: FloatQuant::Native, .. }, ScalarVal::Raw(u)) => (u as int)
                < pow2(f.width as nat),
            (ElemTy::Int { bound: IntBound::Interval(_), .. }, ScalarVal::I(_)) => true,
            (ElemTy::Int { bound: IntBound::Native, base }, ScalarVal::I(x)) => base.spec_min()
                <= x <= base.spec_max(),
            _ => false,
        },
        ResolvedTy::Array { .. } => false,
    }
}

/// A bounded integer value lies inside its declared bound. Every other
/// scalar is always encodable.
pub open spec fn val_in_bound(f: FieldDef, v: ScalarVal) -> bool {
    match (f.ty, v) {
        (
            ResolvedTy::Elem(ElemTy::Int { bound: IntBound::Interval(b), .. }),
            ScalarVal::I(x),
        ) => b.low <= x <= b.high,
        _ => true,
    }
}

/// The level index a conforming, in-bound scalar encodes to.
pub open spec fn index_of(f: FieldDef, v: ScalarVal) -> int {
    match (f.ty, v) {
        (ResolvedTy::Elem(ElemTy::Float { quant: FloatQuant::Interval(q), .. }), ScalarVal::F(r)) => {
            if q.kind == FloatIntervalQuantKind::Linspace {
                lin_index(q, r.num as int, r.den as int)
            } else {
                wrap_index(q, r.num as int, r.den as int)
            }
        },
        (ResolvedTy::Elem(ElemTy::Float { quant: FloatQuant::Native, .. }), ScalarVal::Raw(u)) => u as int,
        (ResolvedTy::Elem(ElemTy::Int { bound: IntBound::Interval(b), .. }), ScalarVal::I(x)) => x - b.low,
        (ResolvedTy::Elem(ElemTy::Int { bound: IntBound::Native, .. }), ScalarVal::I(x)) => (x as int)
            % (pow2(f.width as nat) as int),
        _ => 0,
    }
}

/// The scalar a field decodes an index to: the exact grid value, the raw
/// pattern, or the integer, two's complement for native signed kinds.
pub open spec fn decoded_val(f: FieldDef, idx: int) -> ScalarVal {
    match f.ty {
        ResolvedTy::Elem(ElemTy::Float { quant: FloatQuant::Interval(q), .. }) => ScalarVal::F(
            grid_value(q, idx),
        ),
        ResolvedTy::Elem(ElemTy::Float { quant: FloatQuant::Native, .. }) => ScalarVal::Raw(
            idx as u64,
        ),
        ResolvedTy::Elem(ElemTy::Int { bound: IntBound::Interval(b), .. }) => ScalarVal::I(
            (b.low + idx) as i128,
        ),
        ResolvedTy::Elem(ElemTy::Int { bound: IntBound::Native, base }) => {
            if base.spec_min() < 0 && idx >= pow2((f.width - 1) as nat) {
                ScalarVal::I((idx - pow2(f.width as nat)) as i128)
            } else {
                ScalarVal::I(idx as i128)
            }
        },
        _ => ScalarVal::Raw(0),
    }
}

/// Encode one conforming scalar onto the stream: its index, in the
/// field's width, most significant bit first. A bounded integer outside
/// its bound is a hard error.
pub fn encode_field(f: &FieldDef, v: &ScalarVal, out: &mut Vec<bool>) -> (r: Result<(), Error>)
    requires
        field_ok(*f),
        val_conforms(*f, *v),
        f.width <= 64,
    ensures
        r is Ok <==> val_in_bound(*f, *v),
        r is Ok ==> final(out)@ == old(out)@ + bits_of(index_of(*f, *v), f.width as int),
        r is Err ==> final(out)@ == old(out)@ && (r matches Err(e)
            && e.kind == ErrorKind::ValueOutOfBound),
{
    proof {
        vstd::arithmetic::power2::lemma2_to64();
        vstd::arithmetic::power2::lemma2_to64_rest();
    }
    match &f.ty {
        ResolvedTy::Elem(e) => match e {
            ElemTy::Float { base, quant } => match quant {
                FloatQuant::Interval(q) => {
                    let idx = match v {
                        ScalarVal::F(r) => encode_interval(q, r),
                        _ => 0,
                    };
                    write_bits(out, idx, q.bits);
                    Ok(())
                },
                FloatQuant::Native => {
                    let u = match v {
                        ScalarVal::Raw(u) => *u,
                        _ => 0,
                    };
                    write_bits(out, u, f.width as u32);
                    Ok(())
                },
            },
            ElemTy::Int { base, bound } => match bound {
                IntBound::Interval(b) => {
                    let x = match v {
                        ScalarVal::I(x) => *x,
                        _ => 0,
                    };
                    match b.encode(x) {
                        Ok(idx) => {
                            proof {
                                crate::quant::lemma_bound_round_trip(*b, x);
                            }
                            write_bits(out, idx, b.bits);
                            Ok(())
                        },
                        Err(_) => Err(Error { kind: ErrorKind::ValueOutOfBound, item: 0 }),
                    }
                },
                IntBound::Native => {
                    let x = match v {
                        ScalarVal::I(x) => *x,
                        _ => 0,
                    };
                    let w = f.width as u32;
                    let m: u128 = pow2_u128(w);
                    let idx: u64 = if x >= 0 {
                        proof {
                            vstd::arithmetic::div_mod::lemma_small_mod(
                                x as nat, pow2(f.width as nat),
                            );
                        }
                        x as u64
                    } else {
                        proof {
                            vstd::arithmetic::div_mod::lemma_fundamental_div_mod_converse_mod(
                                x as int,
                                pow2(f.width as nat) as int,
                                -1,
                                x + pow2(f.width as nat),
                            );
                        }
                        (x + (m as i128)) as u64
                    };
                    write_bits(out, idx, w);
                    Ok(())
                },
            },
            ElemTy::Named(_) => Ok(()),
        },
        ResolvedTy::Array { .. } => Ok(()),
    }
}

/// The number of distinct level indices a field admits.
pub open spec fn levels(f: FieldDef) -> int {
    match f.ty {
        ResolvedTy::Elem(ElemTy::Float { quant: FloatQuant::Interval(q), .. }) => q.n as int,
        ResolvedTy::Elem(ElemTy::Int { bound: IntBound::Interval(b), .. }) => b.n as int,
        _ => pow2(f.width as nat) as int,
    }
}

/// Decode one scalar from the stream: the index in the field's width at
/// `pos`, mapped back to its value.
pub fn decode_field(f: &FieldDef, bits: &Vec<bool>, pos: usize) -> (v: ScalarVal)
    requires
        field_ok(*f),
        f.width <= 64,
        pos + f.width <= bits@.len(),
        value_of(bits@, pos as int, f.width as int) < levels(*f),
    ensures
        v == decoded_val(*f, value_of(bits@, pos as int, f.width as int)),
{
    proof {
        vstd::arithmetic::power2::lemma2_to64();
        vstd::arithmetic::power2::lemma2_to64_rest();
    }
    let idx: u64 = read_bits(bits, pos, f.width as u32);
    match &f.ty {
        ResolvedTy::Elem(e) => match e {
            ElemTy::Float { base, quant } => match quant {
                FloatQuant::Interval(q) => ScalarVal::F(decode_interval(q, idx)),
                FloatQuant::Native => ScalarVal::Raw(idx),
            },
            ElemTy::Int { base, bound } => match bound {
                IntBound::Interval(b) => ScalarVal::I(b.decode(idx)),
                IntBound::Native => {
                    let w = f.width as u32;
                    let m: u128 = pow2_u128(w);
                    let neg_kinds = base.min_value() < 0;
                    if neg_kinds && w >= 1 && (idx as u128) >= pow2_u128(w - 1) {
                        ScalarVal::I((idx as i128) - (m as i128))
                    } else {
                        ScalarVal::I(idx as i128)
                    }
                },
            },
            ElemTy::Named(_) => ScalarVal::Raw(0),
        },
        ResolvedTy::Array { .. } => ScalarVal::Raw(0),
    }
}

/// The concatenated encoding of the first `j` fields of a struct value.
pub open spec fn enc_prefix(fields: Seq<FieldDef>, vals: Seq<ScalarVal>, j: int) -> Seq<bool>
    decreases j,
{
    if j <= 0 {
        Seq::empty()
    } else {
        enc_prefix(fields, vals, j - 1) + bits_of(
            index_of(fields[j - 1], vals[j - 1]),
            fields[j - 1].width as int,
        )
    }
}

/// The offsets of a laid-out field list are prefix sums of the widths.
pub open spec fn offsets_ok(fields: Seq<FieldDef>) -> bool {
    forall|j: int| 0 <= j < fields.len() ==> (#[trigger] fields[j].offset) as int
        == if j == 0 { 0int } else { fields[j - 1].offset + fields[j - 1].width }
}

/// The encoded prefix is exactly as long as the next field's offset.
pub proof fn lemma_enc_prefix_len(fields: Seq<FieldDef>, vals: Seq<ScalarVal>, j: int)
    requires
        offsets_ok(fields),
        0 <= j <= fields.len(),
    ensures
        enc_prefix(fields, vals, j).len() == if j == 0 {
            0int
        } else {
            fields[j - 1].offset + fields[j - 1].width
        },
    decreases j,
{
    if j > 0 {
        lemma_enc_prefix_len(fields, vals, j - 1);
    }
}

/// Encode a fully populated struct value: each field's index in order,
/// one contiguous bit sequence. Fails exactly when some bounded integer
/// lies outside its bound; the partially written stream is then
/// abandoned by the caller.
pub fn encode_struct(fields: &Vec<FieldDef>, vals: &Vec<ScalarVal>, out: &mut Vec<bool>) -> (r:
    Result<(), Error>)
    requires
        fields@.len() == vals@.len(),
        forall|j: int| 0 <= j < fields@.len() ==> #[trigger] field_ok(fields@[j])
            && fields@[j].width <= 64,
        forall|j: int| 0 <= j < fields@.len() ==> #[trigger] val_conforms(fields@[j], vals@[j]),
        old(out)@.len() == 0,
    ensures
        r is Ok ==> final(out)@ == enc_prefix(fields@, vals@, fields@.len() as int),
        r matches Err(e) ==> e.kind == ErrorKind::ValueOutOfBound
            && exists|j: int| 0 <= j < fields@.len()
            && !(#[trigger] val_in_bound(fields@[j], vals@[j])),
{
    let mut i: usize = 0;
    while i < fields.len()
        invariant
            i <= fields@.len(),
            fields@.len() == vals@.len(),
            forall|j: int| 0 <= j < fields@.len() ==> #[trigger] field_ok(fields@[j])
                && fields@[j].width <= 64,
            forall|j: int| 0 <= j < fields@.len()
                ==> #[trigger] val_conforms(fields@[j], vals@[j]),
            out@ == enc_prefix(fields@, vals@, i as int),
        decreases fields@.len() - i,
    {
        proof {
            assert(field_ok(fields@[i as int]));
            assert(val_conforms(fields@[i as int], vals@[i as int]));
        }
        match encode_field(&fields[i], &vals[i], out) {
            Ok(_) => {},
            Err(e) => {
                return Err(e);
            },
        }
        i = i + 1;
    }
    Ok(())
}

/// Decode a struct value from the stream at `pos`: one scalar per field,
/// each read at its own bit offset.
#[verifier::rlimit(80)]
pub fn decode_struct(fields: &Vec<FieldDef>, bits: &Vec<bool>, pos: usize) -> (r: Vec<ScalarVal>)
    requires
        offsets_ok(fields@),
        forall|j: int| 0 <= j < fields@.len() ==> #[trigger] field_ok(fields@[j])
            && fields@[j].width <= 64,
        forall|j: int| 0 <= j < fields@.len() ==> pos + (#[trigger] fields@[j].offset)
            + fields@[j].width <= bits@.len(),
        forall|j: int| 0 <= j < fields@.len() ==> value_of(
            bits@,
            pos + (#[trigger] fields@[j].offset),
            fields@[j].width as int,
        ) < levels(fields@[j]),
    ensures
        r@.len() == fields@.len(),
        forall|j: int| 0 <= j < fields@.len() ==> r@[j] == decoded_val(
            fields@[j],
            value_of(bits@, pos + (#[trigger] fields@[j].offset), fields@[j].width as int),
        ),
{
    let n = bits.len();
    let mut r: Vec<ScalarVal> = Vec::new();
    let mut i: usize = 0;
    while i < fields.len()
        invariant
            i <= fields@.len(),
            r@.len() == i,
            n == bits@.len(),
            offsets_ok(fields@),
            forall|j: int| 0 <= j < fields@.len() ==> #[trigger] field_ok(fields@[j])
                && fields@[j].width <= 64,
            forall|j: int| 0 <= j < fields@.len() ==> pos + (#[trigger] fields@[j].offset)
                + fields@[j].width <= bits@.len(),
            forall|j: int| 0 <= j < fields@.len() ==> value_of(
                bits@,
                pos + (#[trigger] fields@[j].offset),
                fields@[j].width as int,
            ) < levels(fields@[j]),
            forall|j: int| 0 <= j < i ==> r@[j] == decoded_val(
                fields@[j],
                value_of(bits@, pos + (#[trigger] fields@[j].offset), fields@[j].width as int),
            ),
        decreases fields@.len() - i,
    {
        proof {
            assert(field_ok(fields@[i as int]));
            assert(pos + fields@[i as int].offset + fields@[i as int].width <= bits@.len());
            assert(value_of(
                bits@,
                pos + fields@[i as int].offset,
                fields@[i as int].width as int,
            ) < levels(fields@[i as int]));
        }
        let f = &fields[i];
        let v = decode_field(f, bits, pos + f.offset as usize);
        r.push(v);
        i = i + 1;
    }
    r
}

/// Interval indices always land inside `[0, n)`.
pub proof fn lemma_interval_index_range(q: QuantF, vn: int, vd: int)
    requires
        quantf_wf(q),
        vd > 0,
    ensures
        0 <= lin_index(q, vn, vd) < q.n,
        0 <= wrap_index(q, vn, vd) < q.n,
{
    let x = vn * q.scale - q.low * vd;
    let b = vd * (q.step as int);
    vstd::arithmetic::mul::lemma_mul_strictly_positive(vd, q.step as int);
    if x > 0 {
        vstd::arithmetic::div_mod::lemma_div_pos_is_pos(2 * x + b, 2 * b);
    }
    let m = (q.high - q.low) * vd;
    vstd::arithmetic::mul::lemma_mul_strictly_positive((q.high - q.low) as int, vd);
    vstd::arithmetic::div_mod::lemma_mod_division_less_than_divisor(x, m);
    vstd::arithmetic::div_mod::lemma_div_pos_is_pos(2 * (x % m) + b, 2 * b);
}

/// A conforming, in-bound scalar's index fits the field's width.
pub proof fn lemma_index_range(f: FieldDef, v: ScalarVal)
    requires
        field_ok(f),
        val_conforms(f, v),
        val_in_bound(f, v),
    ensures
        0 <= index_of(f, v) < levels(f),
        levels(f) <= pow2(f.width as nat),
{
    match f.ty {
        ResolvedTy::Elem(ElemTy::Float { quant: FloatQuant::Interval(q), .. }) => {
            match v {
                ScalarVal::F(r) => {
                    lemma_interval_index_range(q, r.num as int, r.den as int);
                },
                _ => {},
            }
        },
        ResolvedTy::Elem(ElemTy::Int { bound: IntBound::Native, base }) => {
            match v {
                ScalarVal::I(x) => {
                    vstd::arithmetic::power2::lemma_pow2_pos(f.width as nat);
                    vstd::arithmetic::div_mod::lemma_mod_division_less_than_divisor(
                        x as int, pow2(f.width as nat) as int,
                    );
                },
                _ => {},
            }
        },
        _ => {},
    }
}

/// What decoding gives back for one field: exact for every integer and
/// raw-float field; for a quantized float, the grid value of its index —
/// inside `[low, high)` for a wrap spec, and within one step of the
/// input whenever a linspace input lies inside its interval.
pub open spec fn reproduces(f: FieldDef, v: ScalarVal, w: ScalarVal) -> bool {
    match f.ty {
        ResolvedTy::Elem(ElemTy::Float { quant: FloatQuant::Interval(q), .. }) => match (v, w) {
            (ScalarVal::F(r), ScalarVal::F(g)) => {
                &&& g == grid_value(q, index_of(f, v))
                &&& (q.kind == FloatIntervalQuantKind::Wrap ==> q.low <= g.num < q.high)
                &&& (q.kind == FloatIntervalQuantKind::Linspace
                    && q.low * r.den <= r.num * q.scale <= q.high * r.den
                    ==> -(q.step * r.den) <= g.num * r.den - r.num * q.scale
                        <= q.step * r.den)
            },
            _ => false,
        },
        _ => w == v,
    }
}

/// Decoding a native integer's two's complement index gives the integer
/// back exactly.
proof fn lemma_native_int_round(f: FieldDef, base: PrimIntKind, x: int)
    requires
        f.ty matches ResolvedTy::Elem(ElemTy::Int { bound: IntBound::Native, base: b2 })
            && b2 == base,
        f.width as int == spec_int_width(base, IntBound::Native),
        base.spec_min() <= x <= base.spec_max(),
    ensures
        decoded_val(f, index_of(f, ScalarVal::I(x as i128))) == ScalarVal::I(x as i128),
{
    vstd::arithmetic::power2::lemma2_to64();
    vstd::arithmetic::power2::lemma2_to64_rest();
    let m = pow2(f.width as nat) as int;
    if x >= 0 {
        vstd::arithmetic::div_mod::lemma_small_mod(x as nat, pow2(f.width as nat));
    } else {
        vstd::arithmetic::div_mod::lemma_fundamental_div_mod_converse_mod(
            x, m, -1, x + m,
        );
    }
}

/// Non-decreasing field ends: a later field never ends before an
/// earlier one.
proof fn lemma_offset_mono(fields: Seq<FieldDef>, a: int, b: int)
    requires
        offsets_ok(fields),
        0 <= a <= b < fields.len(),
    ensures
        fields[a].offset + fields[a].width <= fields[b].offset + fields[b].width,
    decreases b - a,
{
    if a < b {
        lemma_offset_mono(fields, a, b - 1);
    }
}

/// Inside the concatenated encoding, the bits at a field's offset are
/// exactly that field's encoded index.
proof fn lemma_enc_prefix_bits(fields: Seq<FieldDef>, vals: Seq<ScalarVal>, n: int, j: int)
    requires
        offsets_ok(fields),
        fields.len() == vals.len(),
        0 <= j < n <= fields.len(),
    ensures
        forall|k: int| 0 <= k < fields[j].width ==> enc_prefix(fields, vals, n)[
            fields[j].offset + k
        ] == #[trigger] bits_of(index_of(fields[j], vals[j]), fields[j].width as int)[k],
    decreases n,
{
    lemma_enc_prefix_len(fields, vals, j);
    if n == j + 1 {
        lemma_enc_prefix_len(fields, vals, n);
    } else {
        lemma_enc_prefix_bits(fields, vals, n - 1, j);
        lemma_enc_prefix_len(fields, vals, n - 1);
        lemma_offset_mono(fields, j, n - 2);
    }
}

/// Round trip: encoding a fully populated struct value and decoding the
/// stream reproduces every field — bounded and native integers and raw
/// floats exactly, quantized floats within their declared quantization
/// error.
#[verifier::rlimit(100)]
#[verifier::spinoff_prover]
pub proof fn lemma_struct_round_trip(fields: Seq<FieldDef>, vals: Seq<ScalarVal>, s: Seq<bool>)
    requires
        fields.len() == vals.len(),
        offsets_ok(fields),
        forall|j: int| 0 <= j < fields.len() ==> #[trigger] field_ok(fields[j])
            && fields[j].width <= 64,
        forall|j: int| 0 <= j < fields.len() ==> #[trigger] val_conforms(fields[j], vals[j]),
        forall|j: int| 0 <= j < fields.len() ==> #[trigger] val_in_bound(fields[j], vals[j]),
        s == enc_prefix(fields, vals, fields.len() as int),
    ensures
        forall|j: int| 0 <= j < fields.len() ==> #[trigger] reproduces(
            fields[j],
            vals[j],
            decoded_val(fields[j], value_of(s, fields[j].offset as int, fields[j].width as int)),
        ),
        forall|j: int| 0 <= j < fields.len() ==> value_of(
            s,
            (#[trigger] fields[j].offset) as int,
            fields[j].width as int,
        ) < levels(fields[j]),
{
    let n = fields.len() as int;
    assert forall|j: int| 0 <= j < n implies #[trigger] reproduces(
        fields[j],
        vals[j],
        decoded_val(fields[j], value_of(s, fields[j].offset as int, fields[j].width as int)),
    ) && value_of(s, fields[j].offset as int, fields[j].width as int) < levels(fields[j]) by {
        lemma_one_field_round_trip(fields, vals, s, j);
    }
    assert forall|j: int| 0 <= j < n implies value_of(
        s,
        (#[trigger] fields[j].offset) as int,
        fields[j].width as int,
    ) < levels(fields[j]) by {
        lemma_one_field_round_trip(fields, vals, s, j);
    }
}

/// One field of the round trip: its stream segment holds its index, and
/// decoding that index reproduces the field's value.
#[verifier::rlimit(100)]
#[verifier::spinoff_prover]
proof fn lemma_one_field_round_trip(
    fields: Seq<FieldDef>,
    vals: Seq<ScalarVal>,
    s: Seq<bool>,
    j: int,
)
    requires
        fields.len() == vals.len(),
        offsets_ok(fields),
        forall|k: int| 0 <= k < fields.len() ==> #[trigger] field_ok(fields[k])
            && fields[k].width <= 64,
        forall|k: int| 0 <= k < fields.len() ==> #[trigger] val_conforms(fields[k], vals[k]),
        forall|k: int| 0 <= k < fields.len() ==> #[trigger] val_in_bound(fields[k], vals[k]),
        s == enc_prefix(fields, vals, fields.len() as int),
        0 <= j < fields.len(),
    ensures
        reproduces(
            fields[j],
            vals[j],
            decoded_val(fields[j], value_of(s, fields[j].offset as int, fields[j].width as int)),
        ),
        value_of(s, fields[j].offset as int, fields[j].width as int) < levels(fields[j]),
{
    let n = fields.len() as int;
    {
        let f = fields[j];
        let v = vals[j];
        let idx = index_of(f, v);
        assert(field_ok(f) && val_conforms(f, v) && val_in_bound(f, v));
        lemma_index_range(f, v);
        lemma_enc_prefix_bits(fields, vals, n, j);
        vstd::arithmetic::power2::lemma_pow2_pos(f.width as nat);
        lemma_value_of_bits(s, f.offset as int, idx, f.width as int);
        match f.ty {
            ResolvedTy::Elem(ElemTy::Float { quant: FloatQuant::Interval(q), .. }) => {
                match v {
                    ScalarVal::F(r) => {
                        if q.kind == FloatIntervalQuantKind::Wrap {
                            crate::quant::lemma_wrap_decode_range(q, idx);
                        } else if q.low * r.den <= r.num * q.scale <= q.high * r.den {
                            crate::quant::lemma_linspace_error(q, r);
                        }
                    },
                    _ => {},
                }
            },
            ResolvedTy::Elem(ElemTy::Int { bound: IntBound::Native, base }) => {
                match v {
                    ScalarVal::I(x) => {
                        lemma_native_int_round(f, base, x as int);
                    },
                    _ => {},
                }
            },
            _ => {},
        }
    }
}

/// Two to the power `w`, executable up to the widest native width.
pub fn pow2_u128(w: u32) -> (r: u128)
    requires
        w <= 64,
    ensures
        r == pow2(w as nat),
{
    proof {
        vstd::arithmetic::power2::lemma2_to64();
        vstd::arithmetic::power2::lemma2_to64_rest();
    }
    let mut r: u128 = 1;
    let mut k: u32 = 0;
    while k < w
        invariant
            k <= w <= 64,
            r == pow2(k as nat),
        decreases w - k,
    {
        proof {
            vstd::arithmetic::power2::lemma2_to64();
            vstd::arithmetic::power2::lemma2_to64_rest();
            vstd::arithmetic::power2::lemma_pow2_unfold((k + 1) as nat);
            if k + 1 < 64 {
                vstd::arithmetic::power2::lemma_pow2_strictly_increases((k + 1) as nat, 64);
            }
        }
        r = r * 2;
        k = k + 1;
    }
    r
}

} // verus!
