//! Quantization and bit-width engine.
//!
//! Each quantized scalar carries a validated spec over a common decimal
//! scale: the bounds `low`, `high` and the step are integers denoting the
//! rationals `low/scale`, `high/scale`, `step/scale`. The number of levels
//! and the bit width are derived here, and the encode/decode transforms are
//! exact integer maps on `Rat` values.

use vstd::prelude::*;
use vstd::arithmetic::power2::pow2;
use crate::rat::{
    Rat, rat_wf, rat_eq, round_div_spec, round_div, euclid_mod, SCALE_MAX, NUM_MAX,
};
use crate::error::{Error, ErrorKind};

verus! {

/// The two interval quantization flavours: clamping over a closed interval,
/// or circular over a half-open one.
#[derive(Clone, Copy, Debug, PartialEq, Eq, Structural)]
pub enum FloatIntervalQuantKind {
    Linspace,
    Wrap,
}

/// `bits` is the least width whose range covers `n` levels:
/// `2^bits >= n`, and no smaller width suffices.
pub open spec fn bits_minimal(n: int, bits: u32) -> bool {
    &&& pow2(bits as nat) >= n
    &&& (bits > 0 ==> pow2((bits - 1) as nat) < n)
}

/// The least `b` with `2^b >= n`, by doubling. A single level needs no
/// bits at all: an always-known value is not transmitted.
pub fn bits_for(n: u128) -> (b: u32)
    requires
        1 <= n <= 0x1_0000_0000_0000_0000,
    ensures
        bits_minimal(n as int, b),
        b <= 64,
{
    let mut p: u128 = 1;
    let mut b: u32 = 0;
    proof {
        vstd::arithmetic::power2::lemma2_to64();
    }
    while p < n
        invariant
            1 <= n <= 0x1_0000_0000_0000_0000,
            p == pow2(b as nat),
            b > 0 ==> pow2((b - 1) as nat) < n,
            p <= 0x1_0000_0000_0000_0000,
            b <= 64,
        decreases 2 * n - p,
    {
        proof {
            vstd::arithmetic::power2::lemma2_to64();
            vstd::arithmetic::power2::lemma2_to64_rest();
            if b > 64 {
                vstd::arithmetic::power2::lemma_pow2_strictly_increases(64, b as nat);
            }
            assert(b < 64);
            vstd::arithmetic::power2::lemma_pow2_unfold((b + 1) as nat);
            if b + 1 < 64 {
                vstd::arithmetic::power2::lemma_pow2_strictly_increases((b + 1) as nat, 64);
            }
        }
        p = p * 2;
        b = b + 1;
    }
    b
}

/// A validated interval quantization over a common decimal scale.
///
/// `low`, `high` and `step` are the attribute bounds scaled by `scale`
/// (a power of ten): the quantizer works on the rationals `low/scale`,
/// `high/scale`, `step/scale`. `n` is the level count and `bits` the
/// minimal width holding an index below `n`.
#[derive(Clone, Copy, Debug, PartialEq, Eq, Structural)]
pub struct QuantF {
    pub low: i128,
    pub high: i128,
    pub step: i128,
    pub scale: i128,
    pub kind: FloatIntervalQuantKind,
    pub n: i128,
    pub bits: u32,
}

/// Validity of an interval quantization spec: bounded scaled parameters,
/// a positive step, a non-empty interval, the level count of its kind, and
/// a minimal bit width.
pub open spec fn quantf_wf(q: QuantF) -> bool {
    &&& 1 <= q.scale <= SCALE_MAX
    &&& -SCALE_MAX <= q.low < q.high <= SCALE_MAX
    &&& 1 <= q.step <= SCALE_MAX
    &&& (q.kind == FloatIntervalQuantKind::Linspace
        ==> q.n == (q.high - q.low) / (q.step as int) + 1)
    &&& (q.kind == FloatIntervalQuantKind::Wrap
        ==> q.n == (q.high - q.low) / (q.step as int))
    &&& 1 <= q.n
    &&& bits_minimal(q.n as int, q.bits)
}

/// The linspace index of the rational `vn/vd` (with `vd > 0`): clamp into
/// `[low, high]`, divide the offset from `low` by the step, round to the
/// nearest level, and clamp the index into `[0, n-1]`.
pub open spec fn lin_index(q: QuantF, vn: int, vd: int) -> int {
    let x = vn * q.scale - q.low * vd;
    if x <= 0 {
        0
    } else {
        let i = round_div_spec(x, vd * q.step);
        if i >= q.n {
            q.n - 1
        } else {
            i
        }
    }
}

/// The wrap index of the rational `vn/vd` (with `vd > 0`): reduce the
/// offset from `low` modulo the period `high - low` (always to a
/// non-negative remainder), then quantize as in linspace.
pub open spec fn wrap_index(q: QuantF, vn: int, vd: int) -> int {
    let x = vn * q.scale - q.low * vd;
    let m = (q.high - q.low) * vd;
    let r = x % m;
    let i = round_div_spec(r, vd * q.step);
    if i >= q.n {
        q.n - 1
    } else {
        i
    }
}

/// The decoded grid value of index `i`: the exact rational
/// `(low + i * step) / scale`.
pub open spec fn grid_value(q: QuantF, i: int) -> Rat {
    Rat { num: (q.low + i * q.step) as i128, den: q.scale }
}

/// Bounds implied by a well-formed interval spec: the level count stays
/// close to the scaled range, and the last grid point stays at or below
/// `high`.
pub proof fn lemma_level_bound(q: QuantF)
    requires
        quantf_wf(q),
    ensures
        q.n <= q.high - q.low + 1,
        (q.n - 1) * q.step <= q.high - q.low,
{
    let r = (q.high - q.low) as int;
    let s = q.step as int;
    vstd::arithmetic::div_mod::lemma_div_nonincreasing(r, s);
    vstd::arithmetic::div_mod::lemma_fundamental_div_mod(r, s);
    vstd::arithmetic::div_mod::lemma_mod_division_less_than_divisor(r, s);
    vstd::arithmetic::div_mod::lemma_div_pos_is_pos(r, s);
    assert(s * (r / s) == (r / s) * s) by (nonlinear_arith);
    assert((r / s - 1) * s == (r / s) * s - s) by (nonlinear_arith);
}

/// Encode a rational value to its level index, by the spec's kind.
pub fn encode_interval(q: &QuantF, v: &Rat) -> (i: u64)
    requires
        quantf_wf(*q),
        rat_wf(*v),
    ensures
        q.kind == FloatIntervalQuantKind::Linspace
            ==> i == lin_index(*q, v.num as int, v.den as int),
        q.kind == FloatIntervalQuantKind::Wrap
            ==> i == wrap_index(*q, v.num as int, v.den as int),
        i < q.n,
        (i as int) < pow2(q.bits as nat),
{
    proof {
        crate::rat::lemma_mul_bound(v.num as int, NUM_MAX as int, q.scale as int, SCALE_MAX as int);
        crate::rat::lemma_mul_bound(q.low as int, SCALE_MAX as int, v.den as int, SCALE_MAX as int);
        crate::rat::lemma_mul_bound(v.den as int, SCALE_MAX as int, q.step as int, SCALE_MAX as int);
        crate::rat::lemma_mul_bound(
            (q.high - q.low) as int, 2 * SCALE_MAX as int, v.den as int, SCALE_MAX as int,
        );
        lemma_level_bound(*q);
        vstd::arithmetic::mul::lemma_mul_strictly_positive(v.den as int, q.step as int);
        vstd::arithmetic::mul::lemma_mul_strictly_positive(
            (q.high - q.low) as int, v.den as int,
        );
    }
    let x: i128 = v.num * q.scale - q.low * v.den;
    let d: i128 = v.den * q.step;
    let idx: i128 = match q.kind {
        FloatIntervalQuantKind::Linspace => {
            if x <= 0 {
                0
            } else {
                let i: i128 = round_div(x, d);
                if i >= q.n {
                    q.n - 1
                } else {
                    i
                }
            }
        },
        FloatIntervalQuantKind::Wrap => {
            let m: i128 = (q.high - q.low) * v.den;
            let r: i128 = euclid_mod(x, m);
            let i: i128 = round_div(r, d);
            if i >= q.n {
                q.n - 1
            } else {
                i
            }
        },
    };
    idx as u64
}

/// Decode a level index to its exact grid value `(low + i * step) / scale`.
pub fn decode_interval(q: &QuantF, i: u64) -> (r: Rat)
    requires
        quantf_wf(*q),
        i < q.n,
    ensures
        r == grid_value(*q, i as int),
        rat_wf(r),
    {
    proof {
        lemma_level_bound(*q);
        vstd::arithmetic::mul::lemma_mul_inequality(i as int, q.n - 1, q.step as int);
    }
    Rat { num: q.low + (i as i128) * q.step, den: q.scale }
}

/// A linspace quantizer reproduces the lower bound exactly: a value equal
/// to `low` encodes to index 0, whose grid value is `low` again.
pub proof fn lemma_linspace_low_exact(q: QuantF, v: Rat)
    requires
        quantf_wf(q),
        rat_wf(v),
        v.num * q.scale == q.low * v.den,
    ensures
        lin_index(q, v.num as int, v.den as int) == 0,
        rat_eq(grid_value(q, 0), v),
{
    assert(q.low + 0 * q.step == q.low);
}

/// A linspace quantizer reproduces the upper bound exactly whenever the
/// step divides the interval length: `high` encodes to the last index,
/// whose grid value is `high` again. (With a step that does not divide
/// `high - low`, such as bounds 0 and 1 with step 3/10, the last grid
/// point lies strictly below `high` and exact reproduction is impossible.)
pub proof fn lemma_linspace_high_exact(q: QuantF, v: Rat)
    requires
        quantf_wf(q),
        rat_wf(v),
        q.kind == FloatIntervalQuantKind::Linspace,
        v.num * q.scale == q.high * v.den,
        (q.high - q.low) % (q.step as int) == 0,
    ensures
        lin_index(q, v.num as int, v.den as int) == q.n - 1,
        rat_eq(grid_value(q, q.n - 1), v),
{
    let r = (q.high - q.low) as int;
    let s = q.step as int;
    let vd = v.den as int;
    let x = v.num * q.scale - q.low * vd;
    assert(x == r * vd) by (nonlinear_arith)
        requires
            v.num * q.scale == q.high * vd,
            x == v.num * q.scale - q.low * vd,
            r == q.high - q.low,
    ;
    vstd::arithmetic::div_mod::lemma_fundamental_div_mod(r, s);
    let nl = r / s;
    assert(r == s * nl);
    assert(q.n - 1 == nl);
    vstd::arithmetic::mul::lemma_mul_strictly_positive(r, vd);
    // the rounded quotient of (r*vd) by (vd*s) is exactly nl
    assert(2 * x + vd * s == (2 * nl + 1) * (s * vd)) by (nonlinear_arith)
        requires x == r * vd, r == s * nl,
    ;
    assert(2 * (vd * s) == 2 * (s * vd)) by (nonlinear_arith);
    vstd::arithmetic::mul::lemma_mul_strictly_positive(s, vd);
    crate::rat::lemma_div_scale(s * vd, 2 * nl + 1, 2);
    assert(round_div_spec(x, vd * s) == ((2 * nl + 1) * (s * vd)) / (2 * (s * vd)));
    assert(((s * vd) * (2 * nl + 1)) == ((2 * nl + 1) * (s * vd))) by (nonlinear_arith);
    assert(((s * vd) * 2) == (2 * (s * vd))) by (nonlinear_arith);
    assert(round_div_spec(x, vd * s) == (2 * nl + 1) / 2);
    assert((2 * nl + 1) / 2 == nl);
    // the grid value at the last index is exactly high
    assert(q.low + nl * s == q.high) by (nonlinear_arith)
        requires r == s * nl, r == q.high - q.low,
    ;
    assert(rat_eq(grid_value(q, q.n - 1), v)) by (nonlinear_arith)
        requires
            grid_value(q, q.n - 1).num == q.high as int,
            grid_value(q, q.n - 1).den == q.scale,
            v.num * q.scale == q.high * v.den,
    ;
}

/// The linspace quantization error: for any value inside `[low, high]`,
/// the decoded grid value differs from the input by at most one step.
/// Cross-multiplied form of `|grid - v| <= step / scale`.
pub proof fn lemma_linspace_error(q: QuantF, v: Rat)
    requires
        quantf_wf(q),
        rat_wf(v),
        q.kind == FloatIntervalQuantKind::Linspace,
        q.low * v.den <= v.num * q.scale <= q.high * v.den,
    ensures
        ({
            let i = lin_index(q, v.num as int, v.den as int);
            let g = grid_value(q, i);
            &&& 0 <= i < q.n
            &&& -(q.step * v.den) <= g.num * v.den - v.num * q.scale <= q.step * v.den
        }),
{
    let r = (q.high - q.low) as int;
    let s = q.step as int;
    let vd = v.den as int;
    let x = v.num * q.scale - q.low * vd;
    let b = vd * s;
    let i = lin_index(q, v.num as int, v.den as int);
    vstd::arithmetic::mul::lemma_mul_strictly_positive(vd, s);
    lemma_level_bound(q);
    assert(x <= r * vd) by (nonlinear_arith)
        requires
            v.num * q.scale <= q.high * vd,
            x == v.num * q.scale - q.low * vd,
            r == q.high - q.low,
    ;
    if x <= 0 {
        assert(x == 0);
        assert(grid_value(q, 0).num == q.low);
        assert(grid_value(q, 0).num * vd - v.num * q.scale == -x) by (nonlinear_arith)
            requires
                grid_value(q, 0).num == q.low as int,
                x == v.num * q.scale - q.low * vd,
    ;
        assert(0 <= q.step * v.den) by (nonlinear_arith)
            requires 0 < q.step, 0 < v.den,
        ;
        assert(grid_value(q, i).num * v.den - v.num * q.scale == 0) by (nonlinear_arith)
            requires
                grid_value(q, i).num == q.low as int,
                v.num * q.scale - q.low * (v.den as int) == 0,
        ;
    } else {
        let i0 = round_div_spec(x, b);
        crate::rat::lemma_round_div_err(x, b);
        vstd::arithmetic::div_mod::lemma_div_pos_is_pos(2 * x + b, 2 * b);
        if i0 >= q.n {
            assert(i == q.n - 1);
            // round up past the last level: the value sits in the top
            // half-step below high, the last grid point at most one
            // step below it
            let nl = (q.n - 1) as int;
            assert(nl * s <= r);
            assert(nl * b <= r * vd) by (nonlinear_arith)
                requires nl * s <= r, 0 < vd, b == vd * s,
            ;
            assert(2 * (x - i0 * b) >= -b);
            assert(i0 * b >= (q.n) * b) by (nonlinear_arith)
                requires i0 >= q.n, 0 < b,
            ;
            assert(2 * (x - q.n * b) >= -b) by (nonlinear_arith)
                requires 2 * (x - i0 * b) >= -b, i0 * b >= q.n * b,
            ;
            // grid diff = nl*b - x, with nl*b <= r*vd and x >= n*b - b/2
            assert(q.n * b == nl * b + b) by (nonlinear_arith)
                requires nl == q.n - 1,
            ;
            let g = grid_value(q, i);
            assert(q.low + nl * s <= q.low + r);
            assert(g.num == q.low + nl * s);
            assert(g.num * vd - v.num * q.scale == nl * b - x) by (nonlinear_arith)
                requires
                    g.num == q.low + nl * s,
                    x == v.num * q.scale - q.low * vd,
                    b == vd * s,
            ;
            vstd::arithmetic::div_mod::lemma_fundamental_div_mod(r, s);
            vstd::arithmetic::div_mod::lemma_mod_division_less_than_divisor(r, s);
            assert(r < q.n * s) by (nonlinear_arith)
                requires
                    r == s * ((q.n - 1) as int) + r % (s as int),
                    r % (s as int) < s,
            ;
            assert(x < q.n * b) by (nonlinear_arith)
                requires x <= r * vd, r < q.n * (s as int), 0 < vd, b == vd * s,
            ;
            assert(nl * b - x >= -b);
            assert(nl * b - x <= 0) by (nonlinear_arith)
                requires 2 * (x - q.n * b) >= -b, q.n * b == nl * b + b, 0 < b,
            ;
            assert(-(q.step * v.den) <= grid_value(q, i).num * v.den - v.num * q.scale
                <= q.step * v.den) by (nonlinear_arith)
                requires
                    grid_value(q, i).num * (v.den as int) - v.num * q.scale == nl * b - x,
                    -b <= nl * b - x <= 0,
                    b == (v.den as int) * (q.step as int),
            ;
        } else {
            assert(i == i0 && 0 <= i0);
            vstd::arithmetic::mul::lemma_mul_inequality(i0, q.n - 1, s);
            vstd::arithmetic::mul::lemma_mul_nonnegative(i0, s);
            let g = grid_value(q, i);
            assert(g.num == q.low + i0 * s);
            assert(g.num * vd - v.num * q.scale == i0 * b - x) by (nonlinear_arith)
                requires
                    g.num == q.low + i0 * s,
                    x == v.num * q.scale - q.low * vd,
                    b == vd * s,
            ;
            assert(-b <= 2 * (x - i0 * b) <= b);
            assert(-b <= i0 * b - x <= b) by (nonlinear_arith)
                requires -b <= 2 * (x - i0 * b) <= b, 0 < b,
            ;
            assert(-(q.step * v.den) <= grid_value(q, i).num * v.den - v.num * q.scale
                <= q.step * v.den) by (nonlinear_arith)
                requires
                    grid_value(q, i).num * (v.den as int) - v.num * q.scale == i0 * b - x,
                    -b <= i0 * b - x <= b,
                    b == (v.den as int) * (q.step as int),
            ;
        }
    }
}

/// Every wrap grid value lies inside the half-open interval `[low, high)`.
pub proof fn lemma_wrap_decode_range(q: QuantF, i: int)
    requires
        quantf_wf(q),
        q.kind == FloatIntervalQuantKind::Wrap,
        0 <= i < q.n,
    ensures
        q.low <= grid_value(q, i).num < q.high,
{
    let r = (q.high - q.low) as int;
    let s = q.step as int;
    vstd::arithmetic::div_mod::lemma_fundamental_div_mod(r, s);
    vstd::arithmetic::div_mod::lemma_mod_division_less_than_divisor(r, s);
    assert(q.n * s <= r) by (nonlinear_arith)
        requires r == s * (q.n as int) + r % (s as int), r % (s as int) >= 0,
    ;
    vstd::arithmetic::mul::lemma_mul_inequality(i, q.n - 1, s);
    assert((q.n - 1) * s == q.n * s - s) by (nonlinear_arith);
    vstd::arithmetic::mul::lemma_mul_nonnegative(i, s);
}

/// Wrap encoding is periodic: shifting the input by any whole number of
/// periods `high - low` leaves the index unchanged. The shifted value
/// `v + k * (high - low) / scale` is written over the common denominator
/// `v.den * scale`.
pub proof fn lemma_wrap_periodic(q: QuantF, v: Rat, k: int)
    requires
        quantf_wf(q),
        rat_wf(v),
        q.kind == FloatIntervalQuantKind::Wrap,
    ensures
        wrap_index(
            q,
            v.num * q.scale + k * (q.high - q.low) * v.den,
            v.den * q.scale,
        ) == wrap_index(q, v.num as int, v.den as int),
{
    let sc = q.scale as int;
    let vd = v.den as int;
    let vn = v.num as int;
    let r = (q.high - q.low) as int;
    let s = q.step as int;
    let x = vn * sc - q.low * vd;
    let m = r * vd;
    vstd::arithmetic::mul::lemma_mul_strictly_positive(r, vd);
    vstd::arithmetic::mul::lemma_mul_strictly_positive(vd, sc);
    vstd::arithmetic::mul::lemma_mul_strictly_positive(vd, s);
    // the scaled representation (vn*sc, vd*sc) has offset sc*x and period sc*m
    let wn = vn * sc + k * r * vd;
    let wd = vd * sc;
    let x2 = wn * sc - q.low * wd;
    let m2 = r * wd;
    assert(x2 == sc * x + (k * m) * sc) by (nonlinear_arith)
        requires
            x2 == (vn * sc + k * r * vd) * sc - q.low * (vd * sc),
            x == vn * sc - q.low * vd,
            m == r * vd,
    ;
    assert(m2 == sc * m) by (nonlinear_arith)
        requires m2 == r * (vd * sc), m == r * vd,
    ;
    // drop the whole periods, then cancel the common factor sc
    vstd::arithmetic::mul::lemma_mul_strictly_positive(r, wd);
    assert(x2 % m2 == (sc * x) % (sc * m)) by {
        assert(x2 == m2 * k + sc * x) by (nonlinear_arith)
            requires x2 == sc * x + (k * m) * sc, m2 == sc * m,
        ;
        vstd::arithmetic::div_mod::lemma_mod_multiples_vanish(k, sc * x, m2);
    };
    crate::rat::lemma_mod_scale(sc, x, m);
    assert(x2 % m2 == sc * (x % m));
    let rr = x % m;
    vstd::arithmetic::div_mod::lemma_mod_division_less_than_divisor(x, m);
    // the rounded division also cancels the factor sc
    assert(wd * s == sc * (vd * s)) by (nonlinear_arith)
        requires wd == vd * sc,
    ;
    crate::rat::lemma_round_div_scale(sc, rr, vd * s);
    assert(round_div_spec(x2 % m2, wd * s) == round_div_spec(rr, vd * s));
}

/// A validated inclusive integer bound. `n = high - low + 1` values,
/// `bits` the minimal width holding an offset below `n`.
#[derive(Clone, Copy, Debug, PartialEq, Eq, Structural)]
pub struct IntBoundSpec {
    pub low: i128,
    pub high: i128,
    pub n: i128,
    pub bits: u32,
}

/// Validity of an integer bound: bounds within the widest base integer
/// kind, a non-empty range, and a minimal bit width.
pub open spec fn intbound_wf(b: IntBoundSpec) -> bool {
    &&& -0x8000_0000_0000_0000 <= b.low <= b.high <= 0xFFFF_FFFF_FFFF_FFFF
    &&& b.high - b.low + 1 <= 0x1_0000_0000_0000_0000
    &&& b.n == b.high - b.low + 1
    &&& bits_minimal(b.n as int, b.bits)
}

impl IntBoundSpec {
    /// Validate an inclusive integer range and derive its level count and
    /// bit width.
    pub fn new(low: i128, high: i128) -> (r: IntBoundSpec)
        requires
            -0x8000_0000_0000_0000 <= low <= high <= 0xFFFF_FFFF_FFFF_FFFF,
            high - low + 1 <= 0x1_0000_0000_0000_0000,
        ensures
            intbound_wf(r),
            r.low == low,
            r.high == high,
    {
        let n: i128 = high - low + 1;
        let bits: u32 = bits_for(n as u128);
        IntBoundSpec { low, high, n, bits }
    }

    /// Encode a bounded integer: the offset from `low`, exactly when the
    /// value lies inside the bound; a hard error otherwise (bounded
    /// integers do not saturate).
    pub fn encode(&self, v: i128) -> (r: Result<u64, Error>)
        requires
            intbound_wf(*self),
        ensures
            self.low <= v <= self.high ==> r == Ok::<u64, Error>((v - self.low) as u64),
            !(self.low <= v <= self.high)
                ==> r == Err::<u64, Error>(Error {
                    kind: ErrorKind::ValueOutOfBound,
                    item: 0,
                }),
    {
        if self.low <= v && v <= self.high {
            Ok((v - self.low) as u64)
        } else {
            Err(Error { kind: ErrorKind::ValueOutOfBound, item: 0 })
        }
    }

    /// Decode an index back to the bounded integer `low + i`.
    pub fn decode(&self, i: u64) -> (v: i128)
        requires
            intbound_wf(*self),
            i < self.n,
        ensures
            v == self.low + i,
            self.low <= v <= self.high,
    {
        self.low + (i as i128)
    }
}

/// Bounded integers round-trip exactly on every value inside the bound,
/// and encoding fails exactly on the values outside it.
pub proof fn lemma_bound_round_trip(b: IntBoundSpec, v: i128)
    requires
        intbound_wf(b),
    ensures
        b.low <= v <= b.high ==> {
            let i = (v - b.low) as u64;
            i < b.n && b.low + i == v
        },
{
}

} // verus!
