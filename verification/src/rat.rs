//! Exact rational values.
//!
//! Quantization bounds and runtime scalar values are exact rationals: a
//! numerator over a positive denominator, both machine integers. All
//! quantization arithmetic is integer arithmetic on these pairs, so encode
//! and decode transforms can be stated and proved exactly.

use vstd::prelude::*;
use vstd::arithmetic::div_mod::{
    lemma_fundamental_div_mod, lemma_fundamental_div_mod_converse_mod,
};

verus! {

/// Largest admitted denominator and largest admitted scaled quantization
/// parameter: ten to the eighteenth.
pub const SCALE_MAX: i128 = 1_000_000_000_000_000_000;

/// Largest admitted numerator magnitude of a runtime rational value.
pub const NUM_MAX: i128 = 4_000_000_000_000_000_000;

/// An exact rational number `num / den`.
#[derive(Clone, Copy, Debug, PartialEq, Eq, Structural)]
pub struct Rat {
    pub num: i128,
    pub den: i128,
}

/// Well-formedness: positive bounded denominator, bounded numerator.
/// The bounds keep every product formed by the quantization engine inside
/// the `i128` range.
pub open spec fn rat_wf(r: Rat) -> bool {
    0 < r.den <= SCALE_MAX && -NUM_MAX <= r.num <= NUM_MAX
}

/// `a` and `b` denote the same rational number (cross multiplication;
/// both denominators positive).
pub open spec fn rat_eq(a: Rat, b: Rat) -> bool {
    a.num * b.den == b.num * a.den
}

/// `a <= b` as rational numbers (both denominators positive).
pub open spec fn rat_le(a: Rat, b: Rat) -> bool {
    a.num * b.den <= b.num * a.den
}

impl Rat {
    /// Build a rational from a numerator and a positive denominator.
    pub fn new(num: i128, den: i128) -> (r: Rat)
        requires
            0 < den <= SCALE_MAX,
            -NUM_MAX <= num <= NUM_MAX,
        ensures
            r.num == num,
            r.den == den,
            rat_wf(r),
    {
        Rat { num, den }
    }

    /// Decide `self <= other` as rational numbers.
    pub fn le(&self, other: &Rat) -> (b: bool)
        requires
            rat_wf(*self),
            rat_wf(*other),
        ensures
            b == rat_le(*self, *other),
    {
        proof {
            lemma_mul_bound(self.num as int, NUM_MAX as int, other.den as int, SCALE_MAX as int);
            lemma_mul_bound(other.num as int, NUM_MAX as int, self.den as int, SCALE_MAX as int);
        }
        self.num * other.den <= other.num * self.den
    }
}

/// Ten to the power `e`.
pub open spec fn pow10(e: nat) -> int
    decreases e,
{
    if e == 0 {
        1
    } else {
        10 * pow10((e - 1) as nat)
    }
}

/// Powers of ten are positive and do not decrease with the exponent.
pub proof fn lemma_pow10_pos(e: nat)
    ensures
        pow10(e) >= 1,
    decreases e,
{
    if e > 0 {
        lemma_pow10_pos((e - 1) as nat);
    }
}

/// Powers of ten do not decrease with the exponent.
pub proof fn lemma_pow10_mono(a: nat, b: nat)
    requires
        a <= b,
    ensures
        pow10(a) <= pow10(b),
    decreases b - a,
{
    if a < b {
        lemma_pow10_mono(a, (b - 1) as nat);
        lemma_pow10_pos((b - 1) as nat);
    }
}

/// The concrete values of the powers of ten the library's bounds use.
pub proof fn lemma_pow10_literal()
    ensures
        pow10(18) == 1_000_000_000_000_000_000,
        pow10(19) == 10_000_000_000_000_000_000,
        pow10(20) == 100_000_000_000_000_000_000,
        pow10(36) == 1_000_000_000_000_000_000_000_000_000_000_000_000,
        pow10(37) == 10_000_000_000_000_000_000_000_000_000_000_000_000,
{
    reveal_with_fuel(pow10, 40);
}

/// Ten to the power `e`, executable up to the largest exponent the
/// library admits in scaled arithmetic.
pub fn pow10_i128(e: u32) -> (r: i128)
    requires
        e <= 36,
    ensures
        r == pow10(e as nat),
        1 <= r <= 1_000_000_000_000_000_000_000_000_000_000_000_000,
{
    proof {
        lemma_pow10_literal();
        lemma_pow10_pos(e as nat);
        lemma_pow10_mono(e as nat, 36);
    }
    let mut r: i128 = 1;
    let mut k: u32 = 0;
    while k < e
        invariant
            k <= e <= 36,
            r == pow10(k as nat),
            1 <= r,
            pow10(e as nat) <= 1_000_000_000_000_000_000_000_000_000_000_000_000,
        decreases e - k,
    {
        proof {
            lemma_pow10_literal();
            lemma_pow10_mono((k + 1) as nat, e as nat);
            lemma_pow10_pos(k as nat);
        }
        r = r * 10;
        k = k + 1;
    }
    r
}

/// A product of values bounded in magnitude is bounded by the product of
/// the bounds.
pub proof fn lemma_mul_bound(x: int, bx: int, y: int, by: int)
    requires
        -bx <= x <= bx,
        -by <= y <= by,
    ensures
        -(bx * by) <= x * y <= bx * by,
{
    assert(-(bx * by) <= x * y <= bx * by) by (nonlinear_arith)
        requires
            -bx <= x <= bx,
            -by <= y <= by,
    ;
}

/// Rounded division, half away from zero, for a non-negative numerator:
/// the integer nearest to `a / b`, ties upward.
pub open spec fn round_div_spec(a: int, b: int) -> int {
    (2 * a + b) / (2 * b)
}

/// Euclidean remainder and rounded division as executable `i128` operations.
/// Division is performed on `u128` magnitudes, where the machine quotient
/// coincides with the mathematical (Euclidean) one.
pub fn round_div(a: i128, b: i128) -> (q: i128)
    requires
        0 <= a,
        0 < b < 0x4000_0000_0000_0000_0000_0000_0000_0000,
        2 * a + b < 0x8000_0000_0000_0000_0000_0000_0000_0000,
    ensures
        q == round_div_spec(a as int, b as int),
        0 <= q,
{
    let x: u128 = (2 * a + b) as u128;
    let y: u128 = (2 * b) as u128;
    let q: u128 = x / y;
    proof {
        vstd::arithmetic::div_mod::lemma_div_pos_is_pos(2 * a + b, 2 * b);
    }
    q as i128
}

/// Euclidean remainder `a mod m` for a possibly negative `a`: the result
/// always lies in `[0, m)`.
pub fn euclid_mod(a: i128, m: i128) -> (r: i128)
    requires
        0 < m,
        -0x4000_0000_0000_0000_0000_0000_0000_0000 < a
            < 0x4000_0000_0000_0000_0000_0000_0000_0000,
        m < 0x4000_0000_0000_0000_0000_0000_0000_0000,
    ensures
        r == (a as int) % (m as int),
        0 <= r < m,
{
    let mu: u128 = m as u128;
    if a >= 0 {
        let r: u128 = (a as u128) % mu;
        proof {
            assert(a as u128 == a as int);
            assert(r == (a as int) % (m as int));
        }
        r as i128
    } else {
        let mag: u128 = (-a) as u128;
        let rm: u128 = mag % mu;
        let qm: u128 = mag / mu;
        proof {
            lemma_fundamental_div_mod(mag as int, mu as int);
            assert(mag as int == (qm as int) * (m as int) + rm as int)
                by (nonlinear_arith)
                requires
                    mag as int == (mu as int) * ((mag as int) / (mu as int))
                        + (mag as int) % (mu as int),
                    qm as int == (mag as int) / (mu as int),
                    rm as int == (mag as int) % (mu as int),
                    mu as int == m as int,
            ;
            if rm == 0 {
                assert(a as int == (-(qm as int)) * (m as int) + 0)
                    by (nonlinear_arith)
                    requires
                        mag as int == (qm as int) * (m as int) + rm as int,
                        rm as int == 0,
                        a as int == -(mag as int),
                ;
                lemma_fundamental_div_mod_converse_mod(
                    a as int, m as int, -(qm as int), 0,
                );
            } else {
                assert(a as int == (-(qm as int) - 1) * (m as int) + ((m as int) - (rm as int)))
                    by (nonlinear_arith)
                    requires
                        mag as int == (qm as int) * (m as int) + rm as int,
                        a as int == -(mag as int),
                ;
                vstd::arithmetic::div_mod::lemma_mod_division_less_than_divisor(
                    mag as int, mu as int,
                );
                lemma_fundamental_div_mod_converse_mod(
                    a as int, m as int, -(qm as int) - 1, m - rm,
                );
            }
        }
        if rm == 0 {
            0
        } else {
            m - (rm as i128)
        }
    }
}

/// Euclidean quotient and remainder of `a` by a positive `m`, both exact.
pub fn div_mod_floor(a: i128, m: i128) -> (r: (i128, i128))
    requires
        0 < m,
        -0x4000_0000_0000_0000_0000_0000_0000_0000 < a
            < 0x4000_0000_0000_0000_0000_0000_0000_0000,
        m < 0x4000_0000_0000_0000_0000_0000_0000_0000,
    ensures
        r.0 == (a as int) / (m as int),
        r.1 == (a as int) % (m as int),
        0 <= r.1 < m,
{
    let rem = euclid_mod(a, m);
    let t = a - rem;
    proof {
        lemma_fundamental_div_mod(a as int, m as int);
        let q = (a as int) / (m as int);
        assert(t == m * q);
        if t >= 0 {
            assert((t as int) / (m as int) == q) by {
                vstd::arithmetic::div_mod::lemma_fundamental_div_mod_converse_div(
                    t as int, m as int, q, 0,
                );
                assert(t == q * (m as int) + 0) by (nonlinear_arith)
                    requires t == (m as int) * q,
                ;
            };
        } else {
            let nt = -(t as int);
            assert(nt == (-q) * (m as int) + 0) by (nonlinear_arith)
                requires t == (m as int) * q, nt == -(t as int),
            ;
            vstd::arithmetic::div_mod::lemma_fundamental_div_mod_converse_div(
                nt, m as int, -q, 0,
            );
            assert(nt / (m as int) == -q);
        }
    }
    let q: i128 = if t >= 0 {
        ((t as u128) / (m as u128)) as i128
    } else {
        -((((-t) as u128) / (m as u128)) as i128)
    };
    (q, rem)
}

/// The rounding error of `round_div_spec` is at most half the divisor:
/// `|a - q * b| * 2 <= b`.
pub proof fn lemma_round_div_err(a: int, b: int)
    requires
        0 < b,
    ensures
        -b <= 2 * (a - round_div_spec(a, b) * b) <= b,
{
    let q = round_div_spec(a, b);
    lemma_fundamental_div_mod(2 * a + b, 2 * b);
    let r = (2 * a + b) % (2 * b);
    vstd::arithmetic::div_mod::lemma_mod_division_less_than_divisor(2 * a + b, 2 * b);
    assert(2 * a + b == 2 * b * q + r);
    assert(2 * (a - q * b) == r - b) by (nonlinear_arith)
        requires 2 * a + b == 2 * b * q + r,
    ;
}

/// Quotients are invariant under scaling numerator and divisor by the
/// same positive factor.
pub proof fn lemma_div_scale(t: int, a: int, b: int)
    requires
        0 < t,
        0 < b,
    ensures
        (t * a) / (t * b) == a / b,
{
    lemma_fundamental_div_mod(a, b);
    vstd::arithmetic::div_mod::lemma_mod_division_less_than_divisor(a, b);
    let q = a / b;
    let r = a % b;
    assert(t * a == q * (t * b) + t * r) by (nonlinear_arith)
        requires a == b * q + r,
    ;
    assert(0 <= t * r && t * r < t * b) by (nonlinear_arith)
        requires 0 < t, 0 <= r < b,
    ;
    vstd::arithmetic::div_mod::lemma_fundamental_div_mod_converse_div(
        t * a, t * b, q, t * r,
    );
}

/// Remainders scale with the numerator and modulus.
pub proof fn lemma_mod_scale(t: int, a: int, m: int)
    requires
        0 < t,
        0 < m,
    ensures
        (t * a) % (t * m) == t * (a % m),
{
    lemma_fundamental_div_mod(a, m);
    vstd::arithmetic::div_mod::lemma_mod_division_less_than_divisor(a, m);
    let q = a / m;
    let r = a % m;
    assert(t * a == q * (t * m) + t * r) by (nonlinear_arith)
        requires a == m * q + r,
    ;
    assert(0 <= t * r && t * r < t * m) by (nonlinear_arith)
        requires 0 < t, 0 <= r < m,
    ;
    lemma_fundamental_div_mod_converse_mod(t * a, t * m, q, t * r);
}

/// Rounded division is invariant under scaling by a positive factor.
pub proof fn lemma_round_div_scale(t: int, a: int, b: int)
    requires
        0 < t,
        0 < b,
    ensures
        round_div_spec(t * a, t * b) == round_div_spec(a, b),
{
    assert(2 * (t * a) + t * b == t * (2 * a + b)) by (nonlinear_arith);
    assert(2 * (t * b) == t * (2 * b)) by (nonlinear_arith);
    lemma_div_scale(t, 2 * a + b, 2 * b);
}

} // verus!
