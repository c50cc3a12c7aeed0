//! Numeric constant resolver.
//!
//! Attribute parameters arrive as the bytes of a string literal and must
//! denote an exact decimal or scientific constant. A parsed constant is a
//! `Dec`: a mantissa and a power-of-ten exponent, `mant * 10^exp`, held
//! exactly. A literal that does not match the grammar, or whose mantissa
//! or exponent leaves the library's exact range, is rejected.

use vstd::prelude::*;
use crate::rat::{pow10, lemma_pow10_pos, lemma_pow10_mono, lemma_pow10_literal, pow10_i128, SCALE_MAX};

verus! {

/// An exact decimal constant `mant * 10^exp`.
#[derive(Clone, Copy, Debug, PartialEq, Eq, Structural)]
pub struct Dec {
    pub mant: i128,
    pub exp: i32,
}

/// The largest exponent magnitude a resolved constant may carry: far
/// beyond any binary floating-point range, so only the mantissa precision
/// bounds what the resolver accepts.
pub const EXP_MAX: i32 = 1_000_000_000;

/// The exact range of constants the resolver holds: at most nineteen
/// significant digits — more could not be held exactly by the scaled
/// integer arithmetic the quantizer runs on — and a decimal exponent
/// within `EXP_MAX`.
pub open spec fn dec_in_range(m: int, e: int) -> bool {
    &&& -SCALE_MAX <= m <= SCALE_MAX
    &&& -EXP_MAX <= e <= EXP_MAX
}

/// The byte is an ASCII decimal digit.
pub open spec fn is_digit(c: u8) -> bool {
    48 <= c <= 57
}

/// Length of the maximal digit run starting at `i`.
pub open spec fn digit_run(s: Seq<u8>, i: int) -> int
    decreases s.len() - i,
{
    if 0 <= i < s.len() && is_digit(s[i]) {
        1 + digit_run(s, i + 1)
    } else {
        0
    }
}

/// The decimal value of the digit bytes `s[i..j]`.
pub open spec fn digits_value(s: Seq<u8>, i: int, j: int) -> int
    decreases j - i,
{
    if i < j {
        digits_value(s, i, j - 1) * 10 + (s[j - 1] - 48)
    } else {
        0
    }
}

/// The exact value of a decimal/scientific literal: an optional sign, an
/// integer digit run, an optional fraction after a point, an optional
/// signed exponent after `e` or `E`, nothing else. The value is the pair
/// (mantissa, power-of-ten exponent); a malformed literal is `None`.
pub open spec fn spec_parse_literal(s: Seq<u8>) -> Option<(int, int)> {
    let neg: bool = s.len() > 0 && s[0] == 45;
    let i0: int = if s.len() > 0 && (s[0] == 45 || s[0] == 43) { 1 } else { 0 };
    let dlen = digit_run(s, i0);
    if dlen == 0 {
        None
    } else {
        let i1 = i0 + dlen;
        let ival = digits_value(s, i0, i1);
        if i1 < s.len() && s[i1] == 46 {
            let flen = digit_run(s, i1 + 1);
            if flen == 0 {
                None
            } else {
                spec_parse_exponent(s, neg, ival, flen, digits_value(s, i1 + 1, i1 + 1 + flen), i1 + 1 + flen)
            }
        } else {
            spec_parse_exponent(s, neg, ival, 0, 0, i1)
        }
    }
}

/// The signed mantissa `ival * 10^flen + fval`, negated when the literal
/// carries a minus sign.
pub open spec fn signed_mant(neg: bool, ival: int, flen: int, fval: int) -> int {
    if neg {
        -(ival * pow10(flen as nat) + fval)
    } else {
        ival * pow10(flen as nat) + fval
    }
}

/// The optional exponent part starting at `i2`, combined with the already
/// parsed sign, integer and fraction parts.
pub open spec fn spec_parse_exponent(
    s: Seq<u8>,
    neg: bool,
    ival: int,
    flen: int,
    fval: int,
    i2: int,
) -> Option<(int, int)> {
    if i2 < s.len() && (s[i2] == 101 || s[i2] == 69) {
        let eneg: bool = i2 + 1 < s.len() && s[i2 + 1] == 45;
        let j0: int = if i2 + 1 < s.len() && (s[i2 + 1] == 45 || s[i2 + 1] == 43) {
            i2 + 2
        } else {
            i2 + 1
        };
        let elen = digit_run(s, j0);
        if elen == 0 || j0 + elen != s.len() {
            None
        } else {
            let ev = digits_value(s, j0, j0 + elen);
            Some((signed_mant(neg, ival, flen, fval), (if eneg { -ev } else { ev }) - flen))
        }
    } else if i2 == s.len() {
        Some((signed_mant(neg, ival, flen, fval), -flen))
    } else {
        None
    }
}

/// A digit run ends exactly at the first non-digit (or the end).
proof fn lemma_digit_run_exact(s: Seq<u8>, i: int, j: int)
    requires
        0 <= i <= j <= s.len(),
        forall|k: int| i <= k < j ==> is_digit(s[k]),
        j == s.len() || !is_digit(s[j]),
    ensures
        digit_run(s, i) == j - i,
    decreases j - i,
{
    if i < j {
        lemma_digit_run_exact(s, i + 1, j);
    }
}

/// Digit values are non-negative.
proof fn lemma_digits_value_nonneg(s: Seq<u8>, i: int, j: int)
    requires
        0 <= i,
        j <= s.len(),
        forall|k: int| i <= k < j ==> is_digit(s[k]),
    ensures
        digits_value(s, i, j) >= 0,
    decreases j - i,
{
    if i < j {
        lemma_digits_value_nonneg(s, i, j - 1);
    }
}

/// Extending a digit run to the right never shrinks its value.
proof fn lemma_digits_value_mono(s: Seq<u8>, i: int, j: int, j2: int)
    requires
        0 <= i,
        j <= j2,
        j2 <= s.len(),
        forall|k: int| i <= k < j2 ==> is_digit(s[k]),
    ensures
        digits_value(s, i, j) <= digits_value(s, i, j2),
    decreases j2 - j,
{
    if j < j2 {
        lemma_digits_value_mono(s, i, j, j2 - 1);
        lemma_digits_value_nonneg(s, i, j2 - 1);
    }
}

/// The largest digit value the scanner tracks exactly: anything above it
/// is out of the library's range whatever the rest of the literal says.
const SCAN_CAP: i128 = 20_000_000_000_000_000_000;

/// Scan the maximal digit run from `start`: its end, its exact value while
/// that value stays within `SCAN_CAP`, and an overflow flag once it does
/// not.
fn scan_digits(bs: &[u8], start: usize) -> (res: (usize, i128, bool))
    requires
        start <= bs@.len(),
    ensures
        ({
            let (end, val, ovf) = res;
            &&& end - start == digit_run(bs@, start as int)
            &&& start <= end <= bs@.len()
            &&& (!ovf ==> val == digits_value(bs@, start as int, end as int)
                && 0 <= val <= SCAN_CAP)
            &&& (ovf ==> digits_value(bs@, start as int, end as int) > SCAN_CAP)
            &&& forall|k: int| start <= k < end ==> is_digit(bs@[k])
        }),
{
    let ghost s = bs@;
    let mut i: usize = start;
    let mut acc: i128 = 0;
    let mut ovf: bool = false;
    while i < bs.len() && 48 <= bs[i] && bs[i] <= 57
        invariant
            start <= i <= s.len(),
            bs@ == s,
            forall|k: int| start <= k < i ==> is_digit(s[k]),
            !ovf ==> acc == digits_value(s, start as int, i as int) && 0 <= acc <= SCAN_CAP,
            ovf ==> digits_value(s, start as int, i as int) > SCAN_CAP,
        decreases s.len() - i,
    {
        let c = bs[i];
        proof {
            lemma_digits_value_nonneg(s, start as int, i as int);
            if ovf {
                lemma_digits_value_mono(s, start as int, i as int, i + 1 as int);
            }
        }
        if !ovf {
            acc = acc * 10 + ((c - 48) as i128);
            if acc > SCAN_CAP {
                ovf = true;
                acc = 0;
            }
        }
        i = i + 1;
    }
    proof {
        lemma_digit_run_exact(s, start as int, i as int);
    }
    (i, acc, ovf)
}

/// Parse the bytes of a numeric string literal into an exact decimal
/// constant. Returns `None` exactly when the bytes do not match the
/// literal grammar or the constant leaves the library's exact range.
#[verifier::rlimit(80)]
pub fn parse_literal(bs: &[u8]) -> (r: Option<Dec>)
    ensures
        ({
            let p = spec_parse_literal(bs@);
            match r {
                Some(d) => p == Some((d.mant as int, d.exp as int))
                    && dec_in_range(d.mant as int, d.exp as int),
                None => match p {
                    Some(pair) => !dec_in_range(pair.0, pair.1),
                    None => true,
                },
            }
        }),
{
    let ghost s = bs@;
    let n = bs.len();
    let neg: bool = n > 0 && bs[0] == 45;
    let has_sign: bool = n > 0 && (bs[0] == 45 || bs[0] == 43);
    let i0: usize = if has_sign { 1 } else { 0 };
    let (i1, ival, iovf) = scan_digits(bs, i0);
    if i1 == i0 {
        return None;
    }
    // fraction
    let has_frac: bool = i1 < n && bs[i1] == 46;
    let (i2, fval, fovf, flen): (usize, i128, bool, usize) = if has_frac {
        let (f_end, f_val, f_ovf) = scan_digits(bs, i1 + 1);
        (f_end, f_val, f_ovf, f_end - (i1 + 1))
    } else {
        (i1, 0, false, 0)
    };
    if has_frac && flen == 0 {
        return None;
    }
    // exponent
    let has_exp: bool = i2 < n && (bs[i2] == 101 || bs[i2] == 69);
    let (esign_neg, j0): (bool, usize) = if has_exp {
        if i2 + 1 < n && (bs[i2 + 1] == 45 || bs[i2 + 1] == 43) {
            (bs[i2 + 1] == 45, i2 + 2)
        } else {
            (false, i2 + 1)
        }
    } else {
        (false, i2)
    };
    let (j1, ev, eovf): (usize, i128, bool) = if has_exp {
        let (e_end, e_val, e_ovf) = scan_digits(bs, j0);
        (e_end, e_val, e_ovf)
    } else {
        (j0, 0, false)
    };
    if has_exp && (j1 == j0 || j1 != n) {
        return None;
    }
    if !has_exp && i2 != n {
        return None;
    }
    proof {
        lemma_pow10_literal();
    }
    // the exponent: es * ev - flen, bounded to the library's range
    if eovf {
        // an exponent value beyond the cap exceeds any admissible
        // magnitude even after subtracting the fraction length
        proof {
            lemma_digits_value_nonneg(s, j0 as int, j1 as int);
        }
        return None;
    }
    let e: i128 = (if esign_neg { -ev } else { ev }) - (flen as i128);
    if e < -(EXP_MAX as i128) || e > EXP_MAX as i128 {
        return None;
    }
    // the mantissa: ival * 10^flen + fval, bounded to the library's range
    if iovf || fovf {
        // a mantissa part beyond the cap puts the whole mantissa out of
        // the library's range, whatever the other part holds
        proof {
            let iv = digits_value(s, i0 as int, i1 as int);
            let fv = if has_frac { digits_value(s, i1 + 1, i2 as int) } else { 0 };
            lemma_pow10_pos(flen as nat);
            lemma_digits_value_nonneg(s, i0 as int, i1 as int);
            if has_frac {
                lemma_digits_value_nonneg(s, i1 + 1, i2 as int);
            }
            assert(iv * pow10(flen as nat) + fv >= iv
                && iv * pow10(flen as nat) + fv >= fv) by (nonlinear_arith)
                requires iv >= 0, fv >= 0, pow10(flen as nat) >= 1,
            ;
        }
        return None;
    }
    if flen > 18 && ival > 0 {
        proof {
            lemma_pow10_mono(19, flen as nat);
            lemma_mant_ge_pow(ival as int, flen as nat, fval as int);
            lemma_digits_value_nonneg(s, i0 as int, i1 as int);
            if has_frac {
                lemma_digits_value_nonneg(s, i1 + 1, i2 as int);
            }
        }
        return None;
    }
    let mant0: i128 = if ival > 0 || flen <= 18 {
        proof {
            lemma_pow10_mono(flen as nat, 18);
        }
        let p = pow10_i128(flen as u32);
        proof {
            crate::rat::lemma_mul_bound(ival as int, SCAN_CAP as int, p as int, SCALE_MAX as int);
        }
        let prod = ival * p;
        prod + fval
    } else {
        // ival == 0 and a long fraction: the integer part contributes
        // nothing
        proof {
            lemma_pow10_pos(flen as nat);
            assert((ival as int) * pow10(flen as nat) == 0) by (nonlinear_arith)
                requires ival as int == 0,
            ;
        }
        fval
    };
    proof {
        lemma_pow10_pos(flen as nat);
        let iv = ival as int;
        assert(iv * pow10(flen as nat) >= 0) by (nonlinear_arith)
            requires iv >= 0, pow10(flen as nat) >= 1,
        ;
        assert(mant0 >= 0);
    }
    if mant0 > SCALE_MAX {
        return None;
    }
    let mant: i128 = if neg { -mant0 } else { mant0 };
    Some(Dec { mant, exp: e as i32 })
}

/// With a positive integer part, the mantissa is at least `10^flen`.
proof fn lemma_mant_ge_pow(ival: int, flen: nat, fval: int)
    requires
        ival >= 1,
        fval >= 0,
    ensures
        ival * pow10(flen) + fval >= pow10(flen),
{
    lemma_pow10_pos(flen);
    assert(ival * pow10(flen) >= pow10(flen)) by (nonlinear_arith)
        requires ival >= 1, pow10(flen) >= 1,
    ;
}

} // verus!
