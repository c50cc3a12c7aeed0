use wiregen::literal::{parse_literal, Dec};

#[test]
fn parses_plain_integer() {
    assert_eq!(parse_literal(b"42"), Some(Dec { mant: 42, exp: 0 }));
    assert_eq!(parse_literal(b"0"), Some(Dec { mant: 0, exp: 0 }));
    assert_eq!(parse_literal(b"+7"), Some(Dec { mant: 7, exp: 0 }));
    assert_eq!(parse_literal(b"-13"), Some(Dec { mant: -13, exp: 0 }));
}

#[test]
fn parses_decimal_fraction() {
    assert_eq!(parse_literal(b"0.5"), Some(Dec { mant: 5, exp: -1 }));
    assert_eq!(parse_literal(b"6.28318"), Some(Dec { mant: 628318, exp: -5 }));
    assert_eq!(parse_literal(b"-1.25"), Some(Dec { mant: -125, exp: -2 }));
}

#[test]
fn parses_scientific_notation() {
    assert_eq!(parse_literal(b"1e4"), Some(Dec { mant: 1, exp: 4 }));
    assert_eq!(parse_literal(b"-1.2e4"), Some(Dec { mant: -12, exp: 3 }));
    assert_eq!(parse_literal(b"2.5E-3"), Some(Dec { mant: 25, exp: -4 }));
    assert_eq!(parse_literal(b"3e+2"), Some(Dec { mant: 3, exp: 2 }));
}

#[test]
fn rejects_malformed_literals() {
    assert_eq!(parse_literal(b""), None);
    assert_eq!(parse_literal(b"abc"), None);
    assert_eq!(parse_literal(b"1."), None);
    assert_eq!(parse_literal(b".5"), None);
    assert_eq!(parse_literal(b"--3"), None);
    assert_eq!(parse_literal(b"1e"), None);
    assert_eq!(parse_literal(b"1e+"), None);
    assert_eq!(parse_literal(b"1x2"), None);
    assert_eq!(parse_literal(b"1 "), None);
}

#[test]
fn resolves_wide_exponents_exactly() {
    assert_eq!(parse_literal(b"1e40"), Some(Dec { mant: 1, exp: 40 }));
    assert_eq!(parse_literal(b"-1.2e40"), Some(Dec { mant: -12, exp: 39 }));
    assert_eq!(parse_literal(b"1e-40"), Some(Dec { mant: 1, exp: -40 }));
    assert_eq!(parse_literal(b"1e308"), Some(Dec { mant: 1, exp: 308 }));
}

#[test]
fn rejects_out_of_range_constants() {
    // a mantissa beyond nineteen significant digits cannot be held
    // exactly
    assert_eq!(parse_literal(b"10000000000000000000"), None);
    // an exponent beyond any floating-point range
    assert_eq!(parse_literal(b"1e2000000000"), None);
    // the largest admissible magnitudes still parse
    assert_eq!(
        parse_literal(b"1000000000000000000"),
        Some(Dec { mant: 1_000_000_000_000_000_000, exp: 0 })
    );
    assert_eq!(parse_literal(b"1e18"), Some(Dec { mant: 1, exp: 18 }));
}

#[test]
fn keeps_trailing_zeros_exact() {
    assert_eq!(parse_literal(b"1.50"), Some(Dec { mant: 150, exp: -2 }));
    assert_eq!(parse_literal(b"100e-2"), Some(Dec { mant: 100, exp: -2 }));
}
