use wiregen::attr::{build_interval, build_bound, PrimIntKind};
use wiregen::literal::Dec;
use wiregen::quant::{FloatIntervalQuantKind, IntBoundSpec, QuantF, bits_for};
use wiregen::rat::Rat;
use wiregen::quant::{encode_interval, decode_interval};
use wiregen::error::ErrorKind;

fn lin(low: &str, high: &str, step: &str) -> QuantF {
    build_interval(
        &wiregen::literal::parse_literal(low.as_bytes()).unwrap(),
        &wiregen::literal::parse_literal(high.as_bytes()).unwrap(),
        &wiregen::literal::parse_literal(step.as_bytes()).unwrap(),
        FloatIntervalQuantKind::Linspace,
    )
    .unwrap()
}

fn wrap(low: &str, high: &str, step: &str) -> QuantF {
    build_interval(
        &wiregen::literal::parse_literal(low.as_bytes()).unwrap(),
        &wiregen::literal::parse_literal(high.as_bytes()).unwrap(),
        &wiregen::literal::parse_literal(step.as_bytes()).unwrap(),
        FloatIntervalQuantKind::Wrap,
    )
    .unwrap()
}

#[test]
fn bits_for_is_minimal() {
    assert_eq!(bits_for(1), 0);
    assert_eq!(bits_for(2), 1);
    assert_eq!(bits_for(3), 2);
    assert_eq!(bits_for(4), 2);
    assert_eq!(bits_for(5), 3);
    assert_eq!(bits_for(628), 10);
    assert_eq!(bits_for(1024), 10);
    assert_eq!(bits_for(1025), 11);
    assert_eq!(bits_for(1 << 63), 63);
}

#[test]
fn linspace_unit_interval_three_levels() {
    // low 0, high 1, step 1/2: three levels over two bits
    let q = lin("0", "1", "0.5");
    assert_eq!(q.n, 3);
    assert_eq!(q.bits, 2);
    // 0.26 rounds to the middle level
    let idx = encode_interval(&q, &Rat::new(26, 100));
    assert_eq!(idx, 1);
    let back = decode_interval(&q, 1);
    // 5/10 == 1/2
    assert_eq!(back.num * 2, back.den);
}

#[test]
fn linspace_reproduces_endpoints() {
    let q = lin("0", "1", "0.5");
    let low_idx = encode_interval(&q, &Rat::new(0, 1));
    assert_eq!(low_idx, 0);
    let lv = decode_interval(&q, low_idx);
    assert_eq!(lv.num, 0);
    let high_idx = encode_interval(&q, &Rat::new(1, 1));
    assert_eq!(high_idx, 2);
    let hv = decode_interval(&q, high_idx);
    assert_eq!(hv.num, hv.den); // exactly one
}

#[test]
fn linspace_clamps_out_of_range() {
    let q = lin("0", "1", "0.5");
    assert_eq!(encode_interval(&q, &Rat::new(-5, 1)), 0);
    assert_eq!(encode_interval(&q, &Rat::new(7, 1)), 2);
}

#[test]
fn linspace_error_within_one_step() {
    let q = lin("0", "1", "0.1");
    assert_eq!(q.n, 11);
    for num in 0..=100i128 {
        let v = Rat::new(num, 100);
        let idx = encode_interval(&q, &v);
        let g = decode_interval(&q, idx);
        // |g - v| <= 1/10, cross-multiplied over positive denominators
        let diff = g.num * v.den - v.num * g.den;
        let bound = g.den * v.den / 10;
        assert!(diff.abs() <= bound);
    }
}

#[test]
fn wrap_level_count_drops_aliased_endpoint() {
    // the full turn in hundredths of a radian
    let q = wrap("0", "6.28318", "0.01");
    assert_eq!(q.n, 628);
    assert_eq!(q.bits, 10);
}

#[test]
fn wrap_decodes_into_half_open_interval() {
    let q = wrap("0", "1", "0.25");
    assert_eq!(q.n, 4);
    for num in -30..30i128 {
        let idx = encode_interval(&q, &Rat::new(num, 7));
        let g = decode_interval(&q, idx);
        assert!(g.num >= 0);
        assert!(g.num < g.den); // inside [0, 1)
    }
}

#[test]
fn wrap_is_periodic() {
    let q = wrap("0", "1", "0.25");
    for num in 0..20i128 {
        let v = Rat::new(num, 21);
        let plus_one = Rat::new(num + 21, 21);
        let plus_three = Rat::new(num + 63, 21);
        let minus_two = Rat::new(num - 42, 21);
        let i = encode_interval(&q, &v);
        assert_eq!(encode_interval(&q, &plus_one), i);
        assert_eq!(encode_interval(&q, &plus_three), i);
        assert_eq!(encode_interval(&q, &minus_two), i);
    }
}

#[test]
fn bound_four_bits_for_one_to_ten() {
    let d1 = Dec { mant: 1, exp: 0 };
    let d10 = Dec { mant: 10, exp: 0 };
    let b = build_bound(&d1, &d10, &PrimIntKind::U8).unwrap();
    assert_eq!(b.n, 10);
    assert_eq!(b.bits, 4);
}

#[test]
fn bound_encode_fails_outside_range() {
    let b = IntBoundSpec::new(1, 10);
    let err = b.encode(11).unwrap_err();
    assert_eq!(err.kind, ErrorKind::ValueOutOfBound);
    assert_eq!(b.encode(0).unwrap_err().kind, ErrorKind::ValueOutOfBound);
}

#[test]
fn bound_round_trips_every_value() {
    let b = IntBoundSpec::new(-3, 12);
    for v in -3..=12i128 {
        let i = b.encode(v).unwrap();
        assert_eq!(b.decode(i), v);
    }
}

#[test]
fn bound_rejects_literals_outside_base_kind() {
    let d1 = Dec { mant: 1, exp: 0 };
    let d300 = Dec { mant: 300, exp: 0 };
    assert!(build_bound(&d1, &d300, &PrimIntKind::U8).is_err());
    assert!(build_bound(&d1, &d300, &PrimIntKind::U16).is_ok());
    let dneg = Dec { mant: -1, exp: 0 };
    assert!(build_bound(&dneg, &d1, &PrimIntKind::U8).is_err());
    assert!(build_bound(&dneg, &d1, &PrimIntKind::I8).is_ok());
    // a fractional bound is no integer
    let dfrac = Dec { mant: 15, exp: -1 };
    assert!(build_bound(&dfrac, &d300, &PrimIntKind::U16).is_err());
    // a scaled integer is one
    let dscaled = Dec { mant: 100, exp: -2 };
    assert!(build_bound(&dscaled, &d300, &PrimIntKind::U16).is_ok());
}

#[test]
fn interval_rejects_bad_parameters() {
    let d = |s: &str| wiregen::literal::parse_literal(s.as_bytes()).unwrap();
    // empty interval
    assert!(build_interval(&d("1"), &d("1"), &d("0.5"), FloatIntervalQuantKind::Linspace).is_err());
    assert!(build_interval(&d("2"), &d("1"), &d("0.5"), FloatIntervalQuantKind::Linspace).is_err());
    // zero or negative step
    assert!(build_interval(&d("0"), &d("1"), &d("0"), FloatIntervalQuantKind::Linspace).is_err());
    assert!(build_interval(&d("0"), &d("1"), &d("-0.5"), FloatIntervalQuantKind::Linspace).is_err());
    // a wrap step wider than the whole period leaves no level
    assert!(build_interval(&d("0"), &d("1"), &d("2"), FloatIntervalQuantKind::Wrap).is_err());
    // the same step is fine for a clamping quantizer
    assert!(build_interval(&d("0"), &d("1"), &d("2"), FloatIntervalQuantKind::Linspace).is_ok());
}
