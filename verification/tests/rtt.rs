use mullscan::rtt::{RTT_BITS_INFINITY, RTT_FRACTIONS};

#[test]
fn the_pattern_of_infinity() {
    assert_eq!(RTT_BITS_INFINITY, f64::INFINITY.to_bits());
    assert_eq!(RTT_BITS_INFINITY - 1, f64::MAX.to_bits());
    assert_eq!(RTT_FRACTIONS, 1u64 << 52);
    assert_eq!(RTT_FRACTIONS, f64::MIN_POSITIVE.to_bits());
}

#[test]
fn patterns_below_infinity_are_the_finite_times() {
    for time in [0.0, 5e-324, f64::MIN_POSITIVE, 0.2, 1.0, 10.523, 1e9, f64::MAX] {
        assert!(time.to_bits() < RTT_BITS_INFINITY, "{}", time);
    }
    for other in [f64::INFINITY, f64::NAN, -0.0, -5e-324, -1.0, f64::NEG_INFINITY] {
        assert!(other.to_bits() >= RTT_BITS_INFINITY, "{}", other);
    }
}

#[test]
fn the_order_of_the_patterns_is_the_order_of_the_times() {
    let times = [
        0.0,
        5e-324,
        1e-310,
        f64::MIN_POSITIVE,
        0.001,
        0.2,
        0.25,
        0.5,
        1.0,
        1.0000000000000002,
        2.0,
        10.523,
        10.9,
        255.0,
        256.0,
        1e9,
        1e300,
        f64::MAX,
    ];
    for a in times {
        for b in times {
            assert_eq!(a.to_bits() <= b.to_bits(), a <= b, "{} {}", a, b);
            assert_eq!(a.to_bits() == b.to_bits(), a == b, "{} {}", a, b);
        }
    }
}

#[test]
fn a_pattern_holds_the_time_in_its_exponent_and_fraction() {
    for time in [5e-324, 1e-310, f64::MIN_POSITIVE, 0.2, 1.0, 3.0, 10.523, 1e9] {
        let bits = time.to_bits();
        let exponent = (bits / RTT_FRACTIONS) as i32;
        let fraction = (bits % RTT_FRACTIONS) as f64;
        let value = if exponent == 0 {
            fraction * 2f64.powi(-1074)
        } else {
            (RTT_FRACTIONS as f64 + fraction) * 2f64.powi(exponent - 1075)
        };
        assert_eq!(value, time);
    }
}
