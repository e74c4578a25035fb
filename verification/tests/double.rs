use local_quota_widget::double::Double;

fn double(x: f64) -> Double {
    Double::from_bits(x.to_bits()).expect("a finite number")
}

/// Numbers of all magnitudes and both signs, and the edges of the format.
fn samples() -> Vec<f64> {
    let mut list = vec![
        0.0,
        -0.0,
        1.0,
        -1.0,
        0.5,
        -0.5,
        1.5,
        2.5,
        -2.5,
        99.5,
        100.0,
        100.00000000000001,
        99.99999999999999,
        0.1,
        0.2,
        0.3,
        0.01,
        0.07,
        0.29,
        0.57,
        0.58,
        57.5,
        42.5,
        f64::MIN_POSITIVE,
        5e-324,
        f64::MAX,
        f64::MIN,
        f64::EPSILON,
        7.105427357601002e-15,
        7.105427357601e-15,
        1.4210854715202004e-14,
        4503599627370495.5,
        4503599627370496.5,
        9007199254740993.0,
        9223372036854775807.0,
        9223372036854774784.0,
        -9223372036854775808.0,
        1e19,
        -1e19,
        2147483647.0,
        2147483648.0,
        6032268.11,
        0.49999999999999994,
    ];
    let mut state: u64 = 0x9E37_79B9_7F4A_7C15;
    for _ in 0..20000 {
        state = state
            .wrapping_mul(6364136223846793005)
            .wrapping_add(1442695040888963407);
        let any = f64::from_bits(state);
        if any.is_finite() {
            list.push(any);
        }
        let near = (state >> 11) as f64 / (1u64 << 53) as f64;
        list.push(near);
        list.push(near * 100.0);
        list.push(near * 1e10);
        list.push(-near * 1e3);
        list.push(near * 1e-14);
    }
    list
}

#[test]
fn only_finite_patterns_are_numbers() {
    assert!(Double::from_bits(f64::NAN.to_bits()).is_none());
    assert!(Double::from_bits(f64::INFINITY.to_bits()).is_none());
    assert!(Double::from_bits(f64::NEG_INFINITY.to_bits()).is_none());
    for x in samples() {
        assert_eq!(double(x).to_bits(), x.to_bits());
    }
}

#[test]
fn percentages_are_those_of_the_machine() {
    for x in samples() {
        let plain = x.clamp(0.0, 100.0);
        assert_eq!(double(x).percent(false).to_bits(), plain.to_bits(), "{x}");
        let hundredfold = (x * 100.0).clamp(0.0, 100.0);
        assert_eq!(
            double(x).percent(true).to_bits(),
            hundredfold.to_bits(),
            "{x}"
        );
    }
}

#[test]
fn complements_are_those_of_the_machine() {
    for x in samples() {
        let rest = (100.0 - x).clamp(0.0, 100.0);
        assert_eq!(double(x).complement().to_bits(), rest.to_bits(), "{x}");
    }
}

#[test]
fn integer_percentages_are_those_of_the_machine() {
    for n in [0u64, 1, 2, 3, 50, 99, 100, 101, 1 << 53, u64::MAX] {
        let plain = (n as f64).clamp(0.0, 100.0);
        assert_eq!(Double::percent_of(n, false).to_bits(), plain.to_bits());
        let hundredfold = (n as f64 * 100.0).clamp(0.0, 100.0);
        assert_eq!(Double::percent_of(n, true).to_bits(), hundredfold.to_bits());
    }
    for n in [0i64, 1, -1, 42, i64::MIN, i64::MAX] {
        let plain = (n as f64).clamp(0.0, 100.0);
        assert_eq!(
            Double::percent_of_signed(n, false).to_bits(),
            plain.to_bits()
        );
        let hundredfold = (n as f64 * 100.0).clamp(0.0, 100.0);
        assert_eq!(
            Double::percent_of_signed(n, true).to_bits(),
            hundredfold.to_bits()
        );
    }
}

#[test]
fn rounding_is_that_of_the_machine() {
    for x in samples() {
        assert_eq!(double(x).round(), x.round() as i64, "{x}");
    }
}

#[test]
fn scaling_is_that_of_the_machine() {
    for x in samples() {
        for factor in [0u32, 1, 80, 356, u32::MAX] {
            let scaled = (f64::from(factor) * x).round() as i32;
            assert_eq!(double(x).scale(factor), scaled, "{factor} {x}");
        }
    }
}

#[test]
fn comparison_with_one_is_that_of_the_machine() {
    for x in samples() {
        assert_eq!(double(x).at_most_one(), x <= 1.0, "{x}");
    }
}

#[test]
fn equality_is_that_of_the_machine() {
    let list = samples();
    for pair in list[..60].iter() {
        for other in list[..60].iter() {
            assert_eq!(double(*pair) == double(*other), pair == other);
        }
    }
}

#[test]
fn whole_percentages_add_up() {
    for n in 0..=100u64 {
        let used = Double::percent_of(n, false);
        assert_eq!(used.to_bits(), (n as f64).to_bits());
        assert_eq!(
            used.complement().to_bits(),
            Double::percent_of(100 - n, false).to_bits()
        );
    }
}

#[test]
fn the_more_is_used_the_less_is_left() {
    let mut list = samples();
    list.sort_by(|a, b| a.total_cmp(b));
    for pair in list.windows(2) {
        assert!(double(pair[0]).complement().to_bits() >= double(pair[1]).complement().to_bits());
    }
}
