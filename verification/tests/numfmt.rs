use htop_win::numfmt::{exact_scaled, round0_str, tenths_into, tenths_str};

fn tenths(value: f64, width: usize) -> String {
    tenths_str(value.to_bits(), width)
}

fn round0(value: f64) -> String {
    round0_str(value.to_bits())
}

#[test]
fn tenths_matches_format_at_boundaries() {
    let cases = [0.0f64, 0.05, 0.15, 0.25, 0.35, 0.5, 0.95, 1.5, 2.5, 99.95, 100.0];
    for &value in &cases {
        for width in [0usize, 4, 5, 6] {
            assert_eq!(tenths(value, width), format!("{:width$.1}", value), "tenths_str({value}, {width})");
        }
    }
}

#[test]
fn tenths_matches_format_on_random_samples() {
    let mut state = 0x9E37_79B9_7F4A_7C15u64;
    let mut checked = 0usize;
    for _ in 0..40_000 {
        state ^= state << 13;
        state ^= state >> 7;
        state ^= state << 17;
        let value = f64::from_bits(state & 0x7FFF_FFFF_FFFF_FFFF) * 1e-9;
        if !value.is_finite() || value >= 1e12 {
            continue;
        }
        checked += 1;
        assert_eq!(tenths(value, 5), format!("{:5.1}", value), "tenths_str({value})");
        assert_eq!(tenths(value, 8), format!("{:8.1}", value), "tenths_str width({value})");
    }
    assert!(checked > 10_000, "too few usable samples: {checked}");
}

#[test]
fn round0_matches_format_at_boundaries() {
    let cases = [0.0f64, 0.5, 1.5, 2.5, 3.5, 0.49, 0.51, 99.5, 1023.5];
    for &value in &cases {
        assert_eq!(round0(value), format!("{:.0}", value), "round0({value})");
    }
}

#[test]
fn round0_matches_format_on_random_samples() {
    let mut state = 0xDEADBEEF_CAFE_F00Du64;
    for _ in 0..40_000 {
        state ^= state << 13;
        state ^= state >> 7;
        state ^= state << 17;
        let value = f64::from_bits(state & 0x7FFF_FFFF_FFFF_FFFF) * 1e-9;
        if !value.is_finite() || value >= 1e12 {
            continue;
        }
        assert_eq!(round0(value), format!("{:.0}", value), "round0({value})");
    }
}

#[test]
fn width_padding_matches() {
    assert_eq!(tenths(0.0, 5), "  0.0");
    assert_eq!(tenths(100.0, 5), "100.0");
    assert_eq!(tenths(12.5, 5), " 12.5");
    assert_eq!(tenths(1234.5, 5), "1234.5");
    let mut buf = String::from("stale");
    tenths_into(&mut buf, 7.25f64.to_bits(), 6);
    assert_eq!(buf, format!("{:6.1}", 7.25f64));
}

#[test]
fn exact_scaled_handles_dyadic_ties() {
    assert_eq!(exact_scaled(0.25f64.to_bits(), 10), 2);
    assert_eq!(exact_scaled(0.75f64.to_bits(), 10), 8);
    assert_eq!(exact_scaled(f64::MIN_POSITIVE.to_bits(), 100), 0);
    assert_eq!(exact_scaled(((1u64 << 60) as f64).to_bits(), 3), 3u128 << 60);
}
