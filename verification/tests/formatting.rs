use weather_station::format::{fmt_tenths, fmt_whole};

#[test]
fn tenths_rounds_half_up() {
    assert_eq!(fmt_tenths(2346), b"23.5".to_vec());
}

#[test]
fn tenths_keeps_exact_value() {
    assert_eq!(fmt_tenths(2100), b"21.0".to_vec());
}

#[test]
fn tenths_rounds_half_at_boundary() {
    assert_eq!(fmt_tenths(2005), b"20.1".to_vec());
}

#[test]
fn tenths_carries_into_whole_part() {
    assert_eq!(fmt_tenths(995), b"10.0".to_vec());
}

#[test]
fn tenths_zero() {
    assert_eq!(fmt_tenths(0), b"0.0".to_vec());
}

#[test]
fn tenths_negative_rounds_away_from_zero() {
    assert_eq!(fmt_tenths(-2005), b"-20.1".to_vec());
}

#[test]
fn tenths_negative_that_rounds_to_zero_has_no_sign() {
    assert_eq!(fmt_tenths(-4), b"0.0".to_vec());
}

#[test]
fn tenths_negative_half_keeps_sign() {
    assert_eq!(fmt_tenths(-5), b"-0.1".to_vec());
}

#[test]
fn tenths_extreme_values() {
    assert_eq!(fmt_tenths(i32::MAX), b"21474836.5".to_vec());
    assert_eq!(fmt_tenths(i32::MIN), b"-21474836.5".to_vec());
}

#[test]
fn whole_rounds_down() {
    assert_eq!(fmt_whole(101340), b"1013".to_vec());
}

#[test]
fn whole_rounds_half_up() {
    assert_eq!(fmt_whole(99950), b"1000".to_vec());
}

#[test]
fn whole_below_half_is_zero() {
    assert_eq!(fmt_whole(49), b"0".to_vec());
    assert_eq!(fmt_whole(50), b"1".to_vec());
}

#[test]
fn whole_negative() {
    assert_eq!(fmt_whole(-101340), b"-1013".to_vec());
    assert_eq!(fmt_whole(-49), b"0".to_vec());
}
