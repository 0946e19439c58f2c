use fathom::text::decimal_string;
use fathom::units::{text_width_px, FrameIdx, TextScale, Timestamp, GLYPH};

#[test]
fn decimal_strings() {
    assert_eq!(decimal_string(0), "0");
    assert_eq!(decimal_string(7), "7");
    assert_eq!(decimal_string(1024), "1024");
    assert_eq!(decimal_string(u64::MAX), "18446744073709551615");
}

#[test]
fn text_scales() {
    assert_eq!(TextScale::X1.factor(), 1);
    assert_eq!(TextScale::X4.factor(), 4);
    assert_eq!(TextScale::from_magnification(0), TextScale::X1);
    assert_eq!(TextScale::from_magnification(1), TextScale::X1);
    assert_eq!(TextScale::from_magnification(2), TextScale::X2);
    assert_eq!(TextScale::from_magnification(3), TextScale::X3);
    assert_eq!(TextScale::from_magnification(9), TextScale::X4);
    assert_eq!(TextScale::default(), TextScale::X1);
    assert!(TextScale::X1 < TextScale::X4);
    assert_eq!(GLYPH, 8);
    assert_eq!(text_width_px(5, TextScale::X2), 80);
    assert_eq!(text_width_px(0, TextScale::X4), 0);
}

#[test]
fn text_of_any_length_has_a_width() {
    assert_eq!(text_width_px(5_000_000_000, TextScale::X1), 40_000_000_000);
    assert_eq!(text_width_px(usize::MAX, TextScale::X4), usize::MAX as u128 * 32);
}

#[test]
fn timestamps_are_nanosecond_arithmetic() {
    let a = Timestamp(2_000_000);
    let b = Timestamp(3_000_000);
    assert_eq!(a + b, Timestamp(5_000_000));
    assert_eq!(a - b, Timestamp(-1_000_000));
    assert_eq!(-a, Timestamp(-2_000_000));
    assert_eq!(a * 3, Timestamp(6_000_000));
    assert_eq!(Timestamp(-7) / 2, Timestamp(-3));
    assert_eq!(Timestamp(7) / -2, Timestamp(-3));
    assert_eq!(Timestamp(-7) / -2, Timestamp(3));
    assert_eq!(Timestamp(i64::MIN) / 2, Timestamp(i64::MIN / 2));
    assert_eq!(Timestamp::zero().get(), 0);
    let states = [Timestamp(0), Timestamp(2_000_000), Timestamp(4_000_000)];
    let now = Timestamp(3_000_000);
    assert_eq!(states.partition_point(|t| *t <= now) - 1, 1);
    assert!(FrameIdx(3) < FrameIdx(4));
}
