use softframe::depth::Depth;
use softframe::depth::INFINITY_BITS;
use softframe::depth::NAN_BITS;

fn depth(value: f32) -> Depth {
    Depth::from_bits(value.to_bits())
}

#[test]
fn depth_bits_round_trip() {
    let d = Depth::from_bits(0x3f80_0000);
    assert_eq!(d.to_bits(), 0x3f80_0000);
    assert_eq!(depth(1.0).to_bits(), 1.0f32.to_bits());
}

#[test]
fn depth_named_patterns() {
    assert_eq!(Depth::infinity().to_bits(), INFINITY_BITS);
    assert_eq!(Depth::infinity().to_bits(), f32::INFINITY.to_bits());
    assert_eq!(Depth::nan().to_bits(), NAN_BITS);
    assert!(Depth::nan().is_nan());
    assert!(!Depth::infinity().is_nan());
}

#[test]
fn depth_is_nan_matches_native_floats() {
    for &value in &[0.0f32, -0.0, 1.5, -2.25, f32::INFINITY, f32::NEG_INFINITY, f32::NAN] {
        assert_eq!(depth(value).is_nan(), value.is_nan(), "value {value}");
    }
}

#[test]
fn depth_le_matches_native_floats() {
    let samples = [
        0.0f32,
        -0.0,
        1.0,
        2.0,
        -1.0,
        -2.0,
        0.5,
        f32::MIN_POSITIVE,
        f32::MAX,
        f32::MIN,
        f32::INFINITY,
        f32::NEG_INFINITY,
        f32::NAN,
    ];
    for &a in &samples {
        for &b in &samples {
            assert_eq!(depth(a).le(&depth(b)), a <= b, "a {a}, b {b}");
        }
    }
}

#[test]
fn depth_zeros_compare_equal() {
    assert!(depth(0.0).le(&depth(-0.0)));
    assert!(depth(-0.0).le(&depth(0.0)));
}

#[test]
fn depth_nan_compares_false_both_ways() {
    assert!(!Depth::nan().le(&depth(1.0)));
    assert!(!depth(1.0).le(&Depth::nan()));
    assert!(!Depth::nan().le(&Depth::nan()));
}
