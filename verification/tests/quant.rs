use pointcloud::quant::{decode_coord, encode_coord};

#[test]
fn encode_whole_units() {
    // 1.5 world units = 1_500_000 micro -> 1500 milli steps.
    assert_eq!(encode_coord(1_500_000), 1500);
    assert_eq!(encode_coord(-1_500_000), -1500);
    assert_eq!(encode_coord(0), 0);
}

#[test]
fn encode_truncates_toward_zero() {
    // 1999 micro is 1.999 steps: truncation keeps 1, not 2.
    assert_eq!(encode_coord(1_999), 1);
    assert_eq!(encode_coord(-1_999), -1);
    assert_eq!(encode_coord(999), 0);
    assert_eq!(encode_coord(-999), 0);
}

#[test]
fn encode_saturates_at_i32() {
    assert_eq!(encode_coord(2_147_483_647_000), i32::MAX);
    assert_eq!(encode_coord(9_000_000_000_000_000), i32::MAX);
    assert_eq!(encode_coord(-2_147_483_648_000), i32::MIN);
    assert_eq!(encode_coord(-9_000_000_000_000_000), i32::MIN);
}

#[test]
fn decode_is_exact() {
    assert_eq!(decode_coord(1500), 1_500_000);
    assert_eq!(decode_coord(-1500), -1_500_000);
    assert_eq!(decode_coord(i32::MAX), 2_147_483_647_000);
}

#[test]
fn round_trip_stays_within_one_step() {
    // Samples across [-1000, 1000] world units (micro scale).
    let samples: [i64; 8] = [
        -1_000_000_000,
        -123_456_789,
        -1_999,
        -1,
        0,
        999,
        500_000_123,
        1_000_000_000,
    ];
    for &c in samples.iter() {
        let back = decode_coord(encode_coord(c));
        let err = (back - c).abs();
        assert!(err < 1000, "coordinate {} came back as {}", c, back);
        // The bias is toward zero, never away from it.
        assert!(back.abs() <= c.abs());
    }
}
