use sdf_atlas::px_from_26_6;

// em 2048 at face size 64 gives one pixel per 2048 26.6-units.
#[test]
fn test_px_rounding_positive() {
    // 1280 / 2048 + 0.5 = 1.125 -> 1
    assert_eq!(px_from_26_6(1280, 2048, 64), 1);
    // 0 / 2048 + 0.5 = 0.5 -> 0
    assert_eq!(px_from_26_6(0, 2048, 64), 0);
    // 1024 / 2048 + 0.5 = 1.0 -> 1
    assert_eq!(px_from_26_6(1024, 2048, 64), 1);
}

#[test]
fn test_px_rounding_negative() {
    // -320 / 2048 + 0.5 = 0.34375 -> 0
    assert_eq!(px_from_26_6(-320, 2048, 64), 0);
    // -3000 / 2048 + 0.5 = -0.96... -> -1 (floor, not truncation)
    assert_eq!(px_from_26_6(-3000, 2048, 64), -1);
    // -1024 / 2048 + 0.5 = 0.0 -> 0
    assert_eq!(px_from_26_6(-1024, 2048, 64), 0);
    // -1025 / 2048 + 0.5 < 0 -> -1
    assert_eq!(px_from_26_6(-1025, 2048, 64), -1);
}

#[test]
fn test_px_monotonic_samples() {
    let mut last = px_from_26_6(-10_000, 1000, 128);
    let mut v: i64 = -10_000;
    while v <= 10_000 {
        let p = px_from_26_6(v, 1000, 128);
        assert!(p >= last);
        last = p;
        v += 37;
    }
}
