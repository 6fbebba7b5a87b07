use game_of_life::fps::FPS;

#[test]
fn uniform_rate_warms_to_equal_stats() {
    // constant 16 ms gaps: 1000 / 16 = 62.5, rounded half away from zero
    let mut fps = FPS::new(0);
    let mut out = fps.render(16);
    for i in 2..=150u64 {
        out = fps.render(16 * i);
    }
    assert!(fps.enough());
    assert_eq!(out.min(), 63);
    assert_eq!(out.avg(), 63);
    assert_eq!(out.max(), 63);
}

#[test]
fn warms_up_on_the_ninety_ninth_frame() {
    let mut fps = FPS::new(0);
    assert!(!fps.enough());
    for i in 1..=98u64 {
        fps.render(i);
        assert!(!fps.enough());
    }
    fps.render(99);
    assert!(fps.enough());
}

#[test]
fn single_sample_stats() {
    // one 16 ms gap: one slot holds 63, the other ninety-nine still hold 0,
    // so the minimum is 0 and the average rounds 0.63 up to 1
    let mut fps = FPS::new(0);
    let out = fps.render(16);
    assert_eq!(out.max(), 63);
    assert_eq!(out.min(), 0);
    assert_eq!(out.avg(), 1);
}

#[test]
fn rounding_is_half_away_from_zero() {
    let cases = [
        (1u64, 1000u64), // 1000 / 1
        (3, 333),        // 333.33 rounds down
        (16, 63),        // 62.5 rounds away from zero
        (2000, 1),       // 0.5 rounds away from zero
        (2001, 0),       // just under half rounds to zero
    ];
    for &(delta, want) in &cases {
        let mut fps = FPS::new(0);
        let out = fps.render(delta);
        assert_eq!(out.max(), want, "delta {}", delta);
    }
}

#[test]
fn stalled_clock_records_nothing() {
    let mut fps = FPS::new(100);
    let out = fps.render(100);
    assert_eq!(out.min(), 0);
    assert_eq!(out.avg(), 0);
    assert_eq!(out.max(), 0);
    let out = fps.render(50);
    assert_eq!(out.max(), 0);
    // the stalled readings were still remembered: the next gap counts
    // from 50, and 1000 / 200 = 5
    let out = fps.render(250);
    assert_eq!(out.max(), 5);
}
