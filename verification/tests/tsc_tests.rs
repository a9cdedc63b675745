use certus::tsc::TscClock;

// A 2 ms calibration window over which a 3 GHz counter advanced 6,000,000
// ticks.
fn calibrated() -> TscClock {
    TscClock::new(2_000_000, 6_000_000)
}

#[test]
fn calibration_reasonable() {
    let clock = calibrated();
    let ticks_per_sec = clock.ticks_per_ms() * 1000;
    assert!(ticks_per_sec >= 500_000_000, "TSC too slow: {ticks_per_sec} ticks/sec");
    assert!(ticks_per_sec <= 10_000_000_000, "TSC too fast: {ticks_per_sec} ticks/sec");
}

#[test]
fn deadline_from_ms_works() {
    let clock = calibrated();
    let start = 123_456_789u64;
    let deadline = clock.deadline_from_ms(start, 1);
    assert!(deadline > start);
    let delta_ns = clock.ticks_to_ns(deadline - start);
    assert!(delta_ns >= 800_000, "deadline too close: {delta_ns} ns");
    assert!(delta_ns <= 1_500_000, "deadline too far: {delta_ns} ns");
}

#[test]
fn ticks_to_ns_round_trip() {
    let clock = calibrated();
    let ns = clock.ticks_to_ns(30_000_000);
    assert!(ns >= 5_000_000, "too short: {ns} ns");
    assert!(ns <= 50_000_000, "too long: {ns} ns");
    assert!(clock.has_elapsed(10, 10));
    assert!(!clock.has_elapsed(9, 10));
}
