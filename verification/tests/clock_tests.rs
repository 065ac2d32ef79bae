use rusthesia::RefPosition;

#[test]
fn position_set_then_get_without_start_is_exact() {
    let mut rp = RefPosition::new();
    rp.set_pos_us(123_456, 10_000);
    assert_eq!(rp.get_pos_us(99_999), 123_456);
    rp.set_pos_us(-3_000_000, 20_000);
    assert_eq!(rp.get_pos_us(80_000), -3_000_000);
}

#[test]
fn running_clock_advances_with_scale() {
    let mut rp = RefPosition::new();
    rp.set_pos_us(1_000, 0);
    rp.start(50_000);
    // 30 ms later at real time: position moved by exactly the elapsed time.
    assert_eq!(rp.get_pos_us(80_000), 1_000 + 30_000);
    // Monotone while running.
    let a = rp.get_pos_us(90_000);
    let b = rp.get_pos_us(95_000);
    assert!(a <= b);
}

#[test]
fn stopped_clock_is_frozen_and_stop_is_idempotent() {
    let mut rp = RefPosition::new();
    rp.start(0);
    rp.stop(40_000);
    assert_eq!(rp.get_pos_us(40_000), 40_000);
    assert_eq!(rp.get_pos_us(999_999), 40_000);
    rp.stop(500_000);
    assert_eq!(rp.get_pos_us(999_999), 40_000);
    assert!(!rp.is_running());
}

#[test]
fn scale_change_has_no_discontinuity() {
    let mut rp = RefPosition::new();
    rp.start(0);
    let before = rp.get_pos_us(60_000);
    rp.set_scaling_1000(2_000, 60_000);
    // At the instant of the change the position is unchanged.
    assert_eq!(rp.get_pos_us(60_000), before);
    // Afterwards it advances at double rate.
    assert_eq!(rp.get_pos_us(70_000), before + 20_000);
}

#[test]
fn half_scale_halves_the_rate() {
    let mut rp = RefPosition::new();
    rp.set_scaling_1000(500, 0);
    rp.start(100_000);
    assert_eq!(rp.get_pos_us(180_000), 40_000);
}

#[test]
fn ms_till_pos_counts_scaled_milliseconds() {
    let mut rp = RefPosition::new();
    rp.set_pos_us(0, 0);
    // 40_000 us remaining at scale 1000 -> 40 "ms".
    assert_eq!(rp.ms_till_pos(40_000, 0), Some(40));
    // Already passed.
    rp.set_pos_us(50_000, 0);
    assert_eq!(rp.ms_till_pos(40_000, 0), None);
    // Rounds down to nothing.
    rp.set_pos_us(39_900, 0);
    assert_eq!(rp.ms_till_pos(40_000, 0), None);
}

#[test]
fn repositioning_a_running_clock_reanchors() {
    let mut rp = RefPosition::new();
    rp.start(0);
    rp.set_pos_us(5_000, 70_000);
    // The elapsed time counts from the repositioning instant.
    assert_eq!(rp.get_pos_us(70_000), 5_000);
    assert_eq!(rp.get_pos_us(71_000), 6_000);
}
