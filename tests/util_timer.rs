use tile_browser::util::{clamp, Timer};

#[test]
fn clamp_limits_to_range() {
    assert_eq!(clamp(5, 0, 10), 5);
    assert_eq!(clamp(-5, 0, 10), 0);
    assert_eq!(clamp(15, 0, 10), 10);
    assert_eq!(clamp(300, 0, 255), 255);
}

#[test]
fn clamp_with_empty_range_prefers_min() {
    assert_eq!(clamp(5, 10, 0), 10);
}

#[test]
fn timer_measures_elapsed_time() {
    let mut t = Timer::new(1_000);
    assert_eq!(t.dt(6_000), 5_000);
    assert_eq!(t.last, 6_000);
    assert_eq!(t.dt(6_000), 0);
    assert_eq!(t.dt(4_000), 0);
    assert_eq!(t.last, 4_000);
}

#[test]
fn default_timer_starts_at_zero() {
    let mut t = Timer::default();
    assert_eq!(t.dt(250), 250);
}
