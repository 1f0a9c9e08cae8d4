//! The tick governor, driven with synthetic monotonic timestamps.

use diffusion_lab::ticker::Ticker;

const MS: u64 = 1_000_000;

#[test]
fn end_tick_pads_short_work_up_to_the_floor() {
    // Floor of 10 ms; 3 ms of work leaves 7 ms of padding, and the
    // padded iteration spans at least the floor.
    let mut t = Ticker::new(10 * MS, 0);
    t.start_tick(100 * MS);
    let pad = t.end_tick(103 * MS);
    assert_eq!(pad, 7 * MS);
    assert!(103 * MS - 100 * MS + pad >= 10 * MS);
}

#[test]
fn end_tick_adds_no_padding_to_long_work() {
    let mut t = Ticker::new(10 * MS, 0);
    t.start_tick(100 * MS);
    assert_eq!(t.end_tick(125 * MS), 0);
}

#[test]
fn trivial_work_is_padded_by_the_whole_floor() {
    let mut t = Ticker::new(10 * MS, 0);
    t.start_tick(50 * MS);
    assert_eq!(t.end_tick(50 * MS), 10 * MS);
}

#[test]
fn rate_is_published_once_the_window_exceeds_a_second() {
    // 100 ticks at one tick per 10 ms and a bit: the window closes just
    // after the one-second mark and publishes the full count.
    let mut t = Ticker::new(10 * MS, 0);
    let mut now = 0u64;
    for _ in 0..100 {
        t.start_tick(now);
        now += 10 * MS;
        let pad = t.end_tick(now);
        assert_eq!(pad, 0);
        t.record_tick(now);
        assert_eq!(t.get_tps(), 0);
    }
    // One more tick pushes the window past 1000 ms.
    t.start_tick(now);
    now += 10 * MS;
    t.end_tick(now);
    t.record_tick(now);
    assert_eq!(t.get_tps(), 101);
    // The counter restarts for the next window.
    t.start_tick(now);
    now += 10 * MS;
    t.end_tick(now);
    t.record_tick(now);
    assert_eq!(t.get_tps(), 101);
}

#[test]
fn set_min_tick_time_changes_later_padding_only() {
    let mut t = Ticker::new(10 * MS, 0);
    t.start_tick(0);
    assert_eq!(t.end_tick(2 * MS), 8 * MS);
    t.set_min_tick_time(20 * MS);
    t.start_tick(100 * MS);
    assert_eq!(t.end_tick(102 * MS), 18 * MS);
}
