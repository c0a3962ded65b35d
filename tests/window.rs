use touchgrass::config::Config;
use touchgrass::window::{
    add_active_day, in_blocking_period, minutes_of_day, parse_time, within_active_day_window,
    within_active_time_window,
};

fn window(start: u32, end: u32) -> Config {
    Config { block_time_start: start, block_time_end: end, active_days: 0b111_1111 }
}

#[test]
fn normal_window() {
    let c = window(480, 1020);
    assert!(within_active_time_window(&c, 600));
    assert!(!within_active_time_window(&c, 300));
    assert!(!within_active_time_window(&c, 1020));
    assert!(within_active_time_window(&c, 480));
    assert!(within_active_time_window(&c, 1019));
}

#[test]
fn wraparound_window() {
    let c = window(1320, 360);
    assert!(within_active_time_window(&c, 0));
    assert!(within_active_time_window(&c, 1350));
    assert!(!within_active_time_window(&c, 720));
    assert!(within_active_time_window(&c, 1320));
    assert!(!within_active_time_window(&c, 360));
    assert!(within_active_time_window(&c, 359));
}

#[test]
fn empty_window_blocks_nothing() {
    let c = window(600, 600);
    assert!(!within_active_time_window(&c, 600));
    assert!(!within_active_time_window(&c, 0));
}

#[test]
fn day_bitmask() {
    let c = Config { block_time_start: 0, block_time_end: 0, active_days: 0b0000011 };
    assert!(within_active_day_window(&c, 1));
    assert!(!within_active_day_window(&c, 0));
    assert!(within_active_day_window(&c, 2));
    assert!(!within_active_day_window(&c, 3));
    let sunday = Config { block_time_start: 0, block_time_end: 0, active_days: 0b1000000 };
    assert!(within_active_day_window(&sunday, 0));
    assert!(!within_active_day_window(&sunday, 6));
}

#[test]
fn blocking_needs_window_and_day() {
    let c = Config { block_time_start: 480, block_time_end: 1020, active_days: 0b0000001 };
    assert!(in_blocking_period(&c, 600, 1));
    assert!(!in_blocking_period(&c, 600, 2));
    assert!(!in_blocking_period(&c, 1200, 1));
}

#[test]
fn clock_time_to_minutes() {
    assert_eq!(minutes_of_day(8, 30), 510);
    assert_eq!(minutes_of_day(0, 0), 0);
    assert_eq!(minutes_of_day(23, 59), 1439);
}

#[test]
fn time_text() {
    assert_eq!(parse_time("08:30"), Some(510));
    assert_eq!(parse_time("22:00"), Some(1320));
    assert_eq!(parse_time("+1:5"), Some(65));
    assert_eq!(parse_time("0:0"), Some(0));
    assert_eq!(parse_time("8"), None);
    assert_eq!(parse_time(":"), None);
    assert_eq!(parse_time("a:b"), None);
    assert_eq!(parse_time("1:2:3"), None);
    assert_eq!(parse_time("-1:00"), None);
    assert_eq!(parse_time("4294967296:0"), None);
    assert_eq!(parse_time("71582789:0"), None);
    assert_eq!(parse_time("71582788:15"), Some(4294967295));
}

#[test]
fn building_day_mask() {
    assert_eq!(add_active_day(0, 0), 0b0000001);
    assert_eq!(add_active_day(0b0000001, 1), 0b0000011);
    assert_eq!(add_active_day(0b0000011, 1), 0b0000011);
    assert_eq!(add_active_day(0, 6), 0b1000000);
}
