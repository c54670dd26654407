//! Answers that repeat themselves.
use spark_server::failures::watchdog::{bump_f12_tool_call_count, check_loop_watchdog};

#[test]
fn f12_under_cap_does_not_stop() {
    let (mut count, mut stop) = (0usize, false);
    bump_f12_tool_call_count(&mut count, 12, &mut stop);
    assert_eq!(count, 1);
    assert!(!stop);
}

#[test]
fn f12_at_cap_does_not_stop() {
    let (mut count, mut stop) = (11usize, false);
    bump_f12_tool_call_count(&mut count, 12, &mut stop);
    assert_eq!(count, 12);
    assert!(!stop);
}

#[test]
fn f12_over_cap_trips_stop() {
    let (mut count, mut stop) = (12usize, false);
    bump_f12_tool_call_count(&mut count, 12, &mut stop);
    assert_eq!(count, 13);
    assert!(stop);
}

#[test]
fn f12_already_stopped_still_counts() {
    let (mut count, mut stop) = (100usize, true);
    bump_f12_tool_call_count(&mut count, 12, &mut stop);
    assert_eq!(count, 101);
    assert!(stop);
}

#[test]
fn watchdog_already_triggered_returns_false() {
    let mut buf = String::new();
    assert!(!check_loop_watchdog("anything", &mut buf, true));
}

#[test]
fn watchdog_empty_text_returns_false() {
    let mut buf = String::new();
    assert!(!check_loop_watchdog("", &mut buf, false));
}

#[test]
fn watchdog_single_line_returns_false() {
    let mut buf = String::new();
    assert!(!check_loop_watchdog(
        "this is a single long enough line to qualify\n",
        &mut buf,
        false
    ));
}

#[test]
fn watchdog_four_identical_lines_fires() {
    let mut buf = String::new();
    let line = "Running cargo test on the project\n";
    assert!(!check_loop_watchdog(line, &mut buf, false));
    assert!(!check_loop_watchdog(line, &mut buf, false));
    assert!(!check_loop_watchdog(line, &mut buf, false));
    assert!(check_loop_watchdog(line, &mut buf, false));
}

#[test]
fn watchdog_fuzzy_normalization_collapses_whitespace() {
    let mut buf = String::new();
    assert!(!check_loop_watchdog("Running cargo test now\n", &mut buf, false));
    assert!(!check_loop_watchdog("  Running cargo test now  \n", &mut buf, false));
    assert!(!check_loop_watchdog("Running cargo  test  now\n", &mut buf, false));
    assert!(check_loop_watchdog("Running\tcargo test now\n", &mut buf, false));
}

#[test]
fn watchdog_short_lines_skipped() {
    let mut buf = String::new();
    let short = "ok\n";
    for _ in 0..10 {
        assert!(!check_loop_watchdog(short, &mut buf, false));
    }
}

#[test]
fn watchdog_buffer_caps_at_10kb() {
    let mut buf = String::new();
    let big = "x".repeat(5000);
    check_loop_watchdog(&big, &mut buf, false);
    check_loop_watchdog(&big, &mut buf, false);
    check_loop_watchdog(&big, &mut buf, false);
    assert!(buf.len() <= 10_240, "buffer should self-trim, got {}", buf.len());
}
