use chaff::{
    activity_badge, apply_message, decimal_string, join, log_line, processes_message,
    removed_message, stats_line, tray_tooltip, version_label,
};

fn strings(v: &[&str]) -> Vec<String> {
    v.iter().map(|s| s.to_string()).collect()
}

#[test]
fn decimal_matches_to_string() {
    for n in [0u64, 7, 10, 99, 100, 12345, u64::MAX] {
        assert_eq!(decimal_string(n), n.to_string());
    }
}

#[test]
fn join_puts_the_separator_between() {
    assert_eq!(join(&strings(&[]), ", "), "");
    assert_eq!(join(&strings(&["a"]), ", "), "a");
    assert_eq!(join(&strings(&["a", "b", "c"]), ", "), "a, b, c");
    assert_eq!(join(&strings(&["x", "", "y"]), "  |  "), "x  |    |  y");
}

#[test]
fn apply_messages() {
    assert_eq!(apply_message("VM Registry Keys", 57, 0), "VM Registry Keys: 57 artifacts");
    assert_eq!(apply_message("VM Registry Keys", 7, 50), "VM Registry Keys: 7 ok, 50 failed (admin?)");
    assert_eq!(apply_message("", 0, 0), ": 0 artifacts");
}

#[test]
fn process_and_removal_messages() {
    assert_eq!(processes_message(&strings(&["ida.exe", "gdb.exe"])), "  processes: ida.exe, gdb.exe");
    assert_eq!(removed_message(&strings(&["Debuggers", "Named Mutexes"])), "Removed: Debuggers, Named Mutexes");
    assert_eq!(removed_message(&strings(&[])), "Removed: ");
}

#[test]
fn tooltip_says_inactive_only_when_nothing_is_active() {
    assert_eq!(tray_tooltip(0, 0), "Chaff — inactive");
    assert_eq!(tray_tooltip(5, 0), "Chaff — 5 processes, 0 keys active");
    assert_eq!(tray_tooltip(0, 21), "Chaff — 0 processes, 21 keys active");
}

#[test]
fn header_badge_footer_and_log_texts() {
    assert_eq!(stats_line(5, 14, 3), "5 processes  ·  14 reg keys  ·  3 handles");
    assert_eq!(activity_badge(true, 3), "● 3 running");
    assert_eq!(activity_badge(false, 3), "● active");
    assert_eq!(version_label("0.0.0-stub"), "db v0.0.0-stub");
    assert_eq!(log_line(1725029869, "Chaff started"), "[1725029869] Chaff started");
}
