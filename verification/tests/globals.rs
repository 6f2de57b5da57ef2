use meowpdf::drivers::graphics::transfer_is_deferred;
use meowpdf::globals::{dlog, has_elapsed, idle_ms, in_tmux, mark_input, DEFAULT_CONFIG, HELP_MSG};

#[test]
fn log_is_silent_unless_enabled() {
    assert_eq!(dlog(false, "hello"), None);
    assert_eq!(dlog(true, "hello"), Some("hello\n".to_string()));
    assert_eq!(dlog(true, ""), Some("\n".to_string()));
}

#[test]
fn input_is_noted_since_the_epoch() {
    assert_eq!(mark_input(None), None);
    assert_eq!(mark_input(Some(1234)), Some(1234));
    assert_eq!(mark_input(Some(u64::MAX as u128 + 6)), Some(5));
}

#[test]
fn idle_time() {
    assert_eq!(idle_ms(Some(1500), mark_input(Some(1200))), 300);
    assert_eq!(idle_ms(Some(1200), mark_input(Some(1200))), 0);
    assert_eq!(idle_ms(Some(1000), Some(1200)), 0);
    assert_eq!(idle_ms(None, Some(1200)), u64::MAX);
    assert_eq!(idle_ms(None, None), u64::MAX);
}

#[test]
fn startup_transfers_are_never_put_off() {
    assert_eq!(idle_ms(Some(1), None), u64::MAX);
    assert!(!transfer_is_deferred(idle_ms(Some(1), None), true));
    assert!(transfer_is_deferred(idle_ms(Some(60), mark_input(Some(1))), true));
}

#[test]
fn tmux_is_looked_for_once() {
    let mut known = None;
    assert!(in_tmux(&mut known, true));
    assert_eq!(known, Some(true));
    assert!(in_tmux(&mut known, false));
    let mut other = None;
    assert!(!in_tmux(&mut other, false));
    assert!(!in_tmux(&mut other, true));
}

#[test]
fn half_a_second() {
    let mut last = 1_000;
    assert!(!has_elapsed(&mut last, 500_000_999));
    assert_eq!(last, 1_000);
    assert!(has_elapsed(&mut last, 500_001_000));
    assert_eq!(last, 500_001_000);
}

#[test]
fn texts() {
    assert!(HELP_MSG.starts_with("meowpdf kitty terminal document viewer\n\nUsage: meowpdf <file>\n"));
    assert!(HELP_MSG.ends_with("-v, --version       Print the current version.\n"));
    assert!(DEFAULT_CONFIG.starts_with("\n[viewer]\n"));
    assert!(DEFAULT_CONFIG.ends_with("\"q\" = \"Quit\"\n\"Q\" = \"Quit\"\n"));
}
