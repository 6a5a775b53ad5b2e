use neuromancer::log::{default_level, enabled, set_level, Level};

#[test]
fn level_parse() {
    assert_eq!(Level::parse("error"), Some(Level::Error));
    assert_eq!(Level::parse("warn"), Some(Level::Warn));
    assert_eq!(Level::parse("warning"), Some(Level::Warn));
    assert_eq!(Level::parse("info"), Some(Level::Info));
    assert_eq!(Level::parse("debug"), Some(Level::Debug));
    assert_eq!(Level::parse("bogus"), None);
}

#[test]
fn level_parse_ignores_case_and_white_space() {
    assert_eq!(Level::parse("  WARNING\t"), Some(Level::Warn));
    assert_eq!(Level::parse("\u{3000}Debug\u{a0}"), Some(Level::Debug));
    assert_eq!(Level::parse(""), None);
    assert_eq!(Level::parse("in fo"), None);
}

#[test]
fn default_is_error_only() {
    let mut current = default_level();
    assert_eq!(current, Level::Error);
    set_level(&mut current, Level::Error);
    assert!(enabled(current, Level::Error));
    assert!(!enabled(current, Level::Warn));
    assert!(!enabled(current, Level::Info));
    assert!(!enabled(current, Level::Debug));
    set_level(&mut current, Level::Debug);
    assert!(
        enabled(current, Level::Error)
            && enabled(current, Level::Warn)
            && enabled(current, Level::Info)
            && enabled(current, Level::Debug)
    );
}
