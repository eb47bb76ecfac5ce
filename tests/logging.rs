use ruxgo::logging::LogLevel;

#[test]
fn threshold_from_name() {
    assert_eq!(LogLevel::threshold(None), LogLevel::Info);
    assert_eq!(LogLevel::threshold(Some("Debug")), LogLevel::Debug);
    assert_eq!(LogLevel::threshold(Some("Warn")), LogLevel::Warn);
    assert_eq!(LogLevel::threshold(Some("Error")), LogLevel::Error);
    assert_eq!(LogLevel::threshold(Some("verbose")), LogLevel::Log);
}

#[test]
fn levels_shown_at_or_above_threshold() {
    assert!(LogLevel::Error.shown_under(LogLevel::Warn));
    assert!(LogLevel::Warn.shown_under(LogLevel::Warn));
    assert!(!LogLevel::Info.shown_under(LogLevel::Log));
    assert!(LogLevel::Debug.shown_under(LogLevel::Debug));
    assert_eq!(LogLevel::Debug.tag(), "[DEBUG]");
    assert_eq!(LogLevel::Error.tag(), "[ERROR]");
}
