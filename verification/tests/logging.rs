use ptiff_core::LogLevel;

#[test]
fn log_level_c_ordering_is_preserved() {
    assert_eq!(LogLevel::Trace as i32, 0);
    assert_eq!(LogLevel::Debug as i32, 1);
    assert_eq!(LogLevel::Info as i32, 2);
    assert_eq!(LogLevel::Warn as i32, 3);
    assert_eq!(LogLevel::Error as i32, 4);
    assert_eq!(LogLevel::Critical as i32, 5);
    assert_eq!(LogLevel::Off as i32, 6);
}

#[test]
fn stored_codes_read_back_as_their_levels() {
    for level in [
        LogLevel::Trace,
        LogLevel::Debug,
        LogLevel::Info,
        LogLevel::Warn,
        LogLevel::Error,
        LogLevel::Critical,
        LogLevel::Off,
    ] {
        assert_eq!(LogLevel::from_code(LogLevel::clamp_code(level.code())), level);
        assert_eq!(level.code(), level as i32);
    }
}

#[test]
fn requested_levels_clamp_to_the_range() {
    assert_eq!(LogLevel::from_code(LogLevel::clamp_code(999)), LogLevel::Off);
    assert_eq!(LogLevel::from_code(LogLevel::clamp_code(-5)), LogLevel::Trace);
    assert_eq!(LogLevel::clamp_code(4), 4);
}

#[test]
fn messages_are_emitted_from_the_current_level_up() {
    assert!(LogLevel::Error.enabled(LogLevel::Info));
    assert!(LogLevel::Info.enabled(LogLevel::Info));
    assert!(!LogLevel::Debug.enabled(LogLevel::Info));
    assert!(!LogLevel::Critical.enabled(LogLevel::Off));
    assert_eq!(LogLevel::Critical.label(), "CRITICAL");
}

#[test]
fn every_level_has_its_upper_case_label() {
    assert_eq!(LogLevel::Trace.label(), "TRACE");
    assert_eq!(LogLevel::Debug.label(), "DEBUG");
    assert_eq!(LogLevel::Info.label(), "INFO");
    assert_eq!(LogLevel::Warn.label(), "WARN");
    assert_eq!(LogLevel::Error.label(), "ERROR");
    assert_eq!(LogLevel::Critical.label(), "CRITICAL");
    assert_eq!(LogLevel::Off.label(), "OFF");
}
