use lmc::logger::{LogEvent, LogLevel, Logger};

#[test]
fn levels_have_their_names() {
    assert_eq!(LogLevel::Info.name(), "INFO");
    assert_eq!(LogLevel::Debug.name(), "DEBUG");
    assert_eq!(LogLevel::Error.name(), "ERROR");
}

#[test]
fn a_silent_log_shows_failures_only() {
    let logger = Logger::new(false, false);
    assert!(!logger.enabled(&LogLevel::Info));
    assert!(!logger.enabled(&LogLevel::Debug));
    assert!(logger.enabled(&LogLevel::Error));
    assert_eq!(logger.log(&LogLevel::Info, "hello"), None);
    assert_eq!(logger.log(&LogLevel::Debug, "hello"), None);
    assert_eq!(
        logger.log(&LogLevel::Error, "hello"),
        Some("ERROR: hello".to_string())
    );
}

#[test]
fn verbose_and_debug_are_independent() {
    let verbose = Logger::new(true, false);
    assert_eq!(
        verbose.log(&LogLevel::Info, "starting first pass..."),
        Some("INFO: starting first pass...".to_string())
    );
    assert_eq!(verbose.log(&LogLevel::Debug, "x"), None);
    let debug = Logger::new(false, true);
    assert_eq!(debug.log(&LogLevel::Info, "x"), None);
    assert_eq!(
        debug.log(&LogLevel::Debug, ""),
        Some("DEBUG: ".to_string())
    );
    let both = Logger::new(true, true);
    assert!(both.enabled(&LogLevel::Info));
    assert!(both.enabled(&LogLevel::Debug));
    assert!(both.enabled(&LogLevel::Error));
}

#[test]
fn events_are_noted_where_their_level_is_shown() {
    let mut log = Vec::new();
    let logger = Logger::new(true, false);
    logger.note(&mut log, LogLevel::Info, "one".to_string());
    logger.note(&mut log, LogLevel::Debug, "two".to_string());
    logger.note(&mut log, LogLevel::Error, "three".to_string());
    assert_eq!(
        log,
        vec![
            LogEvent { level: LogLevel::Info, message: "one".to_string() },
            LogEvent { level: LogLevel::Error, message: "three".to_string() },
        ]
    );
    assert_eq!(log[0].to_string(), "INFO: one");
    assert_eq!(log[1].to_string(), "ERROR: three");
    assert_eq!(
        LogEvent { level: LogLevel::Debug, message: String::new() }.to_string(),
        "DEBUG: "
    );
}

#[test]
fn a_log_is_its_two_settings() {
    let logger = Logger::new(true, false);
    assert!(logger.verbose);
    assert!(!logger.debug);
    assert_eq!(logger, Logger { verbose: true, debug: false });
}
