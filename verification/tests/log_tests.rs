use certus::examples::{ConsoleLogHandler, ConsoleLogRequest, GreetRequest, Greeter};
use certus::log::{format_timestamp, LogHandler, LogLevel, LogMessage};

#[test]
fn log_level_ordering() {
    assert!(LogLevel::Debug < LogLevel::Info);
    assert!(LogLevel::Info < LogLevel::Warn);
    assert!(LogLevel::Warn < LogLevel::Error);
}

#[test]
fn log_level_display() {
    assert_eq!(LogLevel::Debug.to_string(), "DEBUG");
    assert_eq!(LogLevel::Info.to_string(), "INFO ");
    assert_eq!(LogLevel::Warn.to_string(), "WARN ");
    assert_eq!(LogLevel::Error.to_string(), "ERROR");
}

#[test]
fn log_message_constructors() {
    let d = LogMessage::debug("d");
    assert_eq!(d.level(), LogLevel::Debug);
    assert_eq!(d.text(), "d");

    let i = LogMessage::info("i");
    assert_eq!(i.level(), LogLevel::Info);

    let w = LogMessage::warn("w");
    assert_eq!(w.level(), LogLevel::Warn);

    let e = LogMessage::error("e");
    assert_eq!(e.level(), LogLevel::Error);
}

#[test]
fn handler_default() {
    let h = LogHandler::new();
    assert_eq!(h.min_level(), LogLevel::Debug);
}

#[test]
fn handler_min_level_filters() {
    let h = LogHandler::new().with_min_level(LogLevel::Warn);
    assert!(h.line_for("T", &LogMessage::debug("should not appear")).is_none());
    assert!(h.line_for("T", &LogMessage::info("should not appear")).is_none());
    assert_eq!(h.line_for("T", &LogMessage::warn("visible")).unwrap(), "T [WARN ] visible");
    assert_eq!(h.line_for("T", &LogMessage::error("also visible")).unwrap(), "T [ERROR] also visible");
}

#[test]
fn format_timestamp_produces_valid_output() {
    let dur = std::time::SystemTime::now().duration_since(std::time::UNIX_EPOCH).unwrap();
    let ts = format_timestamp(dur.as_secs(), dur.subsec_millis());
    assert_eq!(ts.len(), 24);
    assert_eq!(&ts[4..5], "-");
    assert_eq!(&ts[7..8], "-");
    assert_eq!(&ts[10..11], "T");
    assert_eq!(&ts[13..14], ":");
    assert_eq!(&ts[16..17], ":");
    assert_eq!(&ts[19..20], ".");
    assert_eq!(&ts[23..24], "Z");
}

#[test]
fn format_timestamp_known_instants() {
    assert_eq!(format_timestamp(0, 0), "1970-01-01T00:00:00.000Z");
    assert_eq!(format_timestamp(951_782_400, 5), "2000-02-29T00:00:00.005Z");
    assert_eq!(format_timestamp(1_700_000_000, 123), "2023-11-14T22:13:20.123Z");
    assert_eq!(format_timestamp(253_402_300_799, 999), "9999-12-31T23:59:59.999Z");
    assert_eq!(format_timestamp(253_402_300_800, 0), "10000-01-01T00:00:00.000Z");
}

#[test]
fn console_log_request_debug() {
    let req = ConsoleLogRequest { level: LogLevel::Info, source: "test".into(), text: "hello".into() };
    let dbg = format!("{:?}", req);
    assert!(dbg.contains("Info"));
    assert!(dbg.contains("test"));
}

#[test]
fn console_line_layout() {
    let req = ConsoleLogRequest { level: LogLevel::Error, source: "app".into(), text: "boom".into() };
    assert_eq!(ConsoleLogHandler::new().line_for("T0", &req), "T0 [ERROR] [app] boom");
}

#[test]
fn greeter_counts_greetings() {
    let mut g = Greeter::new();
    assert_eq!(g.greet(&GreetRequest { name: "World".into() }), "  [1] Hello, World!");
    assert_eq!(g.greet(&GreetRequest { name: "Rust".into() }), "  [2] Hello, Rust!");
    assert_eq!(g.count(), 2);
    assert_eq!(g.stop_message(), "[greeter] Greeter stopped after 2 greetings");
}
