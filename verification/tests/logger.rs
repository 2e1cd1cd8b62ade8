use gdplanningai_rust::logger::{
    format_log_line, get_log_level, level_enabled, process_logs, route_for_level, set_log_level, LogLevel,
    LogLevelSetting, LogMessage, LogRoute,
};

#[test]
fn from_u8_maps_all_levels() {
    assert_eq!(LogLevel::from_u8(0), LogLevel::Error);
    assert_eq!(LogLevel::from_u8(1), LogLevel::Warn);
    assert_eq!(LogLevel::from_u8(2), LogLevel::Info);
    assert_eq!(LogLevel::from_u8(3), LogLevel::Debug);
}

#[test]
fn from_u8_out_of_range_gives_debug() {
    assert_eq!(LogLevel::from_u8(4), LogLevel::Debug);
    assert_eq!(LogLevel::from_u8(255), LogLevel::Debug);
}

#[test]
fn level_ordering_matches_verbosity() {
    assert!(LogLevel::Debug > LogLevel::Info);
    assert!(LogLevel::Info > LogLevel::Warn);
    assert!(LogLevel::Warn > LogLevel::Error);
}

#[test]
fn set_get_log_level_roundtrip() {
    let mut setting = LogLevelSetting::new();
    let original = get_log_level(&setting);
    set_log_level(&mut setting, LogLevel::Debug);
    assert_eq!(get_log_level(&setting), LogLevel::Debug);
    set_log_level(&mut setting, LogLevel::Error);
    assert_eq!(get_log_level(&setting), LogLevel::Error);
    set_log_level(&mut setting, original);
    assert_eq!(get_log_level(&setting), original);
}

#[test]
fn default_log_level_is_info() {
    let setting = LogLevelSetting::default();
    assert_eq!(get_log_level(&setting), LogLevel::Info);
}

#[test]
fn to_u8_inverts_from_u8() {
    for level in [LogLevel::Error, LogLevel::Warn, LogLevel::Info, LogLevel::Debug] {
        assert_eq!(LogLevel::from_u8(level.to_u8()), level);
    }
    assert_eq!(LogLevel::Warn.to_u8(), 1);
}

#[test]
fn errors_are_always_enabled() {
    for current in [LogLevel::Error, LogLevel::Warn, LogLevel::Info, LogLevel::Debug] {
        assert!(level_enabled(current, LogLevel::Error));
    }
    assert!(!level_enabled(LogLevel::Info, LogLevel::Debug));
    assert!(level_enabled(LogLevel::Info, LogLevel::Warn));
    assert!(level_enabled(LogLevel::Debug, LogLevel::Debug));
    assert!(!level_enabled(LogLevel::Error, LogLevel::Warn));
}

#[test]
fn routes_follow_severity() {
    assert_eq!(route_for_level(LogLevel::Error), LogRoute::Error);
    assert_eq!(route_for_level(LogLevel::Warn), LogRoute::Warning);
    assert_eq!(route_for_level(LogLevel::Info), LogRoute::Print);
    assert_eq!(route_for_level(LogLevel::Debug), LogRoute::Print);
}

#[test]
fn log_line_has_seconds_with_three_decimals() {
    let msg = LogMessage { level: LogLevel::Info, message: "plan ready".to_string(), timestamp: 1_700_000_012_345 };
    assert_eq!(format_log_line(&msg), "[GdPAI 1700000012.345s] plan ready");
    let msg = LogMessage { level: LogLevel::Warn, message: "x".to_string(), timestamp: 5_007 };
    assert_eq!(format_log_line(&msg), "[GdPAI 5.007s] x");
    let msg = LogMessage { level: LogLevel::Error, message: "y".to_string(), timestamp: 42 };
    assert_eq!(format_log_line(&msg), "[GdPAI 0.042s] y");
    let msg = LogMessage { level: LogLevel::Info, message: "z".to_string(), timestamp: 1_250 };
    assert_eq!(format_log_line(&msg), "[GdPAI 1.250s] z");
}

#[test]
fn debug_lines_are_marked() {
    let msg = LogMessage { level: LogLevel::Debug, message: "expanding".to_string(), timestamp: 2_000 };
    assert_eq!(format_log_line(&msg), "[GdPAI 2.000s | debug] expanding");
}

#[test]
fn process_logs_keeps_arrival_order() {
    let pending = vec![
        LogMessage { level: LogLevel::Error, message: "first".to_string(), timestamp: 1_000 },
        LogMessage { level: LogLevel::Debug, message: "second".to_string(), timestamp: 1_001 },
    ];
    let lines = process_logs(&pending);
    assert_eq!(lines.len(), 2);
    assert_eq!(lines[0].0, LogRoute::Error);
    assert_eq!(lines[0].1, "[GdPAI 1.000s] first");
    assert_eq!(lines[1].0, LogRoute::Print);
    assert_eq!(lines[1].1, "[GdPAI 1.001s | debug] second");
    assert!(process_logs(&Vec::new()).is_empty());
}
