use ledit::logs::{format_log_line, LogLevel, Logger};
use ledit::util::{rgb_or_black, Config, NodeType, Rgb, Status, StatusLevel, Theme};

#[test]
fn color_from_hex() {
    assert_eq!(Theme::get_color_for(Some("#ff0000".to_string())), Some(Rgb { r: 255, g: 0, b: 0 }));
    assert_eq!(Theme::get_color_for(Some("#0084FF".to_string())), Some(Rgb { r: 0, g: 132, b: 255 }));
    assert_eq!(Theme::get_color_for(Some("#fff".to_string())), Some(Rgb { r: 255, g: 255, b: 255 }));
}

#[test]
fn color_unset_or_invalid() {
    assert_eq!(Theme::get_color_for(None), None);
    assert_eq!(Theme::get_color_for(Some("blah".to_string())), Some(Rgb { r: 0, g: 0, b: 0 }));
    assert_eq!(Theme::get_color_for(Some("FF9100".to_string())), Some(Rgb { r: 0, g: 0, b: 0 }));
}

#[test]
fn rgb_or_black_values() {
    assert_eq!(rgb_or_black(Some((1, 2, 3))), Rgb { r: 1, g: 2, b: 3 });
    assert_eq!(rgb_or_black(None), Rgb { r: 0, g: 0, b: 0 });
}

#[test]
fn defaults() {
    let t = Theme::default();
    assert_eq!(t.view_border.as_deref(), Some("#FFFFFF"));
    assert_eq!(t.status_warning.as_deref(), Some("FF9100"));
    let c = Config::default();
    assert_eq!(c.logs_directory.as_deref(), Some("~/.ledit/logs"));
    assert_eq!(c.theme.unwrap().app_foreground.as_deref(), Some("#0000FF"));
    let s = Status::default();
    assert_eq!(s.text, "");
    assert_eq!(s.level, StatusLevel::INFO);
}

#[test]
fn kind_ranks() {
    assert!(NodeType::Directory.rank() < NodeType::File.rank());
    assert!(NodeType::File.rank() < NodeType::Info.rank());
}

#[test]
fn log_lines() {
    assert_eq!(format_log_line(LogLevel::WARN, "2024-01-02 03:04:05", "hello"), "[WARN][2024-01-02 03:04:05]: hello");
    let mut l = Logger::with_expansion(None, "~/logs".to_string());
    assert_eq!(l.logs_path, "~/logs");
    l.log_at(LogLevel::ERROR, "t", "boom");
    assert_eq!(l.logs, vec!["[ERROR][t]: boom".to_string()]);
    l.log(LogLevel::INFO, "started".to_string());
    assert_eq!(l.logs.len(), 2);
    assert!(l.logs[1].starts_with("[INFO]["));
    assert!(l.logs[1].ends_with("]: started"));
    assert_eq!(l.logs[1].len(), "[INFO][2024-01-02 03:04:05]: started".len());
    let e = Logger::with_expansion(Some("/home/u/logs".to_string()), "~/logs".to_string());
    assert_eq!(e.logs_path, "/home/u/logs");
}

#[test]
fn logger_new_expands_home() {
    let l = Logger::new("/var/log/ledit".to_string());
    assert_eq!(l.logs_path, "/var/log/ledit");
    assert!(l.logs.is_empty());
}
