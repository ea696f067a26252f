use rust_proxy::common::config::{
    default_archive_pattern, default_buffer_size, default_connect_timeout, default_file_count,
    default_file_size, default_listen_address, default_log_level, default_log_path,
    default_max_connections, Config, ConfigError, Loaded, LoggerConfig, Overrides,
};

fn usable() -> Config {
    Config {
        listen_address: default_listen_address(),
        users: Vec::new(),
        log: LoggerConfig::default(),
        buffer_size: default_buffer_size(),
        max_connections: default_max_connections(),
        connect_timeout: default_connect_timeout(),
        base_path: None,
    }
}

fn nothing_asked() -> Overrides {
    Overrides {
        listen_address: None,
        log_level: "info".to_string(),
        buffer_size: None,
        max_connections: None,
        connect_timeout: None,
        base_path: None,
    }
}

fn message(result: Result<(), ConfigError>) -> String {
    match result {
        Err(ConfigError::InvalidConfig(text)) => text,
        other => panic!("{other:?}"),
    }
}

#[test]
fn defaults() {
    assert_eq!(default_listen_address(), "127.0.0.1:1080");
    assert_eq!(default_log_level(), "Info");
    assert_eq!(default_log_path(), "logs/rust-proxy.log");
    assert_eq!(default_archive_pattern(), "logs/archive/rust-proxy-{}.log");
    assert_eq!(default_file_count(), 5);
    assert_eq!(default_file_size(), 10);
    assert_eq!(default_buffer_size(), 4096);
    assert_eq!(default_max_connections(), 1024);
    assert_eq!(default_connect_timeout(), 10);
    let log = LoggerConfig::default();
    assert_eq!(log.level, "Info");
    assert_eq!(log.file_size, 10);
    assert_eq!(log.file_count, 5);
    let empty = Config::default();
    assert_eq!(empty.listen_address, "");
    assert_eq!(empty.buffer_size, 0);
    assert_eq!(empty.log.path, "logs/rust-proxy.log");
}

#[test]
fn default_settings_are_usable() {
    assert!(usable().validate(true).is_ok());
}

#[test]
fn each_fault_has_its_message() {
    let mut c = usable();
    c.listen_address = String::new();
    assert_eq!(message(c.validate(false)), "Listen address cannot be empty");

    let mut c = usable();
    c.listen_address = "nowhere".to_string();
    assert_eq!(message(c.validate(false)), "Invalid listen address format: nowhere");

    let mut c = usable();
    c.buffer_size = 0;
    assert_eq!(
        message(c.validate(true)),
        "Invalid buffer size: 0. Must be between 1 and 65536"
    );
    c.buffer_size = 65537;
    assert_eq!(
        message(c.validate(true)),
        "Invalid buffer size: 65537. Must be between 1 and 65536"
    );
    c.buffer_size = 65536;
    assert!(c.validate(true).is_ok());

    let mut c = usable();
    c.max_connections = 0;
    assert_eq!(message(c.validate(true)), "max_connections must be greater than 0");

    let mut c = usable();
    c.connect_timeout = 0;
    assert_eq!(message(c.validate(true)), "connect_timeout must be greater than 0");
}

#[test]
fn what_is_asked_for_goes_first() {
    let mut c = usable();
    c.apply(Overrides {
        listen_address: Some("0.0.0.0:1".to_string()),
        log_level: "Debug".to_string(),
        buffer_size: Some(1),
        max_connections: Some(2),
        connect_timeout: Some(3),
        base_path: Some("/base".to_string()),
    });
    assert_eq!(c.listen_address, "0.0.0.0:1");
    assert_eq!(c.log.level, "Debug");
    assert_eq!(c.buffer_size, 1);
    assert_eq!(c.max_connections, 2);
    assert_eq!(c.connect_timeout, 3);
    assert_eq!(c.base_path.as_deref(), Some("/base"));
    assert_eq!(c.log.path, "logs/rust-proxy.log");
}

#[test]
fn what_is_not_asked_for_stays() {
    let mut c = usable();
    c.base_path = Some("/kept".to_string());
    c.apply(nothing_asked());
    assert_eq!(c.listen_address, "127.0.0.1:1080");
    assert_eq!(c.buffer_size, 4096);
    assert_eq!(c.base_path.as_deref(), Some("/kept"));
    assert_eq!(c.log.level, "Info");
}

#[test]
fn log_level_is_compared_whatever_the_case() {
    let mut c = usable();
    c.log.level = "\u{c4}RGER".to_string();
    let mut asked = nothing_asked();
    asked.log_level = "\u{e4}rger".to_string();
    c.apply(asked);
    assert_eq!(c.log.level, "\u{c4}RGER");
}

#[test]
fn loading_a_file() {
    let missing = Config::from_file(Loaded::Missing("gone".to_string()));
    assert!(matches!(missing, Err(ConfigError::ConfigLibError(reason)) if reason == "gone"));
    let unreadable = Config::from_file(Loaded::Unreadable("bad".to_string()));
    assert!(matches!(unreadable, Err(ConfigError::ParseError(reason)) if reason == "bad"));
    let read = Config::from_file(Loaded::Read(usable())).unwrap();
    assert_eq!(read.buffer_size, 4096);
}
