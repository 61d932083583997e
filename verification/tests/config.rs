use dummycloud::config::{
    broker_settings, broker_settings_from_url, parse_log_level, AppConfig, ConfigError, LogLevel,
    TlsMode, UrlParts,
};

fn s(v: &str) -> Option<String> {
    Some(v.to_owned())
}

#[test]
fn log_levels_ignore_case() {
    assert_eq!(parse_log_level("trace"), Ok(LogLevel::Trace));
    assert_eq!(parse_log_level("DEBUG"), Ok(LogLevel::Debug));
    assert_eq!(parse_log_level("Info"), Ok(LogLevel::Info));
    assert_eq!(parse_log_level("wArN"), Ok(LogLevel::Warn));
    assert_eq!(parse_log_level("error"), Ok(LogLevel::Error));
    assert_eq!(parse_log_level("verbose"), Err(ConfigError::InvalidLogLevel));
    assert_eq!(parse_log_level(""), Err(ConfigError::InvalidLogLevel));
}

#[test]
fn config_requires_an_mqtt_url() {
    assert_eq!(AppConfig::from_values(None, None, None, None).unwrap_err(), ConfigError::MissingBrokerUrl);
    assert_eq!(
        AppConfig::from_values(s("http://broker"), None, None, None).unwrap_err(),
        ConfigError::InvalidBrokerScheme
    );
    assert!(AppConfig::from_values(s("mqtt://broker"), None, None, None).is_ok());
    assert!(AppConfig::from_values(s("mqtts://broker"), None, None, None).is_ok());
}

#[test]
fn config_credentials_and_cert_check() {
    assert_eq!(
        AppConfig::from_values(s("mqtt://b"), s(""), s("pw"), None).unwrap_err(),
        ConfigError::PasswordWithoutUsername
    );
    let c = AppConfig::from_values(s("mqtt://b"), s("user"), s(""), s("FALSE")).unwrap();
    assert_eq!(c.mqtt_broker_url, "mqtt://b");
    assert_eq!(c.mqtt_username, s("user"));
    assert_eq!(c.mqtt_password, None);
    assert!(!c.mqtt_check_cert);
    let c = AppConfig::from_values(s("mqtt://b"), None, None, s("no")).unwrap();
    assert!(c.mqtt_check_cert);
    let c = AppConfig::from_values(s("mqtt://b"), None, None, None).unwrap();
    assert!(c.mqtt_check_cert);
}

fn config(url: &str, user: Option<String>, password: Option<String>, check: bool) -> AppConfig {
    AppConfig { mqtt_broker_url: url.to_owned(), mqtt_username: user, mqtt_password: password, mqtt_check_cert: check }
}

#[test]
fn broker_settings_from_parsed_url() {
    let c = config("mqtts://b", s("u"), None, false);
    let parts = UrlParts { scheme: "mqtts".to_owned(), host: s("b"), port: None };
    let b = broker_settings_from_url(&c, Some(parts)).unwrap();
    assert_eq!(b.host, "b");
    assert_eq!(b.port, 8883);
    assert_eq!(b.credentials, Some(("u".to_owned(), String::new())));
    assert_eq!(b.tls, TlsMode::AcceptInvalidCerts);
    assert_eq!(b.keep_alive_secs, 30);
    let parts = UrlParts { scheme: "http".to_owned(), host: s("b"), port: None };
    assert_eq!(broker_settings_from_url(&c, Some(parts)).unwrap_err(), ConfigError::InvalidBrokerScheme);
    let parts = UrlParts { scheme: "mqtt".to_owned(), host: None, port: Some(1) };
    assert_eq!(broker_settings_from_url(&c, Some(parts)).unwrap_err(), ConfigError::MissingBrokerHost);
    assert_eq!(broker_settings_from_url(&c, None).unwrap_err(), ConfigError::InvalidBrokerUrl);
}

#[test]
fn broker_settings_parse_the_url() {
    let b = broker_settings(&config("mqtt://core-mosquitto:1884", None, None, true)).unwrap();
    assert_eq!(b.host, "core-mosquitto");
    assert_eq!(b.port, 1884);
    assert_eq!(b.tls, TlsMode::Plain);
    assert_eq!(b.credentials, None);
    assert_eq!(b.keep_alive_secs, 30);
    let b = broker_settings(&config("MQTTS://192.168.178.100", s("u"), s("p"), true)).unwrap();
    assert_eq!(b.host, "192.168.178.100");
    assert_eq!(b.port, 8883);
    assert_eq!(b.tls, TlsMode::Verified);
    assert_eq!(b.credentials, Some(("u".to_owned(), "p".to_owned())));
    assert_eq!(broker_settings(&config("no scheme here", None, None, true)).unwrap_err(), ConfigError::InvalidBrokerUrl);
}
