use astral::config::{Config, EnvValue};
use astral::error::AstralError;

#[test]
fn default_config_has_a_safe_log_filter() {
    assert_eq!(Config::default().log_filter, "astral=info");
}

#[test]
fn missing_rust_log_uses_the_default_filter() {
    let config = Config::from_env(EnvValue::NotPresent).expect("default config");
    assert_eq!(config.log_filter, "astral=info");
}

#[test]
fn rust_log_value_is_used_as_the_filter() {
    let config = Config::from_env(EnvValue::Present("astral=debug".to_owned())).expect("config");
    assert_eq!(config.log_filter, "astral=debug");
}

#[test]
fn blank_rust_log_is_refused() {
    let error = Config::from_env(EnvValue::Present(" \t\n".to_owned())).unwrap_err();
    assert_eq!(
        error,
        AstralError::InvalidConfiguration { message: "RUST_LOG must not be empty".to_owned() }
    );
    assert_eq!(error.message(), "invalid configuration: RUST_LOG must not be empty");
    assert_eq!(error.kind(), "invalid_configuration");
}

#[test]
fn non_unicode_rust_log_is_refused() {
    let error = Config::from_env(EnvValue::NotUnicode).unwrap_err();
    assert_eq!(
        error,
        AstralError::InvalidConfiguration { message: "RUST_LOG must be valid UTF-8".to_owned() }
    );
}
