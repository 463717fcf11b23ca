use presence_hub::config::{
    parse_u64, resolve_buffer_size, resolve_server_port, resolve_store_url, ConfigError,
    ConfigSetting, DEFAULT_BUFFER_SIZE, DEFAULT_SERVER_PORT,
};

#[test]
fn unset_settings_fall_back_to_defaults() {
    assert_eq!(resolve_buffer_size(None).unwrap(), DEFAULT_BUFFER_SIZE);
    assert_eq!(resolve_buffer_size(None).unwrap(), 10);
    assert_eq!(resolve_server_port(None).unwrap(), DEFAULT_SERVER_PORT);
    assert_eq!(resolve_server_port(None).unwrap(), 3000);
    assert_eq!(resolve_store_url(None), "redis://127.0.0.1/");
}

#[test]
fn set_settings_are_taken_as_given() {
    assert_eq!(resolve_buffer_size(Some("32")).unwrap(), 32);
    assert_eq!(resolve_server_port(Some("8080")).unwrap(), 8080);
    assert_eq!(resolve_store_url(Some("redis://example:6379/")), "redis://example:6379/");
}

#[test]
fn non_numeric_values_fail_startup_naming_the_setting() {
    let e = resolve_buffer_size(Some("ten")).unwrap_err();
    assert!(matches!(e, ConfigError::Invalid(ConfigSetting::BufferSize)));
    assert_eq!(e.message(), "BROADCAST_BUFFER_SIZE doit être un nombre");
    let e = resolve_server_port(Some("3000x")).unwrap_err();
    assert!(matches!(e, ConfigError::Invalid(ConfigSetting::ServerPort)));
    assert_eq!(e.message(), "SERVER_PORT doit être un nombre");
}

#[test]
fn out_of_range_values_are_refused() {
    assert!(resolve_buffer_size(Some("0")).is_err());
    assert!(resolve_server_port(Some("65536")).is_err());
    assert_eq!(resolve_server_port(Some("65535")).unwrap(), 65535);
    assert_eq!(resolve_server_port(Some("0")).unwrap(), 0);
}

#[test]
fn parse_u64_reads_decimal_exactly() {
    assert_eq!(parse_u64("0"), Some(0));
    assert_eq!(parse_u64("86400"), Some(86400));
    assert_eq!(parse_u64("18446744073709551615"), Some(u64::MAX));
    assert_eq!(parse_u64("18446744073709551616"), None);
    assert_eq!(parse_u64(""), None);
    assert_eq!(parse_u64("-1"), None);
    assert_eq!(parse_u64("1 "), None);
    assert_eq!(parse_u64("1.5"), None);
}
