// Tests of the server configuration, built from the values that the
// environment variables REGION_ID, PORT and NATS_URL hold (None when unset).

use regional_ws::config::{parse_port, Config, ConfigError};

fn some(s: &str) -> Option<String> {
    Some(s.to_string())
}

#[test]
fn config_loads_all_fields_from_env() {
    let cfg = Config::from_values(some("us-east"), some("3001"), some("nats://custom:4222"))
        .expect("Config should load successfully");
    assert_eq!(cfg.region_id, "us-east");
    assert_eq!(cfg.port, 3001);
    assert_eq!(cfg.nats_url, "nats://custom:4222");
}

#[test]
fn config_port_defaults_to_3000_when_not_set() {
    let cfg = Config::from_values(some("eu-west"), None, None)
        .expect("Config should load with PORT default");
    assert_eq!(cfg.port, 3000);
}

#[test]
fn config_nats_url_defaults_when_not_set() {
    let cfg = Config::from_values(some("ap-south"), None, None)
        .expect("Config should load with NATS default");
    assert_eq!(cfg.nats_url, "nats://localhost:4222");
}

#[test]
fn config_fails_when_region_id_is_missing() {
    let result = Config::from_values(None, some("3001"), some("nats://localhost:4222"));
    assert!(result.is_err(), "Config should fail when REGION_ID is absent");
    let err = result.unwrap_err();
    assert_eq!(err, ConfigError::MissingVar("REGION_ID".to_string()));
    let msg = err.message();
    assert!(msg.contains("REGION_ID"), "Error should mention REGION_ID, got: {msg}");
    assert_eq!(msg, "Missing required env var: 'REGION_ID'");
}

#[test]
fn config_fails_when_port_is_not_a_number() {
    let result = Config::from_values(some("us-east"), some("not-a-port"), some("nats://localhost:4222"));
    assert!(result.is_err(), "Config should fail for non-numeric PORT");
    let msg = result.unwrap_err().message();
    assert!(msg.contains("not-a-port"), "Error should mention the invalid value, got: {msg}");
    assert_eq!(msg, "'not-a-port' is not a valid port number");
}

#[test]
fn config_fails_when_port_exceeds_u16_range() {
    let result = Config::from_values(some("us-east"), some("99999"), some("nats://localhost:4222"));
    assert!(result.is_err(), "Config should fail for port > 65535");
    assert_eq!(result.unwrap_err(), ConfigError::InvalidPort("99999".to_string()));
}

#[test]
fn parse_port_agrees_with_std() {
    let cases = [
        "0", "1", "3000", "65535", "65536", "99999", "+80", "+", "", "-1", "-0", " 80", "80 ",
        "0080", "00000000000000000000000000065535", "123456789012345678901234567890", "8a", "٣",
    ];
    for c in cases.iter() {
        assert_eq!(parse_port(c), c.parse::<u16>().ok(), "input {c:?}");
    }
}

#[test]
fn parse_port_boundaries() {
    assert_eq!(parse_port("65535"), Some(65535));
    assert_eq!(parse_port("65536"), None);
    assert_eq!(parse_port("+3001"), Some(3001));
    assert_eq!(parse_port(""), None);
}
