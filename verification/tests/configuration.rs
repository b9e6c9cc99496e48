use issue_relay::config::{load_config, parse_u64, ConfigError};

fn s(v: &str) -> Option<String> {
    Some(String::from(v))
}

#[test]
fn full_environment_is_accepted() {
    let cfg = load_config(s("https://gitlab.example.com"), s("SECRET-REDACTED"), s("42")).unwrap();
    assert_eq!(cfg.host, "https://gitlab.example.com");
    assert_eq!(cfg.api_token, "SECRET-REDACTED");
    assert_eq!(cfg.project_id, 42);
}

#[test]
fn missing_host_prevents_start() {
    let r = load_config(None, s("t"), s("1"));
    assert_eq!(r.err(), Some(ConfigError::MissingHost));
}

#[test]
fn missing_token_prevents_start() {
    let r = load_config(s("h"), None, s("1"));
    assert_eq!(r.err(), Some(ConfigError::MissingApiToken));
}

#[test]
fn missing_project_id_prevents_start() {
    let r = load_config(s("h"), s("t"), None);
    assert_eq!(r.err(), Some(ConfigError::MissingProjectId));
}

#[test]
fn non_numeric_project_id_prevents_start() {
    for bad in ["", "abc", "12a", "-1", "+", "1.5", " 7"] {
        let r = load_config(s("h"), s("t"), s(bad));
        assert_eq!(r.err(), Some(ConfigError::InvalidProjectId), "accepted {:?}", bad);
    }
}

#[test]
fn project_id_is_parsed_as_a_decimal_number() {
    assert_eq!(parse_u64("0"), Some(0));
    assert_eq!(parse_u64("42"), Some(42));
    assert_eq!(parse_u64("+42"), Some(42));
    assert_eq!(parse_u64("007"), Some(7));
    assert_eq!(parse_u64("18446744073709551615"), Some(u64::MAX));
}

#[test]
fn out_of_range_project_id_is_rejected() {
    assert_eq!(parse_u64("18446744073709551616"), None);
    assert_eq!(parse_u64("99999999999999999999999"), None);
}

#[test]
fn parse_u64_agrees_with_the_standard_library() {
    for input in ["0", "42", "+42", "007", "18446744073709551615", "18446744073709551616", "", "+", "-1", "12a", " 7", "7 "] {
        assert_eq!(parse_u64(input), input.parse::<u64>().ok(), "disagrees on {:?}", input);
    }
}
