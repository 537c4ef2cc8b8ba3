use hc_auth_server::config::{parse_api_tokens, parse_unsigned, settings_from_vars, ConfigError, EnvVars};

fn vars_with(api_tokens: Option<&str>, production: Option<&str>) -> EnvVars {
    EnvVars {
        github_client_id: Some("id".to_string()),
        github_client_secret: Some("secret".to_string()),
        github_org: Some("org".to_string()),
        github_team: Some("team".to_string()),
        session_secret: Some("s3cr3t".to_string()),
        host: None,
        port: None,
        redis_url: None,
        max_pending_requests: None,
        api_tokens: api_tokens.map(|s| s.to_string()),
        production: production.map(|s| s.to_string()),
    }
}

#[test]
fn test_parse_api_tokens() {
    let config = settings_from_vars(vars_with(Some("token1, token2 ,token3,,"), None)).unwrap();
    assert_eq!(config.api_tokens.len(), 3);
    assert!(config.api_tokens.contains("token1"));
    assert!(config.api_tokens.contains("token2"));
    assert!(config.api_tokens.contains("token3"));
}

#[test]
fn test_empty_api_tokens() {
    let config = settings_from_vars(vars_with(Some(""), None)).unwrap();
    assert!(config.api_tokens.is_empty());
}

#[test]
fn test_production_flag() {
    let config = settings_from_vars(vars_with(None, Some("true"))).unwrap();
    assert!(config.production);

    let config = settings_from_vars(vars_with(None, Some("false"))).unwrap();
    assert!(!config.production);

    let config = settings_from_vars(vars_with(None, None)).unwrap();
    assert!(!config.production);
}

#[test]
fn defaults_apply_when_unset() {
    let config = settings_from_vars(vars_with(None, None)).unwrap();
    assert_eq!(config.host, "127.0.0.1");
    assert_eq!(config.port, 3000);
    assert_eq!(config.max_pending_requests, 10);
    assert_eq!(config.redis_url, None);
    assert_eq!(config.session_secret, b"s3cr3t".to_vec());
    assert!(config.api_tokens.is_empty());
}

#[test]
fn production_flag_other_text_is_off() {
    let config = settings_from_vars(vars_with(None, Some("TRUE"))).unwrap();
    assert!(!config.production);
    let config = settings_from_vars(vars_with(None, Some("yes"))).unwrap();
    assert!(!config.production);
}

#[test]
fn missing_required_variable_is_reported_first() {
    let mut v = vars_with(None, None);
    v.github_org = None;
    v.session_secret = None;
    assert_eq!(settings_from_vars(v).err(), Some(ConfigError::Missing("GITHUB_ORG".to_string())));
    let mut v = vars_with(None, None);
    v.session_secret = None;
    assert_eq!(settings_from_vars(v).err(), Some(ConfigError::Missing("SESSION_SECRET".to_string())));
}

#[test]
fn bad_port_and_count_are_errors() {
    let mut v = vars_with(None, None);
    v.port = Some("70000".to_string());
    assert_eq!(settings_from_vars(v).err(), Some(ConfigError::InvalidPort));
    let mut v = vars_with(None, None);
    v.port = Some("80a".to_string());
    assert_eq!(settings_from_vars(v).err(), Some(ConfigError::InvalidPort));
    let mut v = vars_with(None, None);
    v.max_pending_requests = Some("-1".to_string());
    assert_eq!(settings_from_vars(v).err(), Some(ConfigError::InvalidMaxPendingRequests));
    let mut v = vars_with(None, None);
    v.port = Some("+8080".to_string());
    v.max_pending_requests = Some("007".to_string());
    let c = settings_from_vars(v).unwrap();
    assert_eq!(c.port, 8080);
    assert_eq!(c.max_pending_requests, 7);
}

#[test]
fn unsigned_parsing_matches_from_str() {
    for s in ["0", "65535", "65536", "", "+", "-", "+0", "-0", " 1", "1 ", "00012", "١"] {
        let expected = s.parse::<u16>().ok().map(|v| v as u64);
        assert_eq!(parse_unsigned(s, 65535), expected, "text {:?}", s);
    }
    assert_eq!(parse_unsigned("18446744073709551615", u64::MAX), Some(u64::MAX));
    assert_eq!(parse_unsigned("18446744073709551616", u64::MAX), None);
}

#[test]
fn tokens_are_trimmed_and_deduplicated() {
    let t = parse_api_tokens(" a ,\tb\n, a ,,\u{3000}c\u{3000}, ");
    assert_eq!(t.len(), 3);
    assert!(t.contains("a"));
    assert!(t.contains("b"));
    assert!(t.contains("c"));
    assert!(!t.contains(" a "));
    assert!(!t.contains(""));
}

#[test]
fn stamped_seconds_read_back() {
    for n in [0u64, 7, 10, 1_700_000_000, u64::MAX] {
        let text = hc_auth_server::storage::now_secs(n);
        assert_eq!(parse_unsigned(&text, u64::MAX), Some(n));
    }
}
