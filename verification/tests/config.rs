use smtp_relay::config::{startup_error, Config};
use smtp_relay::map::Variables;

fn vars(pairs: &[(&str, &str)]) -> Variables {
    let mut out = Variables::new();
    for (key, value) in pairs {
        out.insert(key.to_string(), value.to_string());
    }
    out
}

fn required(more: &[(&str, &str)]) -> Variables {
    let mut out = vars(&[
        ("RELAY_USERNAME", "u"),
        ("RELAY_PASSWORD", "p"),
        ("SL_API_KEY", "k"),
        ("UPSTREAM_USERNAME", "u"),
        ("UPSTREAM_PASSWORD", "p"),
    ]);
    for (key, value) in more {
        out.insert(key.to_string(), value.to_string());
    }
    out
}

#[test]
fn defaults_match_python() {
    let c = Config::from_env(&vars(&[]));
    assert_eq!(c.relay_host, "0.0.0.0");
    assert_eq!(c.relay_port, 8025);
    assert_eq!(c.tls_enabled, false);
    assert_eq!(c.sl_api_url, "https://app.simplelogin.io");
    assert_eq!(c.upstream_host, "smtp.gmail.com");
    assert_eq!(c.upstream_port, 587);
    assert_eq!(c.upstream_starttls, true);
    assert_eq!(c.data_timeout, 30);
    assert_eq!(c.upstream_timeout, 15);
    assert_eq!(c.log_level, "INFO");
}

#[test]
fn missing_required_vars_reported() {
    let c = Config::from_env(&vars(&[]));
    let err = c.validate().unwrap_err();
    assert!(err.contains(&"RELAY_USERNAME"));
    assert!(err.contains(&"RELAY_PASSWORD"));
    assert!(err.contains(&"SL_API_KEY"));
    assert!(err.contains(&"UPSTREAM_USERNAME"));
    assert!(err.contains(&"UPSTREAM_PASSWORD"));
}

#[test]
fn tls_enabled_requires_cert_and_key() {
    let c = Config::from_env(&required(&[("TLS_ENABLED", "true")]));
    assert!(c.validate().is_err());
    let c2 = Config::from_env(&required(&[
        ("TLS_ENABLED", "true"),
        ("TLS_CERT", "/tmp/cert.pem"),
        ("TLS_KEY", "/tmp/key.pem"),
    ]));
    assert!(c2.validate().is_ok());
}

#[test]
fn valid_config_passes() {
    let c = Config::from_env(&required(&[]));
    assert!(c.validate().is_ok());
}

#[test]
fn set_variables_are_taken() {
    let c = Config::from_env(&required(&[
        ("RELAY_HOST", "127.0.0.1"),
        ("RELAY_PORT", "2525"),
        ("SL_API_URL", "http://localhost:1"),
        ("UPSTREAM_HOST", "mail.test"),
        ("UPSTREAM_PORT", "25"),
        ("UPSTREAM_STARTTLS", "false"),
        ("DATA_TIMEOUT", "1"),
        ("UPSTREAM_TIMEOUT", "5"),
        ("LOG_LEVEL", "debug"),
    ]));
    assert_eq!(c.relay_host, "127.0.0.1");
    assert_eq!(c.relay_port, 2525);
    assert_eq!(c.relay_username, Some("u".to_string()));
    assert_eq!(c.sl_api_url, "http://localhost:1");
    assert_eq!(c.upstream_host, "mail.test");
    assert_eq!(c.upstream_port, 25);
    assert_eq!(c.upstream_starttls, false);
    assert_eq!(c.data_timeout, 1);
    assert_eq!(c.upstream_timeout, 5);
    assert_eq!(c.log_level, "DEBUG");
}

#[test]
fn flags_are_true_in_any_letter_case_only() {
    assert!(Config::from_env(&vars(&[("TLS_ENABLED", "TRUE")])).tls_enabled);
    assert!(Config::from_env(&vars(&[("TLS_ENABLED", "tRuE")])).tls_enabled);
    assert!(!Config::from_env(&vars(&[("TLS_ENABLED", "1")])).tls_enabled);
    assert!(!Config::from_env(&vars(&[("UPSTREAM_STARTTLS", "")])).upstream_starttls);
}

#[test]
fn bad_numbers_give_the_default() {
    for bad in ["", "abc", "-1", "65536", " 25", "25 ", "+"] {
        assert_eq!(Config::from_env(&vars(&[("RELAY_PORT", bad)])).relay_port, 8025);
    }
    assert_eq!(Config::from_env(&vars(&[("RELAY_PORT", "65535")])).relay_port, 65535);
    assert_eq!(Config::from_env(&vars(&[("RELAY_PORT", "+25")])).relay_port, 25);
    assert_eq!(Config::from_env(&vars(&[("RELAY_PORT", "00025")])).relay_port, 25);
    let wide = vars(&[("DATA_TIMEOUT", "18446744073709551615")]);
    assert_eq!(Config::from_env(&wide).data_timeout, u64::MAX);
    let too_wide = vars(&[("DATA_TIMEOUT", "18446744073709551616")]);
    assert_eq!(Config::from_env(&too_wide).data_timeout, 30);
}

#[test]
fn empty_required_variables_count_as_missing() {
    let c = Config::from_env(&required(&[("SL_API_KEY", ""), ("UPSTREAM_PASSWORD", "")]));
    assert_eq!(
        c.validate(),
        Err(vec!["SL_API_KEY", "UPSTREAM_PASSWORD"])
    );
}

#[test]
fn startup_errors_in_words() {
    let nothing = Config::from_env(&vars(&[("RELAY_USERNAME", "u"), ("SL_API_KEY", "k")]));
    assert_eq!(
        startup_error(&nothing.validate().unwrap_err()),
        "Missing required env vars: RELAY_PASSWORD, UPSTREAM_USERNAME, UPSTREAM_PASSWORD"
    );
    let no_key = Config::from_env(&required(&[
        ("TLS_ENABLED", "true"),
        ("TLS_CERT", "/tmp/cert.pem"),
    ]));
    assert_eq!(
        startup_error(&no_key.validate().unwrap_err()),
        "TLS_ENABLED=true but TLS_CERT or TLS_KEY not set"
    );
}

#[test]
fn letter_case_goes_by_unicode() {
    let c = Config::from_env(&vars(&[("LOG_LEVEL", "stra\u{df}e")]));
    assert_eq!(c.log_level, "STRASSE");
    assert!(!Config::from_env(&vars(&[("TLS_ENABLED", "TRU\u{c9}")])).tls_enabled);
}
