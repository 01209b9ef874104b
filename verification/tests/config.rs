use runi::config::Config;

fn config() -> Config {
    let mut c = Config::new();
    c.set("host", "localhost");
    c.set("port", "8080");
    c.set("name", "runi");
    c
}

#[test]
fn empty_config() {
    let c = Config::new();
    assert!(c.is_empty());
    assert_eq!(c.get("missing"), None);
}

#[test]
fn get_values() {
    let config = config();
    assert_eq!(config.get("host"), Some("localhost"));
    assert_eq!(config.get("port"), Some("8080"));
    assert_eq!(config.len(), 3);
}

#[test]
fn get_with_default() {
    let config = config();
    assert_eq!(config.get_or("missing", "fallback"), "fallback");
    assert_eq!(config.get_or("host", "fallback"), "localhost");
}

#[test]
fn parse_u64() {
    let config = config();
    for (key, expected) in [("port", Some(8080)), ("name", None), ("missing", None)] {
        assert_eq!(config.get_u64(key), expected);
    }
}

#[test]
fn set_overwrites_and_keeps_len() {
    let mut c = config();
    c.set("port", "9090");
    assert_eq!(c.get("port"), Some("9090"));
    assert_eq!(c.len(), 3);
    let mut keys = c.keys();
    keys.sort();
    assert_eq!(keys, vec!["host".to_string(), "name".to_string(), "port".to_string()]);
}

fn vars(pairs: &[(&str, &str)]) -> Vec<(String, String)> {
    pairs.iter().map(|(k, v)| (k.to_string(), v.to_string())).collect()
}

#[test]
fn from_env_vars_strips_prefix_and_lowercases() {
    let env = vars(&[
        ("RUNI_TEST_HOST", "localhost"),
        ("RUNI_TEST_PORT", "9090"),
        ("OTHER_HOST", "elsewhere"),
        ("RUNI_TESTX", "no separator"),
    ]);
    let c = Config::from_vars("runi_test", &env);
    assert_eq!(c.get("host"), Some("localhost"));
    assert_eq!(c.get("port"), Some("9090"));
    assert_eq!(c.len(), 2);
}

#[test]
fn from_env_vars_later_entry_wins() {
    let env = vars(&[("APP_MODE", "a"), ("APP_Mode", "b")]);
    let c = Config::from_vars("app", &env);
    assert_eq!(c.get("mode"), Some("b"));
    assert_eq!(c.len(), 1);
}

#[test]
fn from_env() {
    // The environment as the process would hand it over.
    let env = vars(&[("RUNI_TEST_HOST", "localhost"), ("RUNI_TEST_PORT", "9090")]);
    let c = Config::from_vars("RUNI_TEST", &env);
    assert_eq!(c.get("host"), Some("localhost"));
    assert_eq!(c.get("port"), Some("9090"));
}
