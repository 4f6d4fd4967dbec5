//! Configuration from the environment's values.

use ollm::config::{parse_number, Config, Vars};

fn unset() -> Vars {
    Vars {
        home: None,
        backend_url: None,
        bind: None,
        cache_dir: None,
        cache_limit_mb: None,
        backend_api_key: None,
        session_header: None,
    }
}

#[test]
fn defaults() {
    let c = Config::from_vars(&unset());
    assert_eq!(c.backend, "http://127.0.0.1:1245");
    assert_eq!(c.bind, "0.0.0.0:1247");
    assert_eq!(c.cache_dir, "/tmp/.ollm/cache");
    assert_eq!(c.cache_limit_mb, 51200);
    assert_eq!(c.backend_api_key, None);
    assert_eq!(c.session_header, "x-session-id");
}

#[test]
fn given_values() {
    let c = Config::from_vars(&Vars {
        home: Some("/home/u".to_string()),
        backend_url: Some("http://b".to_string()),
        bind: Some("127.0.0.1:1".to_string()),
        cache_dir: None,
        cache_limit_mb: Some("2048".to_string()),
        backend_api_key: Some("k".to_string()),
        session_header: Some("x-conv".to_string()),
    });
    assert_eq!(c.backend, "http://b");
    assert_eq!(c.bind, "127.0.0.1:1");
    assert_eq!(c.cache_dir, "/home/u/.ollm/cache");
    assert_eq!(c.cache_limit_mb, 2048);
    assert_eq!(c.backend_api_key, Some("k".to_string()));
    assert_eq!(c.session_header, "x-conv");
}

#[test]
fn odd_values() {
    let mut v = unset();
    v.home = Some("/".to_string());
    v.cache_limit_mb = Some("20 GB".to_string());
    v.backend_api_key = Some(String::new());
    let c = Config::from_vars(&v);
    assert_eq!(c.cache_dir, "/.ollm/cache");
    assert_eq!(c.cache_limit_mb, 51200);
    assert_eq!(c.backend_api_key, None);
    v.cache_dir = Some("/var/lib/ollm".to_string());
    assert_eq!(Config::from_vars(&v).cache_dir, "/var/lib/ollm");
}

#[test]
fn numbers_are_read_as_the_standard_library_reads_them() {
    for s in ["0", "7", "+7", "007", "18446744073709551615", "18446744073709551616", "", "+", "++1", "-1", " 1", "1 ", "1_0", "\u{661}", "99999999999999999999999"] {
        assert_eq!(parse_number(s), s.parse::<u64>().ok(), "{s:?}");
    }
}
