use blocklist_worker::config::Config;
use blocklist_worker::numbers::{decimal_string, parse_number};

fn defaults() -> Config {
    Config::from_values(None, None, None, "worker-1".to_string(), None, None, None, None)
}

#[test]
fn settings_have_defaults() {
    let c = defaults();
    assert_eq!(c.mongo_uri, "mongodb://localhost:27017");
    assert_eq!(c.database_name, "blocklist");
    assert_eq!(c.data_dir, "./data");
    assert_eq!(c.worker_id, "worker-1");
    assert_eq!(c.heartbeat_interval_secs, 10);
    assert_eq!(c.max_concurrent_downloads, 10);
    assert_eq!(c.http_timeout_secs, 60);
    assert_eq!(c.cache_ttl_days, 7);
}

#[test]
fn settings_take_what_is_set() {
    let c = Config::from_values(
        Some("mongodb://db:1".to_string()),
        Some("lists".to_string()),
        Some("/srv/data".to_string()),
        "w".to_string(),
        Some("30".to_string()),
        Some("4".to_string()),
        Some("+15".to_string()),
        Some("14".to_string()),
    );
    assert_eq!(c.mongo_uri, "mongodb://db:1");
    assert_eq!(c.database_name, "lists");
    assert_eq!(c.data_dir, "/srv/data");
    assert_eq!(c.heartbeat_interval_secs, 30);
    assert_eq!(c.max_concurrent_downloads, 4);
    assert_eq!(c.http_timeout_secs, 15);
    assert_eq!(c.cache_ttl_days, 14);
}

#[test]
fn a_number_that_does_not_parse_has_its_default() {
    let c = Config::from_values(
        None,
        None,
        None,
        "w".to_string(),
        Some("ten".to_string()),
        Some("-1".to_string()),
        Some("".to_string()),
        Some("99999999999999999999999".to_string()),
    );
    assert_eq!(c.heartbeat_interval_secs, 10);
    assert_eq!(c.max_concurrent_downloads, 10);
    assert_eq!(c.http_timeout_secs, 60);
    assert_eq!(c.cache_ttl_days, 7);
}

#[test]
fn directories_lie_under_the_data_directory() {
    let c = defaults();
    assert_eq!(c.default_dir(), "./data/default");
    assert_eq!(c.user_dir("alice"), "./data/users/alice");
    assert_eq!(c.output_dir("alice"), "./data/users/alice/output");
    assert_eq!(c.output_dir("__default__"), "./data/default/output");
}

#[test]
fn numbers_are_read_as_std_reads_them() {
    assert_eq!(parse_number("0"), Some(0));
    assert_eq!(parse_number("007"), Some(7));
    assert_eq!(parse_number("+42"), Some(42));
    assert_eq!(parse_number("18446744073709551615"), Some(u64::MAX));
    assert_eq!(parse_number("18446744073709551616"), None);
    assert_eq!(parse_number(""), None);
    assert_eq!(parse_number("+"), None);
    assert_eq!(parse_number("-1"), None);
    assert_eq!(parse_number("1 "), None);
    assert_eq!(parse_number("1e3"), None);
    for text in ["12", "+12", "a", "１２", "0x10", "99999999999999999999"] {
        assert_eq!(parse_number(text), text.parse::<u64>().ok());
    }
}

#[test]
fn numbers_are_written_in_decimal() {
    assert_eq!(decimal_string(0), "0");
    assert_eq!(decimal_string(9), "9");
    assert_eq!(decimal_string(10), "10");
    assert_eq!(decimal_string(104857600), "104857600");
    assert_eq!(decimal_string(u64::MAX), "18446744073709551615");
    assert_eq!(parse_number(&decimal_string(123456789)), Some(123456789));
}
