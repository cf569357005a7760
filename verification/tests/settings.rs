use crawl_stats::config::{
    parse_u16, text_or, value_or, Config, DEFAULT_CONCURRENCY, DEFAULT_TIMEOUT_SECS,
};

#[test]
fn numbers_are_read_as_u16_reads_them() {
    for text in
        ["0", "7", "10", "007", "+5", "65535", "65536", "99999999999999999999", "", "+", "-1", " 1",
         "1 ", "1_000", "12a", "a12", "++1", "+-1", "１２", "0x10", "1.0", "+0", "000000000065535"]
    {
        assert_eq!(parse_u16(text), text.parse::<u16>().ok(), "for {:?}", text);
    }
    assert_eq!(parse_u16("1000"), Some(1000));
    assert_eq!(parse_u16("65535"), Some(65535));
    assert_eq!(parse_u16("65536"), None);
    assert_eq!(parse_u16("+42"), Some(42));
}

#[test]
fn absent_or_unreadable_setting_falls_back() {
    assert_eq!(value_or(None, 10), 10);
    assert_eq!(value_or(Some("25"), 10), 25);
    assert_eq!(value_or(Some("many"), 10), 10);
    assert_eq!(value_or(Some(""), 5), 5);
    assert_eq!(value_or(Some("70000"), 1000), 1000);
    assert_eq!(text_or(None, "reqwest-fetch"), "reqwest-fetch");
    assert_eq!(text_or(Some("probe/1.0".to_string()), "reqwest-fetch"), "probe/1.0");
    assert_eq!(text_or(Some(String::new()), "reqwest-fetch"), "");
}

#[test]
fn defaults_are_ten_requests_and_five_seconds() {
    assert_eq!(DEFAULT_CONCURRENCY, 10);
    assert_eq!(DEFAULT_TIMEOUT_SECS, 5);
    let config = Config::defaults();
    assert_eq!(config.concurrency_limit, 10);
    assert_eq!(config.request_timeout_secs, 5);
    assert_eq!(config.url_limit, None);
    assert_eq!(config.user_agent, "reqwest-fetch");
}

#[test]
fn settings_come_from_the_given_texts() {
    let config = Config::from_values(Some("100"), Some("x"), Some("1000"), None);
    assert_eq!(config.concurrency_limit, 100);
    assert_eq!(config.request_timeout_secs, 5);
    assert_eq!(config.url_limit, Some(1000));
    assert_eq!(config.user_agent, "reqwest-fetch");
    let config = Config::from_values(None, Some("30"), Some("all"), Some("probe".to_string()));
    assert_eq!(config.concurrency_limit, 10);
    assert_eq!(config.request_timeout_secs, 30);
    assert_eq!(config.url_limit, None);
    assert_eq!(config.user_agent, "probe");
}
