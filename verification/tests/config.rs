//! Settings and ranges.

use ip_ban::address::{in_cidr, Ipv4Addr};
use ip_ban::config::{
    parse_bool_env, parse_cidr_list, parse_u32_env, parse_u64_env, IpBanConfig,
};
use ip_ban::text::{chars_of, text_of, trimmed, CharClass};

fn vars(pairs: &[(&str, &str)]) -> Vec<(String, String)> {
    pairs
        .iter()
        .map(|(name, value)| (name.to_string(), value.to_string()))
        .collect()
}

#[test]
fn defaults_hold_in_an_empty_environment() {
    let config = IpBanConfig::from_env(&[]);
    assert!(config.enabled);
    assert_eq!(config.max_retries, 5);
    assert_eq!(config.find_time_secs, 300);
    assert_eq!(config.ban_time_secs, 1800);
    assert_eq!(config.unban_check_interval_secs, 60);
    assert_eq!(
        config.trusted_proxy_ranges,
        vec![
            (Ipv4Addr::new(10, 0, 0, 0), 8),
            (Ipv4Addr::new(172, 16, 0, 0), 12),
            (Ipv4Addr::new(192, 168, 0, 0), 16),
        ]
    );
    assert!(config.allowlist_ranges.is_empty());
    assert_eq!(config.max_bans_per_minute, 10);

    assert!(config.is_trusted_proxy(&Ipv4Addr::new(172, 31, 255, 255)));
    assert!(!config.is_trusted_proxy(&Ipv4Addr::new(172, 32, 0, 0)));
    assert!(!config.is_allowlisted(&Ipv4Addr::new(10, 0, 0, 1)));
}

#[test]
fn settings_are_read_from_the_environment() {
    let config = IpBanConfig::from_env(&vars(&[
        ("PATH", "/bin"),
        ("STACKDOG_IP_BAN_ENABLED", " Off\n"),
        ("STACKDOG_IP_BAN_MAX_RETRIES", " 7 "),
        ("STACKDOG_IP_BAN_FIND_TIME_SECS", "18446744073709551615"),
        ("STACKDOG_IP_BAN_BAN_TIME_SECS", "18446744073709551616"),
        ("STACKDOG_IP_BAN_UNBAN_CHECK_INTERVAL_SECS", "+9"),
        ("STACKDOG_TRUSTED_PROXY_RANGES", ""),
        ("STACKDOG_IP_BAN_ALLOWLIST", "192.0.2.1"),
        ("STACKDOG_IP_BAN_MAX_PER_MINUTE", "0"),
        ("STACKDOG_IP_BAN_MAX_RETRIES", "8"),
    ]));
    assert!(!config.enabled);
    assert_eq!(config.max_retries, 7);
    assert_eq!(config.find_time_secs, u64::MAX);
    assert_eq!(config.ban_time_secs, 1800);
    assert_eq!(config.unban_check_interval_secs, 9);
    assert!(config.trusted_proxy_ranges.is_empty());
    assert_eq!(
        config.allowlist_ranges,
        vec![(Ipv4Addr::new(192, 0, 2, 1), 32)]
    );
    assert_eq!(config.max_bans_per_minute, 0);
}

#[test]
fn words_and_numbers_fall_back_to_their_defaults() {
    for word in ["1", "true", "YES", " on "] {
        assert!(parse_bool_env(Some(word), false), "{word:?}");
    }
    for word in ["0", "False", "no", "OFF"] {
        assert!(!parse_bool_env(Some(word), true), "{word:?}");
    }
    for word in ["", "2", "enabled"] {
        assert!(parse_bool_env(Some(word), true));
        assert!(!parse_bool_env(Some(word), false));
    }
    assert!(parse_bool_env(None, true));
    assert_eq!(parse_u64_env(Some("x"), 3), 3);
    assert_eq!(parse_u64_env(Some("-1"), 3), 3);
    assert_eq!(parse_u64_env(Some(""), 3), 3);
    assert_eq!(parse_u64_env(None, 3), 3);
    assert_eq!(parse_u32_env(Some("4294967295"), 3), u32::MAX);
    assert_eq!(parse_u32_env(Some("4294967296"), 3), 3);
    assert_eq!(parse_u32_env(Some("007"), 3), 7);
}

#[test]
fn lists_of_ranges_skip_what_they_cannot_read() {
    assert_eq!(
        parse_cidr_list(" 10.0.0.0/8 ,, nonsense, 1.2.3.4/x, 1.2.3.4/256, 01.2.3.4/8, 1.2.3.4/40,5.6.7.8"),
        vec![
            (Ipv4Addr::new(10, 0, 0, 0), 8),
            (Ipv4Addr::new(1, 2, 3, 4), 40),
            (Ipv4Addr::new(5, 6, 7, 8), 32),
        ]
    );
    assert!(parse_cidr_list("").is_empty());
    assert!(parse_cidr_list("10.0.0.0 /8,10.0.0.0/ 8,/8,10.0.0.0/").is_empty());
    assert_eq!(
        parse_cidr_list("10.0.0.0/+08"),
        vec![(Ipv4Addr::new(10, 0, 0, 0), 8)]
    );
}

#[test]
fn prefixes_select_the_leading_bits() {
    let ip = Ipv4Addr::new(192, 168, 200, 77);
    let bits = u32::from_be_bytes([192, 168, 200, 77]);
    for prefix_len in 0..=32u8 {
        assert!(in_cidr(&ip, &ip, prefix_len));
        for flipped in 0..32u8 {
            let [a, b, c, d] = (bits ^ (1 << flipped)).to_be_bytes();
            let other = Ipv4Addr::new(a, b, c, d);
            assert_eq!(in_cidr(&other, &ip, prefix_len), flipped + prefix_len < 32);
        }
    }
}

#[test]
fn a_search_stops_at_the_first_range_that_holds_the_address() {
    let mut config = IpBanConfig::from_env(&[]);
    config.trusted_proxy_ranges = parse_cidr_list("10.0.0.0/8,1.1.1.1/33,2.2.2.2");
    let inside = Ipv4Addr::new(10, 1, 1, 1);
    assert!(config.can_search_proxies(&inside));
    assert!(config.is_trusted_proxy(&inside));
    assert!(!config.can_search_proxies(&Ipv4Addr::new(2, 2, 2, 2)));
    assert!(config.can_search_allowlist(&Ipv4Addr::new(2, 2, 2, 2)));
}

#[test]
fn white_space_is_that_of_unicode() {
    for code in 0..=0x10ffffu32 {
        if let Some(c) = char::from_u32(code) {
            assert_eq!(CharClass::WhiteSpace.contains(c), c.is_whitespace(), "{code:#x}");
            assert_eq!(CharClass::Dot.contains(c), c == '.');
        }
    }
    let chars = chars_of("\u{3000} \ta b\u{a0}\n");
    assert_eq!(text_of(trimmed(&chars, CharClass::WhiteSpace)), "a b");
    assert_eq!(text_of(trimmed(&[], CharClass::WhiteSpace)), "");
}
