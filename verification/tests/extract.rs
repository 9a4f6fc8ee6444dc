//! Addresses in log lines.

use ip_ban::address::{is_ipv4, Ipv4Addr};
use ip_ban::engine::IpBanEngine;

fn parse(s: &str) -> Option<Ipv4Addr> {
    let chars: Vec<char> = s.chars().collect();
    Ipv4Addr::parse(&chars)
}

#[test]
fn test_extract_ip_candidates() {
    let ips = IpBanEngine::extract_ip_candidates(
        "Failed password for root from 192.0.2.4 port 51234 ssh2",
    );
    assert_eq!(ips, vec!["192.0.2.4".to_string()]);
}

#[test]
fn test_extract_ip_candidates_skips_version_strings() {
    let access_log = "203.0.113.9 - - [10/Sep/2026:07:17:00] \"GET / HTTP/1.1\" 200 \
         \"Mozilla/5.0 (Windows NT 10.0; Win64; x64) AppleWebKit/537.36 \
         (KHTML, like Gecko) Chrome/122.0.0.0 Safari/537.36\"";

    let candidates = IpBanEngine::extract_ip_candidates(access_log);

    assert!(candidates.contains(&"203.0.113.9".to_string()));
    assert!(
        !candidates.contains(&"122.0.0.0".to_string()),
        "a Chrome version must not be read as a client address: {candidates:?}"
    );
}

#[test]
fn test_extract_ip_candidates_ignores_sentence_punctuation() {
    assert_eq!(
        IpBanEngine::extract_ip_candidates("Probing detected from IP 132.243.165.112."),
        vec!["132.243.165.112".to_string()]
    );
}

#[test]
fn test_extract_ip_candidates_keeps_delimited_addresses() {
    for line in [
        "Failed password for root from 198.51.100.7 port 22",
        "client=198.51.100.7,",
        "[198.51.100.7]",
        "X-Forwarded-For: 198.51.100.7",
        "198.51.100.7 - - [10/Sep/2026]",
    ] {
        let candidates = IpBanEngine::extract_ip_candidates(line);
        assert!(
            candidates.contains(&"198.51.100.7".to_string()),
            "missed the address in {line:?}"
        );
    }
}

#[test]
fn candidates_come_in_order_and_with_repeats() {
    assert_eq!(
        IpBanEngine::extract_ip_candidates("1.2.3.4 é5.6.7.8…1.2.3.4 v9.9.9.9 -8.8.8.8 _7.7.7.7"),
        vec!["1.2.3.4", "5.6.7.8", "1.2.3.4"]
    );
    assert_eq!(
        IpBanEngine::extract_ip_candidates("..01.002.3.255.. 1.2.3 1.2.3.4.5 1.2.3.256 ...."),
        vec!["01.002.3.255"]
    );
    assert!(IpBanEngine::extract_ip_candidates("").is_empty());
}

#[test]
fn octets_are_read_loosely_but_in_range() {
    assert!(is_ipv4("0.0.0.0"));
    assert!(is_ipv4("255.255.255.255"));
    assert!(is_ipv4("+1.002.3.0000255"));
    for text in [
        "", "1.2.3", "1.2.3.4.", ".1.2.3.4", "1..3.4", "1.2.3.256", "1.2.3.-4", "1.2.3.+", "1.2.3.4 ",
        "a.b.c.d", "1.2.3.99999999999999999999999",
    ] {
        assert!(!is_ipv4(text), "{text:?}");
    }
}

#[test]
fn addresses_are_read_strictly() {
    assert_eq!(parse("10.0.200.255"), Some(Ipv4Addr::new(10, 0, 200, 255)));
    for text in [
        "", "01.2.3.4", "1.2.3.00", "+1.2.3.4", "1.2.3", "1.2.3.4.5", "1.2.3.256", " 1.2.3.4",
    ] {
        assert_eq!(parse(text), None, "{text:?}");
    }
    for n in 0..=255u8 {
        assert_eq!(
            parse(&format!("{n}.0.{n}.7")),
            Some(Ipv4Addr::new(n, 0, n, 7))
        );
    }
}

#[test]
fn forwarded_header_gives_the_first_public_address() {
    let first = |line: &str| IpBanEngine::extract_forwarded_ip(line);
    assert_eq!(
        first("GET / \"X-Forwarded-For: 203.0.113.9, 10.0.0.1\" 200"),
        Some("203.0.113.9".to_string())
    );
    assert_eq!(
        first("x-forwarded-FOR:unknown, 10.0.0.1 ,\t198.51.100.7 , 203.0.113.9"),
        Some("198.51.100.7".to_string())
    );
    assert_eq!(
        first("X-Real-IP: 203.0.113.1\" X-Forwarded-For: 198.51.100.7"),
        Some("198.51.100.7".to_string())
    );
    assert_eq!(
        first("X-Forwarded-For: 10.0.0.1\" X-Real-IP: 203.0.113.1 \""),
        Some("203.0.113.1".to_string())
    );
    // The value ends at a quotation mark.
    assert_eq!(first("X-Forwarded-For: \"203.0.113.9\""), None);
    assert_eq!(first("X-Real-IP: 203.0.113.1, 203.0.113.2"), None);
    assert_eq!(first("from 203.0.113.9"), None);
    assert_eq!(first(""), None);
}

#[test]
fn unroutable_addresses_are_not_forwarded() {
    for ip in [
        "0.1.2.3",
        "10.255.255.255",
        "100.64.0.0",
        "100.127.255.255",
        "127.0.0.1",
        "169.254.1.1",
        "172.16.0.1",
        "172.31.255.255",
        "192.168.1.1",
        "224.0.0.1",
        "255.255.255.255",
    ] {
        let line = format!("X-Forwarded-For: {ip}");
        assert_eq!(IpBanEngine::extract_forwarded_ip(&line), None, "{ip}");
        let line = format!("X-Real-IP: {ip}");
        assert_eq!(IpBanEngine::extract_forwarded_ip(&line), None, "{ip}");
    }
    for ip in [
        "1.1.1.1",
        "100.63.255.255",
        "100.128.0.0",
        "169.253.1.1",
        "172.15.0.1",
        "172.32.0.0",
        "192.167.1.1",
        "223.255.255.255",
    ] {
        let line = format!("X-Real-IP: {ip}");
        assert_eq!(
            IpBanEngine::extract_forwarded_ip(&line),
            Some(ip.to_string())
        );
    }
}
