//! The engine driven step by step against a store in memory.

use chrono::{DateTime, Duration, Utc};
use ip_ban::action::{Action, BlockedOffense, NewIpOffense};
use ip_ban::address::Ipv4Addr;
use ip_ban::alert::{Alert, AlertSeverity, AlertType};
use ip_ban::clock::{Timestamp, MAX_SECS, MIN_SECS};
use ip_ban::config::{parse_cidr_list, IpBanConfig};
use ip_ban::engine::{BlockOutcome, IpBanEngine, OffenseInput, RecordStep};
use ip_ban::progress::ActionRun;

#[derive(Debug, Clone, PartialEq)]
enum Status {
    Open,
    Blocked(Timestamp),
    Released,
}

struct Row {
    offense: NewIpOffense,
    offense_count: u32,
    status: Status,
}

#[derive(Default)]
struct Store {
    rows: Vec<Row>,
    alerts: Vec<Alert>,
    firewall: Vec<String>,
    notified: Vec<(String, String)>,
}

impl Store {
    fn active_block_for_ip(&self, ip: &str) -> Option<BlockedOffense> {
        self.rows
            .iter()
            .find(|row| row.offense.ip_address == ip && matches!(row.status, Status::Blocked(_)))
            .map(|row| BlockedOffense {
                id: row.offense.id.clone(),
                ip_address: row.offense.ip_address.clone(),
            })
    }

    fn record(&mut self, offense: NewIpOffense, since: Timestamp) -> u32 {
        for row in self.rows.iter_mut() {
            if row.offense.ip_address == offense.ip_address
                && row.offense.source_type == offense.source_type
                && row.status == Status::Open
                && row.offense.first_seen.secs >= since.secs
            {
                row.offense_count += 1;
                return row.offense_count;
            }
        }
        self.rows.push(Row {
            offense,
            offense_count: 1,
            status: Status::Open,
        });
        1
    }

    fn find_recent_offenses(&self, ip: &str, source_type: &str) -> Vec<&Row> {
        self.rows
            .iter()
            .filter(|row| row.offense.ip_address == ip && row.offense.source_type == source_type)
            .collect()
    }

    fn expired_blocks(&self, now: Timestamp) -> Vec<BlockedOffense> {
        self.rows
            .iter()
            .filter(|row| match row.status {
                Status::Blocked(until) => (until.secs, until.nanos) <= (now.secs, now.nanos),
                _ => false,
            })
            .map(|row| BlockedOffense {
                id: row.offense.id.clone(),
                ip_address: row.offense.ip_address.clone(),
            })
            .collect()
    }

    fn perform(&mut self, actions: Vec<Action>) {
        for action in actions {
            match action {
                Action::FirewallBlock(ip) => self.firewall.push(format!("block {ip}")),
                Action::FirewallUnblock(ip) => self.firewall.push(format!("unblock {ip}")),
                Action::MarkBlocked {
                    ip_address,
                    source_type,
                    blocked_until,
                } => {
                    for row in self.rows.iter_mut() {
                        if row.offense.ip_address == ip_address
                            && row.offense.source_type == source_type
                        {
                            row.status = Status::Blocked(blocked_until);
                        }
                    }
                }
                Action::MarkReleased(id) => {
                    for row in self.rows.iter_mut() {
                        if row.offense.id == id {
                            row.status = Status::Released;
                        }
                    }
                }
                Action::CreateAlert(alert) => self.alerts.push(alert),
                Action::Notify {
                    env_toggle,
                    action_name,
                } => self.notified.push((env_toggle, action_name)),
            }
        }
    }
}

fn record_offense(engine: &mut IpBanEngine, store: &mut Store, offense: &OffenseInput) -> bool {
    assert!(engine.can_record(&offense.ip_address));
    let mut step = engine.record_offense(offense);
    loop {
        let answer = step.answer();
        step = match step {
            RecordStep::FindActiveBlock(ip) => {
                engine.after_block_lookup(offense, store.active_block_for_ip(&ip).is_some())
            }
            RecordStep::RecordOccurrence {
                offense: row,
                since,
            } => {
                let now = row.first_seen;
                let count = store.record(row, since);
                engine.after_count(offense, count, now)
            }
            RecordStep::Perform(actions) | RecordStep::TimeOverflow(actions) => {
                store.perform(actions);
                return answer.unwrap();
            }
            _ => return answer.unwrap(),
        };
    }
}

fn unban_expired(engine: &IpBanEngine, store: &mut Store) -> usize {
    let expired = store.expired_blocks(engine.expiry_cutoff());
    let (actions, released) = engine.unban_expired(&expired);
    store.perform(actions);
    released
}

fn config(max_retries: u32, ban_time_secs: u64, max_bans_per_minute: u32) -> IpBanConfig {
    IpBanConfig {
        enabled: true,
        max_retries,
        find_time_secs: 300,
        ban_time_secs,
        unban_check_interval_secs: 60,
        trusted_proxy_ranges: vec![],
        allowlist_ranges: vec![],
        max_bans_per_minute,
    }
}

fn offense(ip: &str, reason: &str, severity: AlertSeverity) -> OffenseInput {
    OffenseInput {
        ip_address: ip.into(),
        source_type: "sniff".into(),
        reason: reason.into(),
        severity,
        container_id: None,
        source_path: Some("/var/log/auth.log".into()),
        sample_line: Some(format!("Failed password from {ip}")),
    }
}

fn stamp(at: DateTime<Utc>) -> Timestamp {
    Timestamp::new(at.timestamp(), at.timestamp_subsec_nanos()).unwrap()
}

fn row(id: &str, ip: &str) -> BlockedOffense {
    BlockedOffense {
        id: id.into(),
        ip_address: ip.into(),
    }
}

#[test]
fn test_record_offense_blocks_after_threshold() {
    let mut store = Store::default();
    let mut engine = IpBanEngine::new(config(2, 60, 0));
    let input = offense("192.0.2.44", "Failed ssh login", AlertSeverity::High);

    let first = record_offense(&mut engine, &mut store, &input);
    assert!(!first);
    assert!(store.active_block_for_ip("192.0.2.44").is_none());

    let second = record_offense(&mut engine, &mut store, &input);
    assert!(second);
    assert!(store.active_block_for_ip("192.0.2.44").is_some());
    assert_eq!(store.firewall, vec!["block 192.0.2.44".to_string()]);
}

#[test]
fn test_describe_ban_names_the_evidence() {
    let input = OffenseInput {
        ip_address: "198.51.100.7".into(),
        source_type: "sniff".into(),
        reason: "Failed ssh login".into(),
        severity: AlertSeverity::High,
        container_id: None,
        source_path: Some("/var/log/auth.log".into()),
        sample_line: Some("Failed password for root from 198.51.100.7 port 22".into()),
    };
    let until = "2026-09-10T08:00:00Z".parse::<DateTime<Utc>>().unwrap();

    let message = IpBanEngine::describe_ban(&input, 5, stamp(until));

    assert!(message.contains("198.51.100.7"));
    assert!(message.contains("after 5 sniff offenses"));
    assert!(message.contains("/var/log/auth.log"));
    assert!(message.contains("Failed ssh login"));
    assert!(message.contains("Failed password for root"));
    assert_eq!(
        message,
        "Blocked IP 198.51.100.7 after 5 sniff offenses (until 2026-09-10T08:00:00+00:00) \
         — Source: /var/log/auth.log | Reason: Failed ssh login \
         | Sample: Failed password for root from 198.51.100.7 port 22"
    );
}

#[test]
fn test_describe_ban_truncates_a_huge_sample() {
    let input = OffenseInput {
        ip_address: "198.51.100.7".into(),
        source_type: "sniff".into(),
        reason: "Flood".into(),
        severity: AlertSeverity::High,
        container_id: Some("0f3b46ca0c16aaaaaaaa".into()),
        source_path: None,
        sample_line: Some("x".repeat(5_000)),
    };
    let until = "2026-09-10T08:00:00Z".parse::<DateTime<Utc>>().unwrap();

    let message = IpBanEngine::describe_ban(&input, 5, stamp(until));

    assert!(message.contains("container 0f3b46ca0c16"));
    assert!(message.chars().count() < 600, "message stayed unbounded");
    assert!(message.ends_with('…'));
}

#[test]
fn test_ban_budget_stops_a_burst() {
    let mut engine = IpBanEngine::new(config(1, 1800, 3));
    let now = Utc::now();

    assert!(engine.ban_budget_available(stamp(now)));
    assert!(engine.ban_budget_available(stamp(now)));
    assert!(engine.ban_budget_available(stamp(now)));
    assert!(
        !engine.ban_budget_available(stamp(now)),
        "a burst past the ceiling must be refused"
    );

    // The window slides: a minute later the budget is back.
    assert!(engine.ban_budget_available(stamp(now + Duration::seconds(61))));
}

#[test]
fn test_ban_budget_can_be_disabled() {
    let mut engine = IpBanEngine::new(config(1, 1800, 0));
    let now = Utc::now();

    for _ in 0..50 {
        assert!(engine.ban_budget_available(stamp(now)));
    }
}

#[test]
fn test_allowlisted_ip_is_never_recorded_or_banned() {
    let mut store = Store::default();
    let mut engine = IpBanEngine::new(IpBanConfig {
        allowlist_ranges: parse_cidr_list("167.233.9.19,10.0.0.0/8"),
        ..config(1, 1800, 0)
    });

    for ip in ["167.233.9.19", "10.1.2.3"] {
        let input = offense(ip, "Repeated ssh login failure", AlertSeverity::Critical);
        let blocked = record_offense(&mut engine, &mut store, &input);

        assert!(!blocked, "{ip} must not be banned");
        assert!(store.active_block_for_ip(ip).is_none());

        // No offense row either: a later change of settings must not be able to act on history
        // collected while the address was protected.
        let offenses = store.find_recent_offenses(ip, "sniff");
        assert!(offenses.is_empty(), "{ip} must not accumulate offenses");
    }
}

#[test]
fn test_unban_expired_alerts_once_per_address() {
    let mut store = Store::default();
    let mut engine = IpBanEngine::new(config(3, 0, 0));
    let input = offense(
        "192.0.2.77",
        "Repeated ssh login failure",
        AlertSeverity::Critical,
    );

    // Detections accumulate on a single row via offense_count.
    let mut blocked = false;
    for _ in 0..3 {
        blocked = record_offense(&mut engine, &mut store, &input);
    }
    assert!(blocked);

    let offenses = store.find_recent_offenses("192.0.2.77", "sniff");
    assert_eq!(offenses.len(), 1, "expected one row per (ip, source_type)");
    assert_eq!(offenses[0].offense_count, 3);

    // One address, one release, one alert.
    let released = unban_expired(&engine, &mut store);
    assert_eq!(released, 1);

    assert!(store
        .find_recent_offenses("192.0.2.77", "sniff")
        .iter()
        .all(|row| row.status == Status::Released));

    let releases = store
        .alerts
        .iter()
        .filter(|alert| alert.message.contains("Released IP ban for 192.0.2.77"))
        .count();
    assert_eq!(releases, 1);
}

#[test]
fn test_unban_expired_releases_ban_and_emits_release_alert() {
    let mut store = Store::default();
    let mut engine = IpBanEngine::new(config(1, 0, 0));
    let input = offense(
        "192.0.2.55",
        "Repeated ssh login failure",
        AlertSeverity::Critical,
    );

    let blocked = record_offense(&mut engine, &mut store, &input);
    assert!(blocked);

    let released = unban_expired(&engine, &mut store);
    assert_eq!(released, 1);
    assert!(store.active_block_for_ip("192.0.2.55").is_none());

    let offenses = store.find_recent_offenses("192.0.2.55", "sniff");
    assert_eq!(offenses.len(), 1);
    assert_eq!(offenses[0].status, Status::Released);

    assert_eq!(store.alerts.len(), 2);
    let newest = &store.alerts[1];
    assert_eq!(newest.alert_type, AlertType::SystemEvent);
    assert_eq!(newest.severity, AlertSeverity::Info);
    assert_eq!(newest.message, "Released IP ban for 192.0.2.55");
    assert_eq!(newest.metadata.source.as_deref(), Some("ip_ban"));
    assert_eq!(
        newest.metadata.reason.as_deref(),
        Some("Released expired ban for 192.0.2.55")
    );
    assert_eq!(
        store.firewall,
        vec![
            "block 192.0.2.55".to_string(),
            "unblock 192.0.2.55".to_string()
        ]
    );
    assert_eq!(
        store.notified,
        vec![
            (
                "STACKDOG_NOTIFY_IP_BAN_ACTIONS".to_string(),
                "ip ban".to_string()
            ),
            (
                "STACKDOG_NOTIFY_IP_BAN_ACTIONS".to_string(),
                "ip ban release".to_string()
            ),
        ]
    );
}

#[test]
fn ban_alert_carries_the_facts() {
    let mut engine = IpBanEngine::new(config(1, 3600, 0));
    let input = OffenseInput {
        container_id: Some("0f3b46ca0c16".into()),
        ..offense("192.0.2.9", "Flood", AlertSeverity::Medium)
    };
    let now = stamp("2026-09-10T08:00:00.250Z".parse::<DateTime<Utc>>().unwrap());
    let actions = match engine.block_ip(&input, 4_294_967_295, now) {
        BlockOutcome::Block(actions) => actions,
        other => panic!("{other:?}"),
    };
    assert_eq!(actions.len(), 4);
    match &actions[1] {
        Action::MarkBlocked {
            ip_address,
            source_type,
            blocked_until,
        } => {
            assert_eq!(ip_address, "192.0.2.9");
            assert_eq!(source_type, "sniff");
            assert_eq!(blocked_until.secs, now.secs + 3600);
            assert_eq!(blocked_until.nanos, 250_000_000);
        }
        other => panic!("{other:?}"),
    }
    match &actions[2] {
        Action::CreateAlert(alert) => {
            assert_eq!(alert.alert_type, AlertType::ThresholdExceeded);
            assert_eq!(alert.severity, AlertSeverity::Medium);
            assert_eq!(alert.metadata.source.as_deref(), Some("ip_ban"));
            assert_eq!(alert.metadata.reason.as_deref(), Some("Flood"));
            assert_eq!(alert.metadata.container_id.as_deref(), Some("0f3b46ca0c16"));
            let pair = |key: &str, value: &str| (key.to_string(), value.to_string());
            assert_eq!(
                alert.metadata.extra,
                vec![
                    pair("ip_address", "192.0.2.9"),
                    pair("offense_count", "4294967295"),
                    pair("blocked_until", "2026-09-10T09:00:00.250+00:00"),
                    pair("source_path", "/var/log/auth.log"),
                    pair("sample_line", "Failed password from 192.0.2.9"),
                ]
            );
        }
        other => panic!("{other:?}"),
    }
}

#[test]
fn blocked_address_is_not_recorded_again() {
    let mut store = Store::default();
    let mut engine = IpBanEngine::new(config(1, 600, 0));
    let input = offense("192.0.2.3", "x", AlertSeverity::Low);
    assert!(record_offense(&mut engine, &mut store, &input));
    assert!(!record_offense(&mut engine, &mut store, &input));
    assert_eq!(store.rows.len(), 1);
    assert_eq!(store.rows[0].offense_count, 1);
}

#[test]
fn ceiling_refuses_but_answers_as_a_ban() {
    let mut store = Store::default();
    let mut engine = IpBanEngine::new(config(1, 600, 2));
    for ip in ["192.0.2.1", "192.0.2.2", "192.0.2.3"] {
        assert!(record_offense(
            &mut engine,
            &mut store,
            &offense(ip, "x", AlertSeverity::Low)
        ));
    }
    assert_eq!(
        store.firewall,
        vec!["block 192.0.2.1".to_string(), "block 192.0.2.2".to_string()]
    );
    assert!(store.active_block_for_ip("192.0.2.3").is_none());
}

#[test]
fn budget_counts_exactly_a_minute() {
    let mut engine = IpBanEngine::new(config(1, 600, 1));
    let at = |secs: i64, nanos: u32| Timestamp::new(secs, nanos).unwrap();
    assert!(engine.ban_budget_available(at(100, 5)));
    assert!(!engine.ban_budget_available(at(160, 5)));
    assert!(engine.ban_budget_available(at(160, 6)));
    // A clock that goes back finds no budget.
    assert!(!engine.ban_budget_available(at(10, 0)));
}

#[test]
fn clock_going_back_can_exceed_the_ceiling() {
    let mut engine = IpBanEngine::new(config(1, 600, 2));
    let at = |secs: i64| Timestamp::new(secs, 0).unwrap();
    let granted: Vec<bool> = [0, 0, 61, 30]
        .into_iter()
        .map(|secs| engine.ban_budget_available(at(secs)))
        .collect();
    assert_eq!(granted, vec![true, true, true, true]);
}

#[test]
fn times_out_of_range_are_told() {
    let mut engine = IpBanEngine::new(IpBanConfig {
        find_time_secs: 1 << 62,
        ..config(1, 1 << 62, 0)
    });
    let input = offense("192.0.2.1", "x", AlertSeverity::Low);
    let now = Timestamp::new(0, 0).unwrap();
    match engine.after_block_lookup(&input, false) {
        RecordStep::TimeOverflow(actions) => assert!(actions.is_empty()),
        other => panic!("{other:?}"),
    }
    // The firewall comes before the end of the ban.
    match engine.after_count(&input, 1, now) {
        RecordStep::TimeOverflow(actions) => {
            assert_eq!(actions.len(), 1);
            assert!(matches!(&actions[0], Action::FirewallBlock(ip) if ip == "192.0.2.1"));
        }
        other => panic!("{other:?}"),
    }
    assert_eq!(engine.after_count(&input, 1, now).answer(), None);
    assert!(Timestamp::new(MAX_SECS + 1, 0).is_none());
    assert!(Timestamp::new(MIN_SECS - 1, 0).is_none());
    assert!(Timestamp::new(0, 1_000_000_000).is_none());
}

#[test]
fn wrapped_ban_time_reaches_back() {
    let mut engine = IpBanEngine::new(config(1, u64::MAX, 0));
    let input = offense("192.0.2.1", "x", AlertSeverity::Low);
    let now = Timestamp::new(1_000, 7).unwrap();
    match engine.block_ip(&input, 1, now) {
        BlockOutcome::Block(actions) => match &actions[1] {
            Action::MarkBlocked { blocked_until, .. } => {
                assert_eq!(*blocked_until, Timestamp::new(999, 7).unwrap())
            }
            other => panic!("{other:?}"),
        },
        other => panic!("{other:?}"),
    }
}

#[test]
fn chrono_represents_the_stated_range() {
    assert_eq!(DateTime::<Utc>::MIN_UTC.timestamp(), MIN_SECS);
    assert_eq!(DateTime::<Utc>::MAX_UTC.timestamp(), MAX_SECS);
    assert!(DateTime::<Utc>::from_timestamp(MIN_SECS, 0).is_some());
    assert!(DateTime::<Utc>::from_timestamp(MAX_SECS, 999_999_999).is_some());
    assert!(DateTime::<Utc>::from_timestamp(MIN_SECS - 1, 0).is_none());
    assert!(DateTime::<Utc>::from_timestamp(MAX_SECS + 1, 0).is_none());
    let first = Timestamp::new(MIN_SECS, 999_999_999).unwrap();
    let last = Timestamp::new(MAX_SECS, 3).unwrap();
    assert_eq!(first.plus(MAX_SECS - MIN_SECS).unwrap().secs, MAX_SECS);
    assert_eq!(last.minus(MAX_SECS - MIN_SECS).unwrap().secs, MIN_SECS);
    assert!(first.minus(1).is_none());
    assert!(last.plus(1).is_none());
    assert!(last.plus(i64::MAX).is_none());
    assert!(last.minus(i64::MIN).is_none());
    assert!(last.is_past(first, 60));
    assert!(!first.is_past(last, 60));
}

#[test]
fn differences_are_exact() {
    let at = |secs: i64, nanos: u32| Timestamp::new(secs, nanos).unwrap();
    assert!(!at(60, 0).is_past(at(0, 0), 60));
    assert!(at(60, 1).is_past(at(0, 0), 60));
    assert!(!at(60, 1).is_past(at(0, 2), 60));
    assert!(at(61, 0).is_past(at(0, 999_999_999), 60));
    assert!(!at(-1, 999_999_999).is_past(at(0, 0), 0));
    assert!(at(0, 0).is_past(at(-1, 999_999_999), 0));
}

#[test]
fn new_records_have_random_identifiers() {
    let engine = IpBanEngine::new(config(1, 600, 0));
    let input = offense("192.0.2.1", "why", AlertSeverity::Low);
    let before = Utc::now().timestamp();
    let mut ids: Vec<String> = Vec::new();
    for _ in 0..2 {
        match engine.after_block_lookup(&input, false) {
            RecordStep::RecordOccurrence { offense, since } => {
                assert_eq!(offense.ip_address, "192.0.2.1");
                assert_eq!(offense.source_type, "sniff");
                assert_eq!(offense.reason, "why");
                assert_eq!(offense.container_id, None);
                assert_eq!(since.secs, offense.first_seen.secs - 300);
                assert_eq!(since.nanos, offense.first_seen.nanos);
                assert!(offense.first_seen.secs >= before);
                let metadata = offense.metadata.unwrap();
                assert_eq!(metadata.source_path.as_deref(), Some("/var/log/auth.log"));
                assert_eq!(
                    metadata.sample_line.as_deref(),
                    Some("Failed password from 192.0.2.1")
                );
                ids.push(offense.id);
            }
            other => panic!("{other:?}"),
        }
    }
    assert_ne!(ids[0], ids[1]);
    for id in &ids {
        assert_eq!(id.len(), 36);
        for (i, c) in id.chars().enumerate() {
            match i {
                8 | 13 | 18 | 23 => assert_eq!(c, '-'),
                14 => assert_eq!(c, '4'),
                19 => assert!("89ab".contains(c)),
                _ => assert!(c.is_ascii_digit() || ('a'..='f').contains(&c)),
            }
        }
    }
}

#[test]
fn manual_release_undoes_one_block() {
    let engine = IpBanEngine::new(config(1, 600, 0));
    assert!(engine.unban_ip(&None).is_none());

    let actions = engine.unban_ip(&Some(row("id-1", "192.0.2.8"))).unwrap();
    assert_eq!(actions.len(), 4);
    assert!(matches!(&actions[0], Action::FirewallUnblock(ip) if ip == "192.0.2.8"));
    assert!(matches!(&actions[1], Action::MarkReleased(id) if id == "id-1"));
    match &actions[2] {
        Action::CreateAlert(alert) => {
            assert_eq!(alert.message, "Released IP ban for 192.0.2.8");
            assert_eq!(
                alert.metadata.reason.as_deref(),
                Some("Manually released ban for 192.0.2.8")
            );
        }
        other => panic!("{other:?}"),
    }
}

#[test]
fn rows_of_one_address_are_released_together() {
    let engine = IpBanEngine::new(config(1, 600, 0));
    let (actions, released) = engine.unban_expired(&[
        row("a", "192.0.2.1"),
        row("b", "192.0.2.2"),
        row("c", "192.0.2.1"),
        row("d", "192.0.2.1"),
    ]);
    assert_eq!(released, 2);
    let shown: Vec<String> = actions
        .iter()
        .map(|action| match action {
            Action::FirewallUnblock(ip) => format!("unblock {ip}"),
            Action::MarkReleased(id) => format!("mark {id}"),
            Action::CreateAlert(alert) => alert.message.clone(),
            Action::Notify { action_name, .. } => action_name.clone(),
            other => format!("{other:?}"),
        })
        .collect();
    assert_eq!(
        shown,
        vec![
            "mark a",
            "unblock 192.0.2.1",
            "Released IP ban for 192.0.2.1",
            "ip ban release",
            "mark b",
            "unblock 192.0.2.2",
            "Released IP ban for 192.0.2.2",
            "ip ban release",
            "mark c",
            "mark d",
        ]
    );
    let (nothing, none) = engine.unban_expired(&[]);
    assert!(nothing.is_empty());
    assert_eq!(none, 0);
}

#[test]
fn long_prefixes_are_told_before_the_search() {
    let engine = IpBanEngine::new(IpBanConfig {
        allowlist_ranges: parse_cidr_list("192.0.2.0/24,10.0.0.0/40"),
        ..config(1, 600, 0)
    });
    assert!(engine.can_record("192.0.2.7"));
    assert!(!engine.can_record("10.0.0.1"));
    assert!(engine.can_record("no address"));
    assert!(engine
        .config()
        .is_allowlisted(&Ipv4Addr::new(192, 0, 2, 7)));
}

fn names_done(actions: Vec<Action>, failing: &[&str]) -> (Vec<&'static str>, bool) {
    let mut run = ActionRun::new(actions);
    let mut done: Vec<&'static str> = Vec::new();
    while let Some(action) = run.current() {
        let name = match action {
            Action::FirewallBlock(_) => "block",
            Action::FirewallUnblock(_) => "unblock",
            Action::MarkBlocked { .. } => "mark blocked",
            Action::MarkReleased(_) => "mark released",
            Action::CreateAlert(_) => "alert",
            Action::Notify { .. } => "notify",
        };
        let succeeded = !failing.contains(&name);
        run.report(succeeded);
        if succeeded {
            done.push(name);
        }
    }
    (done, run.has_failed())
}

#[test]
fn a_list_ends_at_its_first_failure() {
    let input = offense("192.0.2.1", "x", AlertSeverity::Low);
    let until = Timestamp::new(60, 0).unwrap();
    let ban = || IpBanEngine::plan_ban(&input, 3, until, "then");
    assert_eq!(
        names_done(ban(), &[]),
        (vec!["block", "mark blocked", "alert", "notify"], false)
    );
    assert_eq!(names_done(ban(), &["block"]), (vec![], true));
    assert_eq!(names_done(ban(), &["mark blocked"]), (vec!["block"], true));
    assert_eq!(
        names_done(ban(), &["alert"]),
        (vec!["block", "mark blocked"], true)
    );
    assert_eq!(
        names_done(ban(), &["notify"]),
        (vec!["block", "mark blocked", "alert"], false)
    );

    let engine = IpBanEngine::new(config(1, 600, 0));
    let release = engine.unban_ip(&Some(row("a", "192.0.2.1"))).unwrap();
    assert_eq!(names_done(release, &["unblock"]), (vec![], true));
    let (expiry, _) = engine.unban_expired(&[row("a", "192.0.2.1"), row("b", "192.0.2.2")]);
    assert_eq!(
        names_done(expiry, &["unblock"]),
        (vec!["mark released"], true)
    );
    let (expiry, _) = engine.unban_expired(&[row("a", "192.0.2.1"), row("b", "192.0.2.1")]);
    assert_eq!(
        names_done(expiry, &["notify"]),
        (
            vec!["mark released", "unblock", "alert", "mark released"],
            false
        )
    );
    assert_eq!(names_done(vec![], &[]), (vec![], false));
}

#[test]
fn requests_are_granted_exactly_below_the_ceiling() {
    let mut engine = IpBanEngine::new(config(1, 600, 2));
    let times: Vec<i64> = vec![0, 10, 20, 60, 61, 70, 71, 120, 122, 200];
    let mut granted: Vec<i64> = Vec::new();
    for at in times {
        let counting = granted.iter().filter(|stamp| at - **stamp <= 60).count();
        let grant = engine.ban_budget_available(Timestamp::new(at, 0).unwrap());
        assert_eq!(grant, counting < 2, "{at}");
        if grant {
            granted.push(at);
        }
    }
    assert_eq!(granted, vec![0, 10, 61, 71, 122, 200]);
}
