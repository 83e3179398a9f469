use chrono::{DateTime, NaiveDateTime};
use dnsward::query_log::{LogStats, QueryAction, QueryLog, QueryLogEntry};

fn at(seconds: i64) -> NaiveDateTime {
    DateTime::from_timestamp(seconds, 0).unwrap().naive_utc()
}

fn entry(n: i64, domain: &str, action: QueryAction) -> QueryLogEntry {
    QueryLogEntry {
        ts: at(n),
        client: "10.0.0.2".to_string(),
        domain: domain.to_string(),
        qtype: "A".to_string(),
        action,
        upstream: Some("9.9.9.9".to_string()),
        latency_ms: n as u64,
        cached: false,
    }
}

fn domains(entries: &[QueryLogEntry]) -> Vec<&str> {
    entries.iter().map(|e| e.domain.as_str()).collect()
}

#[test]
fn newest_entries_are_kept() {
    let mut log = QueryLog::new(3);
    assert!(log.recent(10, None).is_empty());
    for (n, d) in ["a", "b", "c", "d", "e"].iter().enumerate() {
        log.push(entry(n as i64, d, QueryAction::Allow));
    }
    assert_eq!(domains(&log.recent(10, None)), vec!["e", "d", "c"]);
    assert_eq!(domains(&log.recent(2, None)), vec!["e", "d"]);
    assert!(log.recent(0, None).is_empty());
}

#[test]
fn a_log_without_room_keeps_the_last_entry() {
    let mut log = QueryLog::new(0);
    log.push(entry(1, "a", QueryAction::Allow));
    log.push(entry(2, "b", QueryAction::Allow));
    assert_eq!(domains(&log.recent(10, None)), vec!["b"]);
}

#[test]
fn entries_come_back_as_they_were() {
    let mut log = QueryLog::new(1);
    log.push(QueryLogEntry {
        upstream: None,
        cached: true,
        ..entry(1234, "a.com", QueryAction::Cache)
    });
    let e = &log.recent(1, None)[0];
    assert_eq!(e.ts, at(1234));
    assert_eq!(e.client, "10.0.0.2");
    assert_eq!(e.qtype, "A");
    assert_eq!(e.action, QueryAction::Cache);
    assert_eq!(e.upstream, None);
    assert_eq!(e.latency_ms, 1234);
    assert!(e.cached);
    let copy = entry(5, "x", QueryAction::Block).clone();
    assert_eq!(copy.upstream.as_deref(), Some("9.9.9.9"));
}

#[test]
fn entries_are_filtered_by_domain() {
    let mut log = QueryLog::new(10);
    for (n, d) in ["ads.com", "b.org", "my.ads.net", "c.org"].iter().enumerate() {
        log.push(entry(n as i64, d, QueryAction::Block));
    }
    assert_eq!(domains(&log.recent(10, Some("ads"))), vec!["my.ads.net", "ads.com"]);
    assert_eq!(domains(&log.recent(1, Some("ads"))), vec!["my.ads.net"]);
    assert_eq!(domains(&log.recent(2, Some(""))), vec!["c.org", "my.ads.net"]);
    assert!(log.recent(10, Some("ADS")).is_empty());
}

#[test]
fn queries_are_counted_by_action() {
    let mut log = QueryLog::new(1);
    for action in [
        QueryAction::Allow,
        QueryAction::Block,
        QueryAction::Block,
        QueryAction::Cache,
        QueryAction::Rewrite,
        QueryAction::Block,
    ] {
        log.push(entry(0, "a", action));
    }
    assert_eq!(
        log.stats(),
        LogStats { total: 6, blocked: 3, cached: 1, allowed: 1 }
    );
}

#[test]
fn counters_start_again_behind_the_largest_value() {
    let mut log = QueryLog::new(1);
    log.total = u64::MAX;
    log.blocked = u64::MAX;
    log.push(entry(0, "a", QueryAction::Block));
    assert_eq!(log.stats().total, 0);
    assert_eq!(log.stats().blocked, 0);
}
