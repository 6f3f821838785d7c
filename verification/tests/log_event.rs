use chrono::{DateTime, FixedOffset, TimeZone};
use log_reader::{LogEvent, LogStats, Timestamp};

fn timestamp(t: DateTime<FixedOffset>) -> Timestamp {
    Timestamp {
        secs: t.timestamp(),
        nanos: t.timestamp_subsec_nanos(),
        offset_secs: t.offset().local_minus_utc(),
    }
}

fn default_log_event() -> LogEvent {
    let local_date = FixedOffset::east_opt(3600)
        .unwrap()
        .with_ymd_and_hms(2026, 2, 15, 9, 30, 0)
        .unwrap();
    LogEvent {
        ts: timestamp(local_date),
        level: String::from("error"),
        service: String::from("api"),
        latency: 548,
        endpoint: String::from("/signup"),
    }
}

/// Two lines, one of them an error, with an average latency of 315.5.
fn default_log_stats() -> LogStats {
    LogStats {
        entries: 2,
        total_errors: 1,
        total_fatals: 0,
        total_latency: 631,
    }
}

fn average_latency(stats: &LogStats) -> f64 {
    stats.total_latency as f64 / stats.entries as f64
}

#[test]
fn builds_default_log_stats() {
    assert_eq!(
        LogStats::new(),
        LogStats {
            entries: 0,
            total_errors: 0,
            total_fatals: 0,
            total_latency: 0,
        }
    );
}

#[test]
fn documents_log_event() {
    let log = default_log_event();
    let mut stats = default_log_stats();
    assert_eq!(average_latency(&stats), 315.5);
    assert_eq!(
        *stats.document(&log),
        LogStats {
            entries: 3,
            total_errors: 2,
            total_fatals: 0,
            total_latency: 1179,
        }
    );
    assert_eq!(average_latency(&stats), 393.);
    let local_date = FixedOffset::east_opt(3600)
        .unwrap()
        .with_ymd_and_hms(2026, 2, 15, 9, 30, 0)
        .unwrap();
    let another_log = LogEvent {
        ts: timestamp(local_date),
        level: String::from("fatal"),
        service: String::from("api"),
        latency: 501,
        endpoint: String::from("/signup"),
    };
    assert_eq!(
        *stats.document(&another_log),
        LogStats {
            entries: 4,
            total_errors: 2,
            total_fatals: 1,
            total_latency: 1680,
        }
    );
    assert_eq!(average_latency(&stats), 420.);
}

#[test]
fn documents_other_levels_as_plain_entries() {
    let mut stats = LogStats::new();
    for level in ["info", "warn", "debug", "trace", "Error", "fatal "] {
        let mut log = default_log_event();
        log.level = level.to_string();
        stats.document(&log);
    }
    assert_eq!(
        stats,
        LogStats {
            entries: 6,
            total_errors: 0,
            total_fatals: 0,
            total_latency: 6 * 548,
        }
    );
}

#[test]
fn adds_stats_field_by_field() {
    let a = default_log_stats();
    let b = LogStats {
        entries: 5,
        total_errors: 0,
        total_fatals: 3,
        total_latency: 100,
    };
    let sum = a.add(&b);
    assert_eq!(
        sum,
        LogStats {
            entries: 7,
            total_errors: 1,
            total_fatals: 3,
            total_latency: 731,
        }
    );
    assert_eq!(b.add(&a), sum);
    assert_eq!(a.add(&LogStats::new()), a);
    let mut c = a;
    c.add_assign(&b);
    assert_eq!(c, sum);
}

#[test]
fn documenting_parts_then_adding_equals_documenting_all() {
    let levels = ["error", "info", "fatal", "error", "warn"];
    let latencies = [10, 20, 30, 40, 50];
    let mut all = LogStats::new();
    let mut first = LogStats::new();
    let mut second = LogStats::new();
    for i in 0..5 {
        let mut log = default_log_event();
        log.level = levels[i].to_string();
        log.latency = latencies[i];
        all.document(&log);
        if i < 2 {
            first.document(&log);
        } else {
            second.document(&log);
        }
    }
    assert_eq!(first.add(&second), all);
    assert_eq!(
        all,
        LogStats {
            entries: 5,
            total_errors: 2,
            total_fatals: 1,
            total_latency: 150,
        }
    );
}

#[test]
fn log_events_compare_field_by_field() {
    let a = default_log_event();
    let mut b = default_log_event();
    assert_eq!(a, b);
    b.endpoint = String::from("/login");
    assert_ne!(a, b);
    let mut c = default_log_event();
    c.latency = 549;
    assert_ne!(a, c);
}

#[test]
fn log_events_at_one_instant_are_equal_whatever_the_offset() {
    let a = default_log_event();
    let mut b = default_log_event();
    let utc = FixedOffset::east_opt(0)
        .unwrap()
        .with_ymd_and_hms(2026, 2, 15, 8, 30, 0)
        .unwrap();
    b.ts = timestamp(utc);
    assert_eq!(a, b);
    let later = FixedOffset::east_opt(0)
        .unwrap()
        .with_ymd_and_hms(2026, 2, 15, 9, 30, 0)
        .unwrap();
    b.ts = timestamp(later);
    assert_ne!(a, b);
    let mut c = default_log_event();
    c.ts.nanos = 1;
    assert_ne!(a, c);
}
