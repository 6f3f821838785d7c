use log_reader::{
    document_log_event, make_report, progress_due, sort_names, str_lt, LineBatcher, LogEvent,
    LogStats, ReadAction, Timestamp, ReadOutcome, ServiceStats, StatsBatcher, FLUSH_EVERY,
};

fn event(service: &str, level: &str, latency: usize) -> LogEvent {
    LogEvent {
        ts: Timestamp {
            secs: 1_771_144_200,
            nanos: 0,
            offset_secs: 3600,
        },
        level: level.to_string(),
        service: service.to_string(),
        latency,
        endpoint: String::from("/login"),
    }
}

fn stats(entries: usize, errors: usize, fatals: usize, latency: usize) -> LogStats {
    LogStats {
        entries,
        total_errors: errors,
        total_fatals: fatals,
        total_latency: latency,
    }
}

fn sample() -> Vec<LogEvent> {
    vec![
        event("auth", "info", 10),
        event("api", "error", 20),
        event("auth", "fatal", 30),
        event("worker", "debug", 40),
        event("api", "error", 50),
        event("billing", "warn", 60),
    ]
}

fn documented(events: Vec<LogEvent>) -> ServiceStats {
    let mut h = ServiceStats::new();
    for le in events {
        document_log_event(&mut h, le);
    }
    h
}

#[test]
fn documents_each_line_under_its_service() {
    let h = documented(sample());
    assert_eq!(h.len(), 4);
    assert!(!h.is_empty());
    assert_eq!(h.get("auth"), Some(&stats(2, 0, 1, 40)));
    assert_eq!(h.get("api"), Some(&stats(2, 2, 0, 70)));
    assert_eq!(h.get("worker"), Some(&stats(1, 0, 0, 40)));
    assert_eq!(h.get("billing"), Some(&stats(1, 0, 0, 60)));
    assert_eq!(h.get("gateway"), None);
    assert!(ServiceStats::new().is_empty());
}

#[test]
fn absorbing_partial_maps_equals_documenting_all() {
    let mut first = sample();
    let second = first.split_off(3);
    let mut merged = documented(first);
    let other = documented(second);
    merged.absorb(&other);
    let all = documented(sample());
    assert_eq!(merged.len(), all.len());
    for name in ["auth", "api", "worker", "billing"] {
        assert_eq!(merged.get(name), all.get(name));
    }
    let mut reversed = documented(sample().split_off(3));
    let mut front = sample();
    front.truncate(3);
    reversed.absorb(&documented(front));
    for name in ["auth", "api", "worker", "billing"] {
        assert_eq!(reversed.get(name), all.get(name));
    }
}

#[test]
fn report_rows_are_sorted_and_total_counts_every_line() {
    let report = make_report(&documented(sample()));
    let names: Vec<&str> = report.rows.iter().map(|r| r.0.as_str()).collect();
    assert_eq!(names, vec!["api", "auth", "billing", "worker"]);
    assert_eq!(report.rows[0].1, stats(2, 2, 0, 70));
    assert_eq!(report.rows[1].1, stats(2, 0, 1, 40));
    assert_eq!(report.total, stats(6, 2, 1, 210));
}

#[test]
fn report_of_nothing_is_empty() {
    let report = make_report(&ServiceStats::new());
    assert!(report.rows.is_empty());
    assert_eq!(report.total, LogStats::new());
}

#[test]
fn names_order_as_str_does() {
    assert!(str_lt("api", "auth"));
    assert!(!str_lt("auth", "api"));
    assert!(str_lt("api", "api-v2"));
    assert!(!str_lt("api", "api"));
    assert!(str_lt("", "a"));
    assert!(str_lt("Zeta", "alpha"));
    assert!(str_lt("z", "é"));
    let keys: Vec<String> = ["worker", "é", "db-proxy", "api", "Api", "api-v2"]
        .iter()
        .map(|s| s.to_string())
        .collect();
    let sorted = sort_names(&keys);
    let mut expected = keys.clone();
    expected.sort();
    assert_eq!(sorted, expected);
}

#[test]
fn batches_lines_by_capacity() {
    let mut b = LineBatcher::new(2);
    let mut sent: Vec<Vec<String>> = Vec::new();
    for line in ["a\n", "b\n", "c\n", "d\n", "e\n"] {
        match b.step(ReadOutcome::Line(line.to_string())) {
            ReadAction::Send(v) => sent.push(v),
            ReadAction::Continue => {}
            _ => panic!("a line never ends the reading"),
        }
    }
    match b.step(ReadOutcome::EndOfInput) {
        ReadAction::Finish(v) => sent.push(v),
        _ => panic!("the end of input sends the last batch"),
    }
    assert_eq!(
        sent,
        vec![
            vec!["a\n".to_string(), "b\n".to_string()],
            vec!["c\n".to_string(), "d\n".to_string()],
            vec!["e\n".to_string()],
        ]
    );
    assert!(b.pending.is_empty());
}

#[test]
fn end_of_input_sends_an_empty_last_batch() {
    let mut b = LineBatcher::new(3);
    match b.step(ReadOutcome::EndOfInput) {
        ReadAction::Finish(v) => assert!(v.is_empty()),
        _ => panic!("the end of input sends the last batch"),
    }
}

#[test]
fn failed_read_drops_the_pending_lines() {
    let mut b = LineBatcher::new(3);
    assert!(matches!(b.step(ReadOutcome::Line("x\n".to_string())), ReadAction::Continue));
    assert!(matches!(b.step(ReadOutcome::Failed), ReadAction::Abandon));
    assert_eq!(b.pending, vec!["x\n".to_string()]);
}

#[test]
fn capacity_zero_sends_one_empty_batch_then_keeps_all() {
    let mut b = LineBatcher::new(0);
    match b.push_line("a\n".to_string()) {
        Some(v) => assert!(v.is_empty()),
        None => panic!("an empty batch is full at capacity zero"),
    }
    assert!(b.push_line("b\n".to_string()).is_none());
    assert!(b.push_line("c\n".to_string()).is_none());
    assert_eq!(b.pending.len(), 3);
}

#[test]
fn stats_are_sent_every_flush_batches() {
    let mut p = StatsBatcher::new();
    for i in 1..FLUSH_EVERY {
        assert!(p.take_batch(vec![event("api", "error", i)]).is_none());
    }
    let sent = p.take_batch(vec![event("auth", "info", 7)]).expect("the twentieth batch flushes");
    assert_eq!(p.batches, FLUSH_EVERY);
    assert!(p.stats.is_empty());
    let latency: usize = (1..FLUSH_EVERY).sum();
    assert_eq!(sent.get("api"), Some(&stats(FLUSH_EVERY - 1, FLUSH_EVERY - 1, 0, latency)));
    assert_eq!(sent.get("auth"), Some(&stats(1, 0, 0, 7)));
    assert!(p.take_batch(vec![event("db", "fatal", 3)]).is_none());
    let last = p.finish().expect("pending statistics are sent at the end");
    assert_eq!(last.get("db"), Some(&stats(1, 0, 1, 3)));
}

#[test]
fn finish_without_statistics_sends_nothing() {
    let mut p = StatsBatcher::new();
    assert!(p.take_batch(Vec::new()).is_none());
    assert!(p.finish().is_none());
}

#[test]
fn progress_is_due_every_half_million_lines() {
    assert!(progress_due(0));
    assert!(progress_due(500_000));
    assert!(progress_due(1_000_000));
    assert!(!progress_due(499_999));
    assert!(!progress_due(500_001));
}

#[test]
fn absorbing_adds_the_totals() {
    let mut a = documented(sample());
    let b = documented(vec![event("api", "fatal", 5), event("gateway", "info", 7)]);
    let ta = log_reader::checked_total(&a).unwrap();
    let tb = log_reader::checked_total(&b).unwrap();
    assert!(a.can_absorb(&b));
    a.absorb(&b);
    assert_eq!(log_reader::checked_total(&a), Some(ta.add(&tb)));
    assert_eq!(a.get("api"), Some(&stats(3, 2, 1, 75)));
    assert_eq!(a.get("gateway"), Some(&stats(1, 0, 0, 7)));
}

#[test]
fn overflow_is_detected_before_it_happens() {
    let near = LogStats {
        entries: usize::MAX,
        total_errors: 0,
        total_fatals: 0,
        total_latency: 0,
    };
    assert_eq!(near.checked_add(&stats(1, 0, 0, 0)), None);
    assert_eq!(near.checked_add(&LogStats::new()), Some(near));
    let mut p = StatsBatcher::new();
    assert!(p.can_take(&vec![event("api", "info", 1)]));
    assert!(!p.can_take(&vec![event("api", "info", usize::MAX), event("api", "info", 1)]));
    p.batches = usize::MAX;
    assert!(!p.can_take(&Vec::new()));
    let mut big = ServiceStats::new();
    document_log_event(&mut big, event("api", "info", usize::MAX));
    let small = documented(vec![event("api", "info", 1)]);
    assert!(!big.can_absorb(&small));
    let elsewhere = documented(vec![event("auth", "info", 1)]);
    assert!(big.can_absorb(&elsewhere));
    big.absorb(&elsewhere);
    assert_eq!(log_reader::checked_total(&big), None);
}

#[test]
fn only_a_single_service_overflowing_refuses_a_batch() {
    let half = usize::MAX / 2 + 1;
    let p = StatsBatcher::new();
    assert!(p.can_take(&vec![event("api", "info", half), event("auth", "info", half)]));
    assert!(!p.can_take(&vec![event("api", "info", half), event("api", "info", half)]));
}

#[test]
fn reordered_lines_give_the_same_statistics() {
    let mut reversed = sample();
    reversed.reverse();
    let a = documented(sample());
    let b = documented(reversed);
    for name in ["auth", "api", "worker", "billing"] {
        assert_eq!(a.get(name), b.get(name));
    }
}

#[test]
fn maps_absorbed_in_any_order_give_the_same_aggregate() {
    let parts = || {
        let mut s = sample();
        let c = s.split_off(4);
        let b = s.split_off(2);
        vec![documented(s), documented(b), documented(c)]
    };
    let orders = [[0, 1, 2], [2, 0, 1], [1, 2, 0], [2, 1, 0]];
    let all = documented(sample());
    for order in orders {
        let maps = parts();
        let mut data = ServiceStats::new();
        for i in order {
            data.absorb(&maps[i]);
        }
        assert_eq!(data.len(), all.len());
        for name in ["auth", "api", "worker", "billing"] {
            assert_eq!(data.get(name), all.get(name));
        }
    }
}
