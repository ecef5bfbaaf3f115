use swapd::contract::{Window, WindowKind};
use swapd::poll_policy::{
    CANDIDATE_DEFAULT_INTERVAL_S, EDGE_BACKOFF_S, MIN_INTERVAL_S, POST_429_MIN_INTERVAL_S,
    RECENT_429_WINDOW_S, SERVE_TTL_S,
};
use swapd::table::Table;
use swapd::timefmt::parse_reset_ts;
use swapd::usage_store::{
    claim_id, due_candidate, failure_backoff_s, is_permanent_auth_error, new_claim_id,
    plan_oversleeps_interval, rate_limited_trust_ok, Entry, UsageStore, AUTH_DEAD_STRIKES,
    BACKOFF_CAP_S, CLAIM_TTL_S, RATE_LIMIT_TRUST_MAX_AGE_S, RETRY_AFTER_FLOOR_CAP_S,
    SCHEMA_VERSION, STALE_OK_S, TRUST_MAX_AGE_S, WEEK_S,
};

fn m(x: f64) -> i64 {
    (x * 1e6).round() as i64
}

const T0: i64 = 1_800_000_000_000_000;
const KEY: &str = "codex:1";

/// A table on a clock that the test advances by hand.
struct Bench {
    store: UsageStore,
    now: i64,
}

impl Bench {
    fn new() -> Bench {
        Bench { store: UsageStore { rows: Table::new() }, now: T0 }
    }
    fn advance(&mut self, by: i64) {
        self.now += by;
    }
    fn set(&mut self, now: i64) {
        self.now = now;
    }
    fn reserve(&mut self, respect_plans: bool, force: bool) -> Option<String> {
        self.reserve_as(&ident(), respect_plans, force)
    }
    fn reserve_as(
        &mut self,
        keys: &Vec<(String, String, String)>,
        respect_plans: bool,
        force: bool,
    ) -> Option<String> {
        let won = self.store.reserve(keys, respect_plans, force, self.now, 4711);
        won.get(KEY).cloned()
    }
    fn entry(&self) -> Entry {
        self.entry_as(&ident())
    }
    fn entry_as(&self, keys: &Vec<(String, String, String)>) -> Entry {
        let entries = self.store.entries(keys, &Vec::new(), self.now);
        entries.get(KEY).unwrap().copy()
    }
    fn success(&mut self, claim: &str, windows: Vec<Window>, is_active: bool) {
        self.store.record_success(
            KEY,
            claim,
            windows,
            is_active,
            m(80.0),
            &Vec::new(),
            self.now,
            500_000,
        );
    }
    fn failure(&mut self, claim: &str, kind: &str, retry_after: Option<f64>, fp: Option<&str>) {
        self.store.record_failure(
            KEY,
            claim,
            kind.to_string(),
            retry_after.map(m),
            fp.map(str::to_string),
            self.now,
        );
    }
    fn fetch_ok_as(&mut self, windows: Vec<Window>, is_active: bool) {
        let claim = self.reserve(false, true).unwrap();
        self.success(&claim, windows, is_active);
    }
    fn fetch_ok(&mut self, windows: Vec<Window>) {
        self.fetch_ok_as(windows, true);
    }
}

fn ident() -> Vec<(String, String, String)> {
    vec![(KEY.to_string(), "you@example.com".to_string(), "org-0000".to_string())]
}

fn window(kind: WindowKind, pct: f64, resets_at: Option<&str>) -> Window {
    Window {
        kind,
        name: None,
        pct: m(pct),
        resets_at: resets_at.map(str::to_string),
        pace: None,
        used: None,
        limit: None,
        currency: None,
    }
}

fn five(pct: f64) -> Vec<Window> {
    vec![window(WindowKind::FiveHour, pct, None)]
}

/// A measurement, whole.
fn whole(windows: Option<&Vec<Window>>) -> Option<String> {
    windows.map(|w| format!("{w:?}"))
}

/// The 5-hour window alone, whole.
fn only(pct: f64) -> Option<String> {
    whole(Some(&five(pct)))
}

/// Whether an entry says nothing.
fn is_blank(e: &Entry) -> bool {
    format!("{e:?}") == format!("{:?}", Entry::default())
}

#[test]
fn reserve_skips_fresh_rows_when_respecting_plans() {
    let mut b = Bench::new();
    b.fetch_ok_as(five(10.0), false);
    b.advance(m(10.0));
    assert!(b.reserve(true, false).is_none());
    b.set(T0 + SERVE_TTL_S);
    assert!(b.reserve(true, false).is_none());
    b.set(T0 + SERVE_TTL_S + m(0.5));
    assert!(b.reserve(true, false).is_none());
    b.set(T0 + CANDIDATE_DEFAULT_INTERVAL_S + m(0.5));
    assert!(b.reserve(true, false).is_some());
}

#[test]
fn reserve_force_takes_fresh_row() {
    let mut b = Bench::new();
    b.fetch_ok(five(10.0));
    b.advance(m(1.0));
    assert!(b.reserve(true, false).is_none());
    assert!(b.reserve(false, true).is_some());
}

#[test]
fn reserve_never_double_claims_within_ttl() {
    let mut b = Bench::new();
    let first = b.reserve(false, false).unwrap();
    b.advance(m(1.0));
    assert!(b.reserve(false, false).is_none());
    b.set(T0 + CLAIM_TTL_S - m(0.5));
    assert!(b.reserve(false, false).is_none());
    b.set(T0 + CLAIM_TTL_S + m(0.5));
    let second = b.reserve(false, false).unwrap();
    assert_ne!(second, first);
    b.advance(m(1.0));
    assert!(b.reserve(true, true).is_none());
}

#[test]
fn record_success_with_stale_claim_is_ignored() {
    let mut b = Bench::new();
    let stale = b.reserve(false, false).unwrap();
    b.advance(CLAIM_TTL_S + m(1.0));
    let live = b.reserve(false, false).unwrap();
    assert_ne!(stale, live);
    b.success(&stale, five(42.0), true);
    assert!(b.entry().last_good.is_none());
    b.failure(&stale, "timeout", None, None);
    assert_eq!(b.entry().consecutive_failures, 0);
    b.success(&live, five(42.0), true);
    assert_eq!(whole(b.entry().last_good.as_ref()), only(42.0));
    assert!(!b.entry().claimed(b.now));
}

#[test]
fn failure_429_backoff_uses_retry_after_and_edge_floor() {
    let mut b = Bench::new();
    let claim = b.reserve(false, false).unwrap();
    b.failure(&claim, "http-429", Some(0.0), None);
    let e = b.entry();
    assert_eq!(e.backoff_until, Some(T0 + EDGE_BACKOFF_S));
    assert_eq!(e.last_429_at, Some(T0));
    assert!(e.in_backoff(T0 + m(1.0)));
    assert!(b.reserve(false, true).is_none());

    b.set(T0 + EDGE_BACKOFF_S);
    let claim = b.reserve(false, false).unwrap();
    let now = b.now;
    b.failure(&claim, "http-429", Some(120.0), None);
    assert_eq!(b.entry().backoff_until, Some(now + m(120.0)));

    b.advance(m(120.0));
    let claim = b.reserve(false, false).unwrap();
    let now = b.now;
    b.failure(&claim, "http-429", Some(3600.0), None);
    assert_eq!(b.entry().backoff_until, Some(now + m(4500.0)));
}

#[test]
fn failure_backoff_schedule_matches_the_curve() {
    let curve: Vec<i64> = (1..=8).map(|n| failure_backoff_s(n, None, false)).collect();
    let expected: Vec<i64> =
        [30.0, 60.0, 120.0, 240.0, 480.0, 600.0, 600.0, 600.0].iter().map(|x| m(*x)).collect();
    assert_eq!(curve, expected);
    assert_eq!(failure_backoff_s(u32::MAX, None, true), BACKOFF_CAP_S);
    assert_eq!(failure_backoff_s(1, Some(0), false), m(30.0));
    assert_eq!(failure_backoff_s(1, Some(0), true), EDGE_BACKOFF_S);
    assert_eq!(failure_backoff_s(9, Some(0), true), BACKOFF_CAP_S);
    assert_eq!(failure_backoff_s(1, Some(m(100.0)), true), m(100.0));
    assert_eq!(failure_backoff_s(6, Some(m(100.0)), true), BACKOFF_CAP_S);
    assert_eq!(failure_backoff_s(1, Some(m(601.0)), true), m(1501.0));
    assert_eq!(failure_backoff_s(1, Some(m(3600.0)), true), RETRY_AFTER_FLOOR_CAP_S);
    assert_eq!(failure_backoff_s(1, Some(m(86400.0)), true), RETRY_AFTER_FLOOR_CAP_S);
    assert_eq!(failure_backoff_s(1, Some(m(5000.0)), false), TRUST_MAX_AGE_S);
}

#[test]
fn token_dead_after_one_strike_blocks_reserve() {
    let mut b = Bench::new();
    assert!(is_permanent_auth_error("invalid_grant"));
    let claim = b.reserve(false, false).unwrap();
    b.failure(&claim, "invalid_grant", None, Some("sha256:fp-old"));
    let e = b.entry();
    assert_eq!(e.auth_dead_strikes, AUTH_DEAD_STRIKES);
    assert!(e.token_dead(None));
    assert!(e.token_dead(Some("sha256:fp-old")));
    assert!(!e.token_dead(Some("sha256:fp-new")));
    b.advance(BACKOFF_CAP_S + m(1.0));
    assert!(b.reserve(false, false).is_none());
    assert!(b.reserve(false, true).is_none());
    b.store.clear_dead(KEY);
    let e = b.entry();
    assert_eq!(e.auth_dead_strikes, 0);
    assert_eq!(e.dead_fingerprint, None);
    assert_eq!(e.consecutive_failures, 0);
    assert_eq!(e.last_error, None);
    assert!(b.reserve(false, false).is_some());
}

#[test]
fn a_transient_failure_never_strikes_the_token() {
    let mut b = Bench::new();
    for kind in ["timeout", "http-429", "network"] {
        b.advance(BACKOFF_CAP_S + m(1.0));
        let claim = b.reserve(false, false).unwrap();
        b.failure(&claim, kind, None, Some("sha256:fp"));
        let e = b.entry();
        assert_eq!(e.auth_dead_strikes, 0, "{kind} struck the token");
        assert_eq!(e.dead_fingerprint, None);
        assert!(!e.token_dead(None));
    }
}

#[test]
fn stale_writer_cannot_strike_the_row() {
    let mut b = Bench::new();
    let stale = b.reserve(false, false).unwrap();
    b.advance(CLAIM_TTL_S + m(1.0));
    let live = b.reserve(false, false).unwrap();
    b.failure(&stale, "invalid_grant", None, Some("sha256:fp-old"));
    let e = b.entry();
    assert_eq!(e.auth_dead_strikes, 0);
    assert_eq!(e.dead_fingerprint, None);
    assert!(e.claimed(b.now));
    b.success(&live, five(10.0), true);
    assert_eq!(whole(b.entry().last_good.as_ref()), only(10.0));
}

#[test]
fn a_success_with_no_window_data_clears_the_measurement() {
    let mut b = Bench::new();
    b.fetch_ok(five(10.0));
    assert_eq!(whole(b.entry().decision_windows()), only(10.0));
    b.advance(MIN_INTERVAL_S + m(1.0));
    b.fetch_ok(vec![]);
    let e = b.entry();
    assert!(e.last_good.is_none());
    assert_eq!(e.fetched_at, Some(b.now));
    assert!(e.fresh(b.now));
    assert!(e.decision_windows().is_none());
}

#[test]
fn identity_mismatch_yields_empty_row() {
    let mut b = Bench::new();
    b.fetch_ok(five(10.0));
    assert_eq!(whole(b.entry().last_good.as_ref()), only(10.0));
    let other =
        vec![(KEY.to_string(), "other@example.com".to_string(), "org-9999".to_string())];
    assert!(is_blank(&b.entry_as(&other)));
    assert!(b.reserve_as(&other, true, false).is_some());
    assert_eq!(b.entry_as(&other).fetched_at, None);
    assert!(is_blank(&b.entry()));
}

#[test]
fn success_clears_failure_state_and_plans_the_next_poll() {
    let mut b = Bench::new();
    let claim = b.reserve(false, false).unwrap();
    b.failure(&claim, "timeout", None, None);
    b.advance(m(60.0));
    b.fetch_ok(five(10.0));
    let e = b.entry();
    assert_eq!(e.consecutive_failures, 0);
    assert_eq!(e.last_error, None);
    assert_eq!(e.backoff_until, None);
    assert_eq!(e.auth_dead_strikes, 0);
    assert_eq!(e.fetched_at, Some(T0 + m(60.0)));
    assert_eq!(e.interval_s, Some(MIN_INTERVAL_S));
    assert_eq!(e.next_poll_at, Some(T0 + m(60.0) + MIN_INTERVAL_S));
    b.advance(MIN_INTERVAL_S + m(1.0));
    b.fetch_ok(five(10.0));
    assert_eq!(b.entry().interval_s, Some(m(270.0)));
}

#[test]
fn a_recent_429_is_anchored_on_the_backoff_it_installed() {
    let mut b = Bench::new();
    let claim = b.reserve(false, false).unwrap();
    b.failure(&claim, "http-429", Some(3600.0), None);
    let backoff_end = T0 + m(4500.0);
    b.set(backoff_end + m(1.0));
    assert!(b.entry().recent_429(b.now));
    b.set(backoff_end + RECENT_429_WINDOW_S + m(1.0));
    assert!(!b.entry().recent_429(b.now));
    b.set(backoff_end + m(1.0));
    b.fetch_ok(five(10.0));
    assert_eq!(b.entry().interval_s, Some(POST_429_MIN_INTERVAL_S));

    let long_ago = Entry {
        last_429_at: Some(T0),
        last_error: Some("timeout".to_string()),
        backoff_until: Some(T0 + RECENT_429_WINDOW_S + m(3600.0)),
        ..Entry::default()
    };
    assert!(!long_ago.recent_429(T0 + RECENT_429_WINDOW_S + m(1.0)));
    let edge = Entry {
        last_429_at: Some(T0),
        last_error: Some("http-429".to_string()),
        backoff_until: Some(T0 + EDGE_BACKOFF_S),
        ..Entry::default()
    };
    assert!(edge.recent_429(T0 + EDGE_BACKOFF_S + RECENT_429_WINDOW_S - m(1.0)));
    assert!(!edge.recent_429(T0 + EDGE_BACKOFF_S + RECENT_429_WINDOW_S + m(1.0)));
}

#[test]
fn rate_limited_trust_ends_at_the_soonest_reset_or_the_ceiling() {
    let none = Vec::new();
    let reset = "2027-01-01T00:00:00Z";
    let reset_ts = parse_reset_ts(Some(reset)).unwrap();
    let windows = vec![
        window(WindowKind::FiveHour, 50.0, Some(reset)),
        window(WindowKind::SevenDay, 50.0, Some("2027-01-05T00:00:00Z")),
    ];
    assert!(rate_limited_trust_ok(Some(&windows), Some(m(60.0)), reset_ts - m(1.0), &none));
    assert!(!rate_limited_trust_ok(Some(&windows), Some(m(60.0)), reset_ts + m(1.0), &none));
    let far = vec![window(WindowKind::FiveHour, 50.0, Some("2030-01-01T00:00:00Z"))];
    let ceiling = RATE_LIMIT_TRUST_MAX_AGE_S;
    assert!(rate_limited_trust_ok(Some(&far), Some(ceiling - m(1.0)), T0, &none));
    assert!(!rate_limited_trust_ok(Some(&far), Some(ceiling + m(1.0)), T0, &none));
    assert!(rate_limited_trust_ok(Some(&five(50.0)), Some(m(10.0)), T0, &none));
    assert!(!rate_limited_trust_ok(Some(&five(50.0)), None, T0, &none));
}

#[test]
fn trust_is_extended_only_while_the_staleness_is_deliberate() {
    let mut b = Bench::new();
    b.fetch_ok(five(10.0));
    b.advance(STALE_OK_S + m(1.0));
    let e = b.entry();
    assert!(!e.trust_extended);
    assert!(e.decision_windows().is_none());
    let claim = b.reserve(false, false).unwrap();
    b.failure(&claim, "timeout", None, None);
    let e = b.entry();
    assert!(e.trust_extended);
    assert_eq!(whole(e.decision_windows()), only(10.0));
    b.set(T0 + TRUST_MAX_AGE_S + m(1.0));
    let e = b.entry();
    assert!(!e.trust_extended);
    assert!(e.decision_windows().is_none());
}

#[test]
fn a_missing_weekly_reset_is_carried_from_the_previous_measurement() {
    let mut b = Bench::new();
    let reset = "2027-01-01T00:00:00Z";
    let reset_ts = parse_reset_ts(Some(reset)).unwrap();
    let carried =
        |b: &Bench| parse_reset_ts(b.entry().last_good.unwrap()[0].resets_at.as_deref());

    b.set(reset_ts - m(3600.0));
    b.fetch_ok(vec![window(WindowKind::SevenDay, 40.0, Some(reset))]);
    b.set(reset_ts + m(3600.0));
    b.fetch_ok(vec![window(WindowKind::SevenDay, 0.0, None)]);
    assert_eq!(carried(&b), Some(reset_ts + WEEK_S));
    b.set(reset_ts + 2 * WEEK_S + m(10.0));
    b.fetch_ok(vec![window(WindowKind::SevenDay, 0.0, None)]);
    assert_eq!(carried(&b), Some(reset_ts + 3 * WEEK_S));
    let later = "2027-06-01T00:00:00Z";
    b.fetch_ok(vec![window(WindowKind::SevenDay, 5.0, Some(later))]);
    assert_eq!(b.entry().last_good.unwrap()[0].resets_at.as_deref(), Some(later));
}

#[test]
fn due_candidate_takes_the_stalest_due_row() {
    let key = |n: u32| format!("codex:{n}");
    let mut entries: Table<Entry> = Table::new();
    entries.insert(
        key(1),
        Entry {
            fetched_at: Some(T0 - m(100.0)),
            next_poll_at: Some(T0 - m(1.0)),
            ..Entry::default()
        },
    );
    entries.insert(
        key(2),
        Entry {
            fetched_at: Some(T0 - m(500.0)),
            next_poll_at: Some(T0 - m(1.0)),
            ..Entry::default()
        },
    );
    let all = vec![key(1), key(2)];
    assert_eq!(due_candidate(&all, &entries, T0), Some(key(2)));
    entries.insert(key(3), Entry::default());
    let all3 = vec![key(1), key(2), key(3)];
    assert_eq!(due_candidate(&all3, &entries, T0), Some(key(3)));
    entries.insert(key(3), Entry { backoff_until: Some(T0 + m(10.0)), ..Entry::default() });
    entries.insert(
        key(2),
        Entry {
            fetched_at: Some(T0 - m(500.0)),
            next_poll_at: Some(T0 + m(10.0)),
            ..Entry::default()
        },
    );
    assert_eq!(due_candidate(&all3, &entries, T0), Some(key(1)));
    entries.insert(
        key(1),
        Entry {
            fetched_at: Some(T0 - m(100.0)),
            next_poll_at: Some(T0 - m(1.0)),
            auth_dead_strikes: AUTH_DEAD_STRIKES,
            ..Entry::default()
        },
    );
    assert_eq!(due_candidate(&all3, &entries, T0), None);
    entries.insert(
        key(2),
        Entry {
            fetched_at: Some(T0 - m(500.0)),
            interval_s: Some(m(300.0)),
            next_poll_at: Some(T0 + m(86400.0)),
            ..Entry::default()
        },
    );
    assert!(plan_oversleeps_interval(entries.get(&key(2)).unwrap(), T0));
    assert_eq!(due_candidate(&all3, &entries, T0), Some(key(2)));
}

#[test]
fn a_legacy_or_future_schema_reads_as_empty() {
    let mut b = Bench::new();
    b.fetch_ok(five(10.0));
    let kept = UsageStore::from_file(SCHEMA_VERSION, b.store.rows);
    assert!(kept.rows.contains_key(KEY));
    assert_eq!(SCHEMA_VERSION, 2);
    b.store = UsageStore::from_file(1, kept.rows);
    assert!(is_blank(&b.entry()));
}

#[test]
fn claims_name_the_process_and_differ() {
    assert_eq!(claim_id(42, 255), "42-00000000000000ff");
    let (a, b) = (new_claim_id(42), new_claim_id(42));
    assert!(a.starts_with("42-") && a.len() == 19, "{a}");
    assert_ne!(a, b);
}

#[test]
fn a_claim_given_back_or_moved_leaves_the_rest() {
    let mut b = Bench::new();
    b.fetch_ok(five(10.0));
    b.advance(m(400.0));
    let claim = b.reserve(false, false).unwrap();
    b.store.release(KEY, "another");
    assert!(b.entry().claimed(b.now));
    b.store.release(KEY, &claim);
    let e = b.entry();
    assert!(!e.claimed(b.now));
    assert_eq!(e.consecutive_failures, 0);
    assert_eq!(whole(e.last_good.as_ref()), only(10.0));
    b.store.relocate(KEY, "codex:2");
    assert!(!b.store.rows.contains_key(KEY));
    assert!(b.store.rows.contains_key("codex:2"));
}

#[test]
fn a_live_claim_stands_whatever_is_asked_beside_it() {
    let mut b = Bench::new();
    let first = b.reserve(false, false).unwrap();
    b.advance(CLAIM_TTL_S - 1);
    let other = ("codex:2".to_string(), "two@example.com".to_string(), String::new());
    let twice = vec![ident().remove(0), other, ident().remove(0)];
    assert!(b.reserve_as(&twice, false, true).is_none());
    assert_eq!(b.store.rows.get(KEY).unwrap().claim_id.as_deref(), Some(first.as_str()));
}
