use swapd::contract::{Window, WindowKind};
use swapd::poll_policy::{
    earliest_future_reset_ts, limiting_reset_ts, plan_after_fetch, PlanInput,
    ACTIVE_MAX_INTERVAL_S, CANDIDATE_DEFAULT_INTERVAL_S, CANDIDATE_MAX_INTERVAL_S,
    EXHAUSTED_INTERVAL_S, MIN_INTERVAL_S, POST_429_MAX_INTERVAL_S, POST_429_MIN_INTERVAL_S,
    RESET_SLACK_S, URGENT_INTERVAL_S,
};
use swapd::timefmt::{format_ts, parse_reset_ts};

/// A number of percent or seconds in millionths.
fn m(x: f64) -> i64 {
    (x * 1e6).round() as i64
}

/// A random number that moves nothing.
const NO_JITTER: u32 = 500_000;

fn window(pct: f64, resets_at: Option<&str>) -> Window {
    Window {
        kind: WindowKind::FiveHour,
        name: None,
        pct: m(pct),
        resets_at: resets_at.map(str::to_string),
        pace: None,
        used: None,
        limit: None,
        currency: None,
    }
}

fn now() -> i64 {
    m(1_800_000_000.0)
}

fn plan(
    prev_interval_s: Option<f64>,
    prev: Option<&Vec<Window>>,
    new: &Vec<Window>,
    is_active: bool,
    recent_429: bool,
) -> (i64, i64) {
    plan_at(now(), prev_interval_s, prev, new, is_active, recent_429, NO_JITTER)
}

fn plan_at(
    now: i64,
    prev_interval_s: Option<f64>,
    prev: Option<&Vec<Window>>,
    new: &Vec<Window>,
    is_active: bool,
    recent_429: bool,
    roll: u32,
) -> (i64, i64) {
    plan_after_fetch(
        PlanInput {
            prev_interval_s: prev_interval_s.map(m),
            prev,
            new,
            is_active,
            threshold: m(80.0),
            models: &Vec::new(),
            recent_429,
            now,
        },
        roll,
    )
}

#[test]
fn movement_halves_interval_floored_at_min() {
    let prev = vec![window(10.0, None)];
    let new = vec![window(20.0, None)];
    let (next, interval) = plan(Some(600.0), Some(&prev), &new, false, false);
    assert_eq!(interval, m(300.0));
    assert_eq!(next, now() + m(300.0));
    let (_, interval) = plan(Some(200.0), Some(&prev), &new, false, false);
    assert_eq!(interval, MIN_INTERVAL_S);
    let barely = vec![window(10.5, None)];
    let (_, interval) = plan(Some(600.0), Some(&prev), &barely, false, false);
    assert_eq!(interval, CANDIDATE_MAX_INTERVAL_S);
}

#[test]
fn no_movement_backs_off_1_5x_to_ceiling() {
    let prev = vec![window(10.0, None)];
    let new = vec![window(10.0, None)];
    let (_, interval) = plan(Some(200.0), Some(&prev), &new, false, false);
    assert_eq!(interval, m(300.0));
    let (_, interval) = plan(Some(300.0), Some(&prev), &new, false, false);
    assert_eq!(interval, m(450.0));
    let (_, interval) = plan(Some(450.0), Some(&prev), &new, false, false);
    assert_eq!(interval, CANDIDATE_MAX_INTERVAL_S);
    let (_, interval) = plan(Some(450.0), Some(&prev), &new, true, false);
    assert_eq!(interval, ACTIVE_MAX_INTERVAL_S);
    let (_, interval) = plan(Some(60.0), Some(&prev), &new, true, false);
    assert_eq!(m(60.0), URGENT_INTERVAL_S);
    assert_eq!(interval, MIN_INTERVAL_S);
    let (_, interval) = plan(Some(450.0), None, &new, true, false);
    assert_eq!(interval, MIN_INTERVAL_S);
    let (_, interval) = plan(Some(450.0), Some(&prev), &vec![], false, false);
    assert_eq!(interval, CANDIDATE_DEFAULT_INTERVAL_S);
}

#[test]
fn active_moving_near_threshold_is_urgent() {
    let prev = vec![window(60.0, None)];
    let inside = vec![window(66.0, None)];
    let (_, interval) = plan(Some(300.0), Some(&prev), &inside, true, false);
    assert_eq!(interval, URGENT_INTERVAL_S);
    let outside = vec![window(64.0, None)];
    let (_, interval) = plan(Some(300.0), Some(&prev), &outside, true, false);
    assert_eq!(interval, MIN_INTERVAL_S);
    let (_, interval) = plan(Some(300.0), Some(&prev), &inside, false, false);
    assert_eq!(interval, MIN_INTERVAL_S);
    let (_, interval) = plan(Some(300.0), Some(&prev), &inside, true, true);
    assert!(interval >= POST_429_MIN_INTERVAL_S);
    let (_, interval) = plan(Some(300.0), Some(&inside), &inside, true, false);
    assert_eq!(interval, ACTIVE_MAX_INTERVAL_S);
}

#[test]
fn recent_429_floors_at_360_and_grows_1_5x() {
    let prev = vec![window(10.0, None)];
    let new = vec![window(10.0, None)];
    let (_, interval) = plan(None, Some(&prev), &new, true, true);
    assert_eq!(interval, POST_429_MIN_INTERVAL_S);
    let (_, interval) = plan(Some(360.0), Some(&prev), &new, true, true);
    assert_eq!(interval, m(540.0));
    let (_, interval) = plan(Some(540.0), Some(&prev), &new, true, true);
    assert_eq!(interval, m(810.0));
    let (_, interval) = plan(Some(810.0), Some(&prev), &new, true, true);
    assert_eq!(interval, m(1215.0));
    let (_, interval) = plan(Some(1215.0), Some(&prev), &new, true, true);
    assert_eq!(interval, POST_429_MAX_INTERVAL_S);
    let (_, interval) = plan(Some(1800.0), Some(&prev), &new, true, true);
    assert_eq!(interval, POST_429_MAX_INTERVAL_S);
    assert_eq!(m(1800.0), POST_429_MAX_INTERVAL_S);
}

#[test]
fn exhausted_polls_every_600_capped_at_reset_plus_slack() {
    let prev = vec![window(99.0, None)];
    let reset = "2027-01-01T00:00:00Z";
    let reset_ts = parse_reset_ts(Some(reset)).unwrap();
    let new = vec![window(100.0, Some(reset))];
    let now = reset_ts - m(5000.0);
    let (next, interval) = plan_at(now, Some(300.0), Some(&prev), &new, true, false, NO_JITTER);
    assert_eq!(interval, EXHAUSTED_INTERVAL_S);
    assert_eq!(next, now + EXHAUSTED_INTERVAL_S);
    let now = reset_ts - m(100.0);
    let (next, interval) = plan_at(now, Some(300.0), Some(&prev), &new, true, false, NO_JITTER);
    assert_eq!(interval, EXHAUSTED_INTERVAL_S);
    assert_eq!(next, reset_ts + RESET_SLACK_S);
    let now = reset_ts + m(10.0);
    let (next, _) = plan_at(now, Some(300.0), Some(&prev), &new, true, false, NO_JITTER);
    assert_eq!(next, now + EXHAUSTED_INTERVAL_S);
}

#[test]
fn next_poll_never_after_next_reset_plus_slack() {
    let reset = "2027-01-01T00:00:00Z";
    let reset_ts = parse_reset_ts(Some(reset)).unwrap();
    let prev = vec![window(10.0, Some(reset))];
    let new = vec![window(10.0, Some(reset))];
    let now = reset_ts - m(100.0);
    let (next, interval) = plan_at(now, Some(600.0), Some(&prev), &new, false, false, NO_JITTER);
    assert_eq!(interval, CANDIDATE_MAX_INTERVAL_S);
    assert_eq!(next, reset_ts + RESET_SLACK_S);
    let now = reset_ts + m(10.0);
    let (next, _) = plan_at(now, Some(600.0), Some(&prev), &new, false, false, NO_JITTER);
    assert_eq!(next, now + CANDIDATE_MAX_INTERVAL_S);
}

#[test]
fn jitter_stays_within_the_fraction() {
    let prev = vec![window(10.0, None)];
    let new = vec![window(10.0, None)];
    for (r, expected) in [(0u32, 450.0 * 0.9), (1_000_000u32, 450.0 * 1.1)] {
        let (next, interval) = plan_at(now(), None, Some(&prev), &new, false, false, r);
        assert_eq!(interval, m(450.0));
        assert!((next - (now() + m(expected))).abs() < 1, "{next}");
    }
}

#[test]
fn reset_helpers_pick_the_right_window() {
    let windows = vec![
        window(100.0, Some("2027-01-01T00:00:00Z")),
        Window {
            kind: WindowKind::SevenDay,
            name: None,
            pct: m(100.0),
            resets_at: Some("2027-01-03T00:00:00Z".to_string()),
            pace: None,
            used: None,
            limit: None,
            currency: None,
        },
    ];
    let none = Vec::new();
    let five = parse_reset_ts(Some("2027-01-01T00:00:00Z")).unwrap();
    let seven = parse_reset_ts(Some("2027-01-03T00:00:00Z")).unwrap();
    assert_eq!(limiting_reset_ts(&windows, &none), Some(seven));
    assert_eq!(earliest_future_reset_ts(&windows, five - m(1.0), &none), Some(five));
    assert_eq!(earliest_future_reset_ts(&windows, five + m(1.0), &none), Some(seven));
    assert_eq!(earliest_future_reset_ts(&windows, seven + m(1.0), &none), None);
    let below = vec![window(99.9, Some("2027-01-01T00:00:00Z"))];
    assert_eq!(limiting_reset_ts(&below, &none), None);
    assert_eq!(parse_reset_ts(None), None);
    assert_eq!(parse_reset_ts(Some("")), None);
    assert_eq!(parse_reset_ts(Some("not a date")), None);
    assert_eq!(parse_reset_ts(Some("2027-01-01T00:00:00Z")), Some(five));
    assert_eq!(parse_reset_ts(Some("2027-01-01T00:00:00+00:00")), Some(five));
}

#[test]
fn instants_are_written_and_read_back() {
    assert_eq!(format_ts(0).as_deref(), Some("1970-01-01T00:00:00Z"));
    assert_eq!(format_ts(m(1_757_000_000.7)).as_deref(), Some("2025-09-04T15:33:20Z"));
    assert_eq!(parse_reset_ts(Some("2025-09-04T15:33:20Z")), Some(m(1_757_000_000.0)));
    assert_eq!(parse_reset_ts(Some("2025-09-04T17:33:20.75+02:00")), Some(m(1_757_000_000.0)));
    assert_eq!(format_ts(i64::MAX), None);
    assert_eq!(format_ts(-62_167_219_200_000_000).as_deref(), Some("0000-01-01T00:00:00Z"));
    assert_eq!(parse_reset_ts(Some("0000-01-01T00:00:00Z")), Some(-62_167_219_200_000_000));
    assert_eq!(format_ts(-62_167_219_201_000_000), None);
    assert_eq!(format_ts(253_402_300_799_000_000).as_deref(), Some("9999-12-31T23:59:59Z"));
    assert_eq!(format_ts(253_402_300_800_000_000), None);
}
