use swapd::contract::{Window, WindowKind};
use swapd::gating::{headroom, relevant};

fn m(x: f64) -> i128 {
    (x * 1e6).round() as i128
}

fn models(list: &[&str]) -> Vec<String> {
    list.iter().map(|s| s.to_string()).collect()
}

fn window(kind: WindowKind, name: Option<&str>, pct: f64) -> Window {
    Window {
        kind,
        name: name.map(str::to_string),
        pct: m(pct) as i64,
        resets_at: None,
        pace: None,
        used: None,
        limit: None,
        currency: None,
    }
}

#[test]
fn relevant_and_headroom_follow_the_models_list() {
    let windows = vec![
        window(WindowKind::FiveHour, None, 10.0),
        window(WindowKind::SevenDay, None, 20.0),
        window(WindowKind::Spend, None, 99.0),
        window(WindowKind::Scoped, Some("Fable"), 80.0),
    ];
    let kinds: Vec<_> = relevant(&windows, &models(&[])).iter().map(|w| w.kind).collect();
    assert_eq!(kinds, vec![WindowKind::FiveHour, WindowKind::SevenDay]);
    assert_eq!(headroom(&windows, &models(&[])), Some(m(80.0)));
    assert_eq!(relevant(&windows, &models(&["fable"])).len(), 3);
    assert_eq!(headroom(&windows, &models(&["fable"])), Some(m(20.0)));
    assert_eq!(headroom(&windows, &models(&["opus"])), Some(m(80.0)));
    assert_eq!(headroom(&windows, &models(&["all"])), Some(m(20.0)));
    assert_eq!(headroom(&vec![], &models(&[])), None);
}

#[test]
fn an_all_scoped_account_is_gated_by_every_named_bucket() {
    let windows = vec![
        window(WindowKind::Scoped, Some("gemini-2.5-pro"), 10.0),
        window(WindowKind::Scoped, Some("gemini-2.5-flash"), 75.0),
        window(WindowKind::Scoped, Some("CREDITS"), 40.0),
    ];
    assert_eq!(relevant(&windows, &models(&[])).len(), 3);
    assert_eq!(headroom(&windows, &models(&[])), Some(m(25.0)));
}

#[test]
fn models_still_narrow_an_account_with_a_five_hour_window() {
    let windows = vec![
        window(WindowKind::FiveHour, None, 10.0),
        window(WindowKind::Scoped, Some("opus"), 90.0),
        window(WindowKind::Scoped, Some("sonnet"), 50.0),
    ];
    assert_eq!(headroom(&windows, &models(&[])), Some(m(90.0)), "5h alone");
    assert_eq!(headroom(&windows, &models(&["opus"])), Some(m(10.0)));
}

#[test]
fn names_are_compared_in_lower_case_beyond_ascii() {
    let windows = vec![
        window(WindowKind::FiveHour, None, 10.0),
        window(WindowKind::Scoped, Some("ÉTÉ"), 70.0),
        window(WindowKind::Scoped, None, 99.0),
    ];
    assert_eq!(headroom(&windows, &models(&["été"])), Some(m(30.0)));
    assert_eq!(headroom(&windows, &models(&["ALL"])), Some(m(30.0)));
}
