use swapd::events::{window_label, Emit, Event};
use swapd::contract::{Window, WindowKind};
use swapd::history::SlotRef;
use swapd::json::Json;
use swapd::slot_map::SlotMap;

fn emit(event: Event) -> Emit {
    Emit { ts: "2025-09-04T15:33:20Z".to_string(), provider: "codex".to_string(), event }
}

fn two() -> SlotRef {
    SlotRef::numbered(2, "two@example.com".to_string())
}

fn poll() -> Event {
    let mut headroom: SlotMap<Option<i64>> = SlotMap::new();
    headroom.insert(1, Some(37_400_000));
    headroom.insert(2, None);
    headroom.insert(3, Some(90_500_000));
    headroom.insert(4, None);
    headroom.insert(5, Some(12_500_000));
    let mut fetch_errors: SlotMap<String> = SlotMap::new();
    fetch_errors.insert(2, "http-500".to_string());
    let mut windows: SlotMap<Vec<(String, i64)>> = SlotMap::new();
    windows.insert(3, vec![("5h".to_string(), 9_500_000), ("7d".to_string(), 0)]);
    windows.insert(5, Vec::new());
    Event::Poll {
        active: Some(SlotRef::numbered(1, "one@example.com".to_string())),
        headroom,
        threshold: 85_555_555,
        fetch_errors,
        windows,
    }
}

#[test]
fn each_event_has_its_line() {
    let line = |event: Event| emit(event).human();
    assert_eq!(
        line(poll()),
        "slot 1 (one@example.com): 63% used (switch at 85.555555%) | others: #2: ? (http-500), \
         #3: 5h 10% · 7d 0%, #4: ?, #5: 88%"
    );
    let nobody = Event::Poll {
        active: None,
        headroom: SlotMap::new(),
        threshold: 90_000_000,
        fetch_errors: SlotMap::new(),
        windows: SlotMap::new(),
    };
    assert_eq!(line(nobody), "poll: no active account");
    let switch = |from: Option<SlotRef>| Event::Switch {
        trigger: "proactive".to_string(),
        from,
        to: two(),
        warnings: Vec::new(),
    };
    assert_eq!(line(switch(None)), "switched (none) -> slot 2 (two@example.com) (proactive)");
    assert_eq!(
        line(switch(Some(SlotRef::unmanaged("x@example.com".to_string())))),
        "switched (x@example.com) -> slot 2 (two@example.com) (proactive)"
    );
    let hold = |detail: &str| Event::NoSwitch {
        reason: "cooldown".to_string(),
        detail: detail.to_string(),
    };
    assert_eq!(line(hold("")), "no switch: cooldown");
    assert_eq!(line(hold("soon")), "no switch: cooldown (soon)");
    assert_eq!(
        line(Event::Quarantined { account: two(), reason: "invalid_grant".to_string() }),
        "slot 2 (two@example.com) quarantined: invalid_grant. Log in as it and run `swapd add \
         --slot 2` to recover."
    );
    assert_eq!(
        line(Event::Unquarantined { account: two(), reason: "credentials-replaced".to_string() }),
        "slot 2 (two@example.com) back in rotation (credentials-replaced)"
    );
    assert_eq!(
        line(Event::AllExhausted { earliest_reset_at: Some("T".to_string()) }),
        "all accounts exhausted; earliest reset T"
    );
    assert_eq!(
        line(Event::AllExhausted { earliest_reset_at: None }),
        "all accounts exhausted; no reset time known"
    );
    let sleep = |seconds: i64| Event::Sleep { seconds, until: "T".to_string() };
    assert_eq!(line(sleep(600_000_000)), "sleeping 10m (until T)");
    assert_eq!(line(sleep(90_000_000)), "sleeping 2m (until T)");
    assert_eq!(line(sleep(150_000_000)), "sleeping 2m (until T)");
    let error = |transient: bool| Event::Error { message: "down".to_string(), transient };
    assert_eq!(line(error(true)), "error: down (will retry)");
    assert_eq!(line(error(false)), "error: down");
    assert_eq!(line(Event::EngineRefused { message: "no".to_string() }), "not starting: no");
    assert_eq!(line(Event::ConfigWarning { message: "typo".to_string() }), "warning: typo");
}

#[test]
fn each_event_has_its_members() {
    let names = |event: Event| {
        emit(event).to_json().into_iter().map(|(key, _)| key).collect::<Vec<String>>().join(" ")
    };
    assert_eq!(
        names(poll()),
        "schemaVersion event ts provider active headroomPct threshold fetchErrors windows"
    );
    let switch =
        Event::Switch { trigger: "manual".to_string(), from: None, to: two(), warnings: Vec::new() };
    assert_eq!(
        names(switch),
        "schemaVersion event ts provider trigger from to warnings dryRun"
    );
    let quarantined = Event::Quarantined { account: two(), reason: "r".to_string() };
    assert_eq!(
        names(quarantined),
        "schemaVersion event ts provider number slot email reason"
    );
    let seconds = |seconds: i64| {
        let event = Event::Sleep { seconds, until: "T".to_string() };
        match &emit(event).to_json()[4] {
            (key, Json::Micro(n)) if key == "seconds" => *n,
            other => panic!("{other:?}"),
        }
    };
    assert_eq!(seconds(61_234_567), 61_200_000);
    assert_eq!(seconds(61_250_000), 61_300_000);
}

#[test]
fn windows_are_labelled_by_their_kind_or_name() {
    let label = |kind: WindowKind, name: Option<&str>| {
        window_label(&Window {
            kind,
            name: name.map(str::to_string),
            pct: 0,
            resets_at: None,
            pace: None,
            used: None,
            limit: None,
            currency: None,
        })
    };
    assert_eq!(label(WindowKind::FiveHour, None), "5h");
    assert_eq!(label(WindowKind::SevenDay, None), "7d");
    assert_eq!(label(WindowKind::Scoped, Some("Opus")), "Opus");
    assert_eq!(label(WindowKind::Scoped, None), "scoped");
    assert_eq!(label(WindowKind::Daily, None), "daily");
    assert_eq!(label(WindowKind::Monthly, None), "monthly");
    assert_eq!(label(WindowKind::Spend, None), "spend");
}
