use swapd::add_token::{compose_login, synthesized, TokenKind, TokenLogin};
use swapd::compact::{
    plan, rename_pin, renumber, stop_reason, stopped_note, vacated, Move, Renumbering, Stop,
};
use swapd::contract::{AccountView, LastGood, UsageStatus, Window, WindowKind};
use swapd::errors::ErrorCode;
use swapd::files::{lock_name, lock_probe, nonce, tmp_name, Watcher};
use swapd::history::{read, SlotRef, SwitchRecord};
use swapd::ignite::{human_line, ignited, next_wait, window_seen};
use swapd::import::valid_email;
use swapd::json::{member_of, Json};
use swapd::list::{account_line, drivers_for, usage_columns};
use swapd::notify::masked;
use swapd::oauth::{check_sign_in, parse_query, respond, sanitize, serve, urldecode, Meaning};
use swapd::outputs::{record_line, rotation_target};
use swapd::slots::{ProviderSlots, Slot};
use swapd::unclaimed::{format_stashed_at, list, Entry, Manifest};
use swapd::verbs::{
    check_banks_resets, check_reset, check_run, exit_code, parse_deadline, run_path, spendable,
    ResetHold, RunPath,
};

fn m(x: f64) -> i64 {
    (x * 1e6).round() as i64
}

#[test]
fn query_pairs_are_decoded() {
    let params = parse_query("code=ac%2F1&state=s-1&empty=");
    assert_eq!(params[0], ("code".to_string(), "ac/1".to_string()));
    assert_eq!(params[1], ("state".to_string(), "s-1".to_string()));
    assert_eq!(params[2], ("empty".to_string(), String::new()));
    assert!(parse_query("").is_empty());
}

#[test]
fn a_stray_percent_is_kept_rather_than_eating_the_value() {
    assert_eq!(urldecode("100%"), "100%");
    assert_eq!(urldecode("a%zz"), "a%zz");
    assert_eq!(urldecode("a+b"), "a b");
}

#[test]
fn bytes_that_are_no_text_are_replaced() {
    assert_eq!(urldecode("%C3%A9"), "é");
    assert_eq!(urldecode("%FF"), "\u{fffd}");
    assert_eq!(urldecode("%é"), "%é");
    assert_eq!(urldecode("x%+fy"), "x\u{f}y");
}

#[test]
fn an_error_from_the_query_cannot_carry_control_characters() {
    assert_eq!(sanitize("access_denied"), "access_denied");
    assert_eq!(sanitize("bad\r\nSet-Cookie: x"), "badSet-Cookie: x");
    assert_eq!(sanitize(&"x".repeat(200)).len(), 80);
}

#[test]
fn only_the_redirect_of_this_sign_in_is_taken() {
    let a = serve("GET /callback?code=c%20d&state=s HTTP/1.1\r\n", "s");
    assert_eq!(a.status, "200 OK");
    assert!(matches!(a.meaning, Meaning::Code(ref c) if c == "c d"));
    let a = serve("GET /callback?code=c&state=other HTTP/1.1\r\n", "s");
    assert_eq!((a.status, a.body), ("400 Bad Request", "Not this sign-in."));
    assert!(matches!(a.meaning, Meaning::Ignored));
    let a = serve("GET /favicon.ico HTTP/1.1\r\n", "s");
    assert_eq!((a.status, a.body), ("404 Not Found", "Not found."));
    let a = serve("GET", "s");
    assert_eq!((a.status, a.body), ("400 Bad Request", "Bad request."));
    let a = serve("GET /callback?state=s&code= HTTP/1.1", "s");
    assert_eq!((a.status, a.body), ("400 Bad Request", "No code."));
    let a = serve("GET /callback?error=access_denied&state=s HTTP/1.1", "s");
    match a.meaning {
        Meaning::Refused(e) => {
            assert_eq!(e.code, ErrorCode::InvalidInput);
            assert_eq!(e.message, "the sign-in was refused (access_denied)");
        }
        _ => panic!("an error ends the sign-in"),
    }
    assert_eq!(
        respond("200 OK", "Hi."),
        "HTTP/1.1 200 OK\r\nContent-Type: text/html; charset=utf-8\r\nContent-Length: 45\r\n\
         Connection: close\r\n\r\n<!doctype html><meta charset=utf-8><p>Hi.</p>"
    );
}

#[test]
fn api_keys_and_setup_tokens_get_their_own_labels() {
    assert_eq!(synthesized(TokenKind::ApiKey, 3), "api-key-3@token.local");
    assert_eq!(synthesized(TokenKind::Oauth, 1), "setup-token-1@token.local");
}

#[test]
fn an_api_key_is_stored_raw_and_a_token_is_wrapped() {
    match compose_login(TokenKind::ApiKey, "sk-ant-api03-x", "api-key-1@token.local") {
        TokenLogin::Raw(bytes) => assert_eq!(bytes, "sk-ant-api03-x"),
        TokenLogin::Wrapped(_) => panic!("a key is stored as it is"),
    }
    let value = match compose_login(TokenKind::Oauth, "sk-ant-oat01-y", "setup-token-1@token.local") {
        TokenLogin::Wrapped(Json::Object(o)) => o,
        _ => panic!("a token is wrapped"),
    };
    let oauth = match member_of(&value, "claudeAiOauth") {
        Some(Json::Object(o)) => o,
        _ => panic!("no credential"),
    };
    assert!(matches!(member_of(oauth, "accessToken"), Some(Json::Str(s)) if s == "sk-ant-oat01-y"));
    match member_of(oauth, "scopes") {
        Some(Json::List(l)) => assert!(matches!(&l[0], Json::Str(s) if s == "user:inference")),
        _ => panic!("no scopes"),
    }
    let account = match member_of(&value, "oauthAccount") {
        Some(Json::Object(o)) => o,
        _ => panic!("no account"),
    };
    assert!(matches!(
        member_of(account, "emailAddress"),
        Some(Json::Str(s)) if s == "setup-token-1@token.local"
    ));
}

#[test]
fn a_url_keeps_its_host_and_four_characters() {
    assert_eq!(
        masked("https://hooks.slack.com/services/T00/B00/abcd1234"),
        Some("hooks.slack.com…1234".to_string())
    );
    assert_eq!(masked("12345:AAbbCCddEEff"), Some("…EEff".to_string()));
    assert_eq!(masked("  "), None);
}

#[test]
fn email_validation_rejects_path_fragments() {
    assert!(valid_email("one@example.com"));
    assert!(!valid_email("../escape@example.com"));
    assert!(!valid_email("no-at-sign"));
    assert!(!valid_email("two@@example.com"));
    assert!(!valid_email("one@localhost"));
}

fn window(kind: WindowKind, name: Option<&str>, pct: f64) -> Window {
    Window {
        kind,
        name: name.map(str::to_string),
        pct: m(pct),
        resets_at: None,
        pace: None,
        used: None,
        limit: None,
        currency: None,
    }
}

fn row(windows: Vec<Window>) -> AccountView {
    AccountView {
        slot: 1,
        email: "you@example.com".to_string(),
        organization_name: String::new(),
        organization_uuid: String::new(),
        plan: None,
        alias: None,
        icon: None,
        active: false,
        disabled: false,
        preferred: false,
        usage_status: UsageStatus::Okay,
        fetched_at: None,
        age_seconds: None,
        windows,
        last_good: None,
        last_error: None,
        backoff_until: None,
    }
}

#[test]
fn an_account_with_account_wide_windows_keeps_the_two_columns() {
    let account = row(vec![
        window(WindowKind::FiveHour, None, 12.0),
        window(WindowKind::SevenDay, None, 34.0),
        window(WindowKind::Scoped, Some("Fable"), 99.0),
    ]);
    assert_eq!(usage_columns(&account), "12% / 34%");
    let account = row(vec![window(WindowKind::FiveHour, None, 12.0)]);
    assert_eq!(usage_columns(&account), "12% / -");
}

#[test]
fn an_all_scoped_account_names_its_binding_bucket() {
    let account = row(vec![
        window(WindowKind::Scoped, Some("gemini-2.5-flash"), 10.0),
        window(WindowKind::Scoped, Some("gemini-2.5-pro"), 75.0),
    ]);
    assert_eq!(usage_columns(&account), "gemini-2.5-pro 75%");
}

#[test]
fn a_stale_row_prints_its_last_known_good_windows() {
    let mut account = row(vec![]);
    account.usage_status = UsageStatus::Stale;
    account.last_good = Some(LastGood {
        fetched_at: "2026-09-09T01:11:03Z".to_string(),
        age_seconds: m(900.0),
        windows: vec![window(WindowKind::Scoped, Some("gemini-2.5-pro"), 75.0)],
    });
    assert_eq!(usage_columns(&account), "gemini-2.5-pro 75%");
    assert_eq!(account_line(&account), "  1 you@example.com stale gemini-2.5-pro 75%");
}

#[test]
fn an_account_with_nothing_measured_reads_as_the_empty_pair() {
    assert_eq!(usage_columns(&row(vec![])), "- / -");
    let account = row(vec![window(WindowKind::Spend, Some("credits"), 40.0)]);
    assert_eq!(usage_columns(&account), "- / -");
}

#[test]
fn percentages_are_rounded_to_even() {
    let account = row(vec![
        window(WindowKind::FiveHour, None, 12.5),
        window(WindowKind::SevenDay, None, 13.5),
    ]);
    assert_eq!(usage_columns(&account), "12% / 14%");
}

#[test]
fn an_unknown_provider_is_an_error() {
    let registry = vec!["gemini".to_string(), "codex".to_string()];
    assert_eq!(drivers_for(None, &registry).unwrap(), registry);
    assert_eq!(drivers_for(Some("codex"), &registry).unwrap(), vec!["codex".to_string()]);
    let err = drivers_for(Some("nobody"), &registry).unwrap_err();
    assert_eq!(err.message, "unknown provider: nobody");
}

const AHEAD: &str = "2025-09-04T19:00:00Z";
const BEHIND: &str = "2025-09-04T09:00:00Z";

/// The board after one measurement.
fn board(kind: WindowKind, resets_at: Option<&str>) -> Vec<AccountView> {
    let mut w = window(kind, None, 1.0);
    w.resets_at = resets_at.map(str::to_string);
    if kind == WindowKind::Scoped {
        w.name = Some("model".to_string());
    }
    vec![row(vec![w])]
}

/// Measures and waits as the verb does; answers what was seen, the waits and the
/// measurements.
fn ignite_with(answers: Vec<Vec<AccountView>>) -> (Option<bool>, Vec<u64>, usize) {
    let now = m(1_757_000_000.0);
    let mut waits = Vec::new();
    let mut fetches = 1;
    let mut seen = window_seen(&answers[0], 1, now);
    while let Some(secs) = next_wait(seen, waits.len()) {
        waits.push(secs);
        let at = fetches.min(answers.len() - 1);
        seen = window_seen(&answers[at], 1, now);
        fetches += 1;
    }
    (seen, waits, fetches)
}

#[test]
fn a_window_still_cold_after_the_run_is_re_fetched_until_it_shows() {
    let (seen, waits, fetches) = ignite_with(vec![
        board(WindowKind::FiveHour, None),
        board(WindowKind::FiveHour, None),
        board(WindowKind::FiveHour, Some(AHEAD)),
    ]);
    assert_eq!(seen, Some(true));
    assert_eq!(waits, vec![3, 7]);
    assert_eq!(fetches, 3);
}

#[test]
fn a_window_already_open_is_answered_from_the_first_fetch() {
    let (seen, waits, fetches) = ignite_with(vec![board(WindowKind::FiveHour, Some(AHEAD))]);
    assert_eq!(seen, Some(true));
    assert!(waits.is_empty());
    assert_eq!(fetches, 1);
}

#[test]
fn a_window_that_never_shows_exhausts_the_waits_and_says_so() {
    let (seen, waits, fetches) = ignite_with(vec![board(WindowKind::FiveHour, Some(BEHIND))]);
    assert_eq!(seen, Some(false));
    assert_eq!(waits, vec![3, 7, 15, 30]);
    assert_eq!(fetches, 5);
    let out = ignited(1, false, seen, m(1_757_000_000.0));
    assert_eq!(human_line(&out), "ignited slot 1 — window not visible yet");
    assert_eq!(out.at, "2025-09-04T15:33:20Z");
}

#[test]
fn a_provider_without_a_five_hour_window_does_not_wait() {
    let (seen, waits, fetches) = ignite_with(vec![board(WindowKind::Scoped, Some(AHEAD))]);
    assert_eq!(seen, None);
    assert!(waits.is_empty());
    assert_eq!(fetches, 1);
}

fn slot(email: &str) -> Slot {
    Slot {
        email: email.to_string(),
        organization_uuid: String::new(),
        organization_name: String::new(),
        plan: None,
        alias: None,
        icon: None,
        disabled: false,
        preferred: false,
        auto_ignite: false,
        added: None,
        fingerprint: None,
    }
}

#[test]
fn plan_closes_every_gap_ascending() {
    let mut ps = ProviderSlots::new();
    for n in [1, 2, 4, 5, 7] {
        ps.insert(n, slot(&format!("{n}@example.com")));
    }
    let moves: Vec<(u32, u32)> = plan(&ps).iter().map(|m| (m.from, m.to)).collect();
    assert_eq!(moves, vec![(4, 3), (5, 4), (7, 5)]);

    let mut dense = ProviderSlots::new();
    for n in [1, 2, 3] {
        dense.insert(n, slot(&format!("{n}@example.com")));
    }
    assert!(plan(&dense).is_empty());
    assert!(plan(&ProviderSlots::new()).is_empty());
}

#[test]
fn a_renumbering_moves_rows_order_and_pins() {
    let mut ps = ProviderSlots::new();
    for n in [7, 1, 4] {
        ps.insert(n, slot(&format!("{n}@example.com")));
    }
    ps.active_slot = Some(7);
    let mut run = Renumbering::new(plan(&ps));
    while run.next().is_some() {
        run.advance(&mut ps);
    }
    let done = run.finish();
    assert_eq!(done.moves, vec![Move { from: 4, to: 2 }, Move { from: 7, to: 3 }]);
    assert_eq!(ps.order, vec![3, 1, 2]);
    assert_eq!(ps.active_slot, Some(3));
    assert_eq!(ps.slots.get(3).unwrap().email, "7@example.com");
    assert_eq!(vacated(&done.moves), vec![4, 7]);
    assert_eq!(renumber(&done.moves, 7), 3);
    assert_eq!(rename_pin(&done.moves, "4"), "2");
    assert_eq!(rename_pin(&done.moves, "work"), "work");

    let mut stopped = Renumbering::new(vec![Move { from: 4, to: 2 }]);
    stopped.stop("a live session is using its profile".to_string());
    assert!(stopped.next().is_none());
    let stop: Stop = stopped.finish().stopped_at.unwrap();
    assert_eq!(
        stopped_note(&stop),
        "slot 4 kept its number (a live session is using its profile), as did every slot above \
         it; `swapd compact` finishes the renumber"
    );
}

fn record(ts: &str, to: u32) -> SwitchRecord {
    SwitchRecord {
        ts: ts.to_string(),
        from: Some(SlotRef::numbered(1, "one@example.com".to_string())),
        to: SlotRef::numbered(to, "two@example.com".to_string()),
        trigger: "manual".to_string(),
    }
}

#[test]
fn append_then_read_is_newest_last() {
    let log = vec![record("2026-09-09T00:00:00Z", 2), record("2026-09-09T00:01:00Z", 3)];
    let all = read(&log, None);
    assert_eq!(all.len(), 2);
    assert_eq!(all[1].to.slot, Some(3));
    assert_eq!(
        record_line(&all[1]),
        "2026-09-09T00:01:00Z 1 (one@example.com) -> 3 (two@example.com) (manual)"
    );
}

#[test]
fn limit_keeps_the_newest() {
    let log = vec![record("a", 2), record("b", 3), record("c", 4)];
    let last_two = read(&log, Some(2));
    assert_eq!(last_two.len(), 2);
    assert_eq!(last_two[0].ts, "b");
    assert_eq!(last_two[1].ts, "c");
}

#[test]
fn missing_log_reads_empty() {
    assert!(read(&Vec::new(), None).is_empty());
}

fn entry(secret_key: &str) -> Entry {
    Entry {
        provider: "codex".to_string(),
        stashed_at: 1_757_000_000,
        email: "a@b.c".to_string(),
        fingerprint: "sha256:deadbeef".to_string(),
        reason: "switch: live login matched no slot".to_string(),
        secret_key: secret_key.to_string(),
    }
}

#[test]
fn record_then_list_roundtrips() {
    let mut manifest = Manifest::new();
    manifest.record(
        "1757000000-abcd1234".to_string(),
        entry("codex:unclaimed-1757000000-abcd1234"),
    );
    assert_eq!(list(&manifest).entries.len(), 1);
    let got = manifest.entries.get("1757000000-abcd1234").unwrap();
    assert_eq!(got.provider, "codex");
    assert_eq!(got.email, "a@b.c");
    assert_eq!(got.secret_key, "codex:unclaimed-1757000000-abcd1234");
    assert_eq!(list(&manifest).entries[0].stashed_at, "2025-09-04T15:33:20Z");
    assert_eq!(format_stashed_at(u64::MAX), "1969-12-31T23:59:59Z");
    assert_eq!(format_stashed_at(1 << 62), "");
}

#[test]
fn purge_removes_the_secret_and_the_row() {
    let key = "codex:unclaimed-1757000000-abcd1234";
    let mut manifest = Manifest::new();
    manifest.record("1757000000-abcd1234".to_string(), entry(key));
    assert_eq!(manifest.secret_key("1757000000-abcd1234").unwrap(), key);
    let purged = manifest.purge("1757000000-abcd1234").unwrap();
    assert_eq!(purged.secret_key, key);
    assert!(list(&manifest).entries.is_empty());
}

#[test]
fn purge_unknown_id_is_invalid_input() {
    let mut manifest = Manifest::new();
    let err = manifest.purge("nope").unwrap_err();
    assert_eq!(err.code, ErrorCode::InvalidInput);
}

#[test]
fn every_nudge_writes_a_new_nonce() {
    let (a, b) = (nonce(), nonce());
    assert_ne!(a, b);
    assert_eq!(a.len(), 17);
    assert!(a.ends_with('\n'));
    assert_eq!(lock_name("slots.json"), "slots.json.lock");
    let tmp = tmp_name("slots.json");
    assert!(tmp.starts_with(".slots.json.tmp."), "{tmp}");
    assert_ne!(tmp, tmp_name("slots.json"));
}

#[test]
fn a_change_wakes_once_and_a_quiet_file_never_does() {
    let mut watcher = Watcher::new(b"a".to_vec());
    assert!(!watcher.look(b"a".to_vec()));
    assert!(watcher.look(b"b".to_vec()));
    assert!(!watcher.look(b"b".to_vec()));
    assert!(watcher.look(b"bb".to_vec()));
    assert!(watcher.look(Vec::new()));
}

#[test]
fn a_lock_without_a_file_is_not_held() {
    let probe = lock_probe(None, Some("x"));
    assert!(!probe.held && probe.note.is_none());
    let probe = lock_probe(Some(true), Some(" {\"pid\":7}\n"));
    assert!(probe.held);
    assert_eq!(probe.note.as_deref(), Some("{\"pid\":7}"));
    assert!(lock_probe(Some(false), Some("  ")).note.is_none());
}

#[test]
fn runs_are_checked_before_anything_is_spent() {
    assert_eq!(check_run("codex", 1, false, true, false).unwrap_err().code, ErrorCode::Unsupported);
    assert_eq!(
        check_run("codex", 1, true, false, false).unwrap_err().code,
        ErrorCode::ProviderNotInstalled
    );
    assert_eq!(
        check_run("codex", 3, true, true, true).unwrap_err().message,
        "slot 3 holds a managed API key; api-key logins cannot run"
    );
    assert!(check_run("codex", 3, true, true, false).is_ok());
    let slots = ProviderSlots::new();
    assert_eq!(run_path(&slots, 1, Some("/tmp/x"), &None), RunPath::ProfileOverAmbient);
    assert_eq!(run_path(&slots, 1, Some(""), &None), RunPath::Profile);
    assert_eq!(exit_code(Some(3), None), 3);
    assert_eq!(exit_code(None, Some(2)), 130);
    assert_eq!(exit_code(None, None), 1);
}

#[test]
fn a_reset_is_spent_only_where_it_may_be() {
    assert_eq!(spendable(2, None).unwrap_err().message, "slot 2 has no banked reset");
    let held = spendable(2, Some((Some(ResetHold::Cooldown(Some("t".to_string()))), None)));
    assert_eq!(
        held.unwrap_err().message,
        "slot 2's reset cannot be spent now: a reset was spent recently; the next may be at t"
    );
    assert_eq!(spendable(2, Some((None, Some("g-1".to_string())))).unwrap(), "g-1");
    assert!(check_reset("reset").is_ok());
    assert_eq!(check_reset("no").unwrap_err().message, "the provider refused the reset: no");
    assert_eq!(parse_deadline(Some("1970-01-01T00:00:01Z")).unwrap(), Some(1_000_000));
    assert_eq!(parse_deadline(None).unwrap(), None);
    assert_eq!(
        parse_deadline(Some("so\"on")).unwrap_err().message,
        "--resets-at must be an RFC 3339 timestamp, got \"so\\\"on\""
    );
    assert_eq!(rotation_target(&vec![4, 2]).unwrap(), 4);
    assert_eq!(
        rotation_target(&Vec::new()).unwrap_err().reason.as_deref(),
        Some("no-candidate")
    );
}

#[test]
fn a_provider_says_what_it_cannot_do() {
    let e = check_sign_in("codex", false).unwrap_err();
    assert_eq!((e.code, e.message.as_str()), (ErrorCode::Unsupported, "codex has no browser sign-in"));
    let e = check_banks_resets("codex", false).unwrap_err();
    assert_eq!((e.code, e.message.as_str()), (ErrorCode::Unsupported, "codex banks no limit resets"));
    assert!(check_sign_in("codex", true).is_ok());
    assert!(check_banks_resets("codex", true).is_ok());
}

#[test]
fn a_gap_stays_open_while_a_session_runs() {
    assert_eq!(
        stop_reason(ErrorCode::Locked, "busy".to_string()),
        "a live session is using its profile"
    );
    assert_eq!(stop_reason(ErrorCode::InvalidInput, "no such file".to_string()), "no such file");
}

#[test]
fn of_a_secret_no_more_than_the_end_is_shown() {
    assert_eq!(masked("abcd"), Some("…abcd".to_string()));
    assert_eq!(masked(" abcde "), Some("…bcde".to_string()));
}
