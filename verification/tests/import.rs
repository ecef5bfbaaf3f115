use std::collections::BTreeMap;

use swapd::errors::{ErrorCode, SwapdError};
use swapd::export::{
    credential, entry as export_entry, envelope_head, export_choice, missing_login, targets, Source,
};
use swapd::collect::{Credential, Identity};
use swapd::import::{
    accounts_for, apply_rows, check_format, check_slots, decide, decide_all, has_account_beside,
    import_result, place_of_accounts, store_failure, string_credential, validate, Entry, Fate, ImportLogin, ImportResult, Place,
};
use swapd::json::{member_of, Json};
use swapd::slots::{ProviderSlots, Slot};
use swapd::table::Table;

fn object(items: Vec<(&str, Json)>) -> Table<Json> {
    let mut t = Table::new();
    for (k, v) in items {
        t.insert(k.to_string(), v);
    }
    t
}

fn text(s: &str) -> Json {
    Json::Str(s.to_string())
}

#[test]
fn cswap_and_swapd_envelopes_are_both_accepted() {
    check_format(&object(vec![("version", Json::Int(1)), ("accounts", Json::List(vec![]))]))
        .unwrap();
    check_format(&object(vec![("format", text("swapd/1")), ("accounts", Json::List(vec![]))]))
        .unwrap();
    let err = check_format(&object(vec![("version", Json::Int(2))])).unwrap_err();
    assert_eq!(err.code, ErrorCode::InvalidInput);
    assert_eq!(err.message, "unsupported export version: 2");
    let err = check_format(&object(vec![("nothing", Json::Bool(true))])).unwrap_err();
    assert_eq!(err.code, ErrorCode::InvalidInput);
    let err = check_format(&object(vec![("format", text("other/2"))])).unwrap_err();
    assert_eq!(err.message, "unsupported export format: other/2");
}

fn account(slot: i128) -> Json {
    Json::Object(object(vec![("slot", Json::Int(slot))]))
}

#[test]
fn a_providers_envelope_is_read_per_provider() {
    let mine = object(vec![
        ("format", text("swapd/1")),
        ("providers", Json::List(vec![Json::Object(object(vec![
            ("provider", text("gemini")),
            ("activeSlot", Json::Int(2)),
            ("accounts", Json::List(vec![account(2)])),
        ]))])),
    ]);
    let (accounts, active) = accounts_for(&mine, "gemini").unwrap();
    assert_eq!(accounts.len(), 1);
    assert_eq!(active, Some(2));

    let theirs = object(vec![
        ("format", text("swapd/1")),
        ("providers", Json::List(vec![Json::Object(object(vec![
            ("provider", text("codex")),
            ("accounts", Json::List(vec![account(1)])),
        ]))])),
    ]);
    let err = accounts_for(&theirs, "gemini").unwrap_err();
    assert!(err.message.contains("no gemini accounts"), "{}", err.message);

    let flat = object(vec![
        ("version", Json::Int(1)),
        ("activeAccountNumber", Json::Int(3)),
        ("accounts", Json::List(vec![account(3)])),
    ]);
    let (accounts, active) = accounts_for(&flat, "gemini").unwrap();
    assert_eq!(accounts.len(), 1);
    assert_eq!(active, Some(3));
}

#[test]
fn encrypted_exports_are_refused() {
    let envelope = object(vec![
        ("version", Json::Int(1)),
        ("encrypted", Json::Bool(true)),
        ("accounts", Json::List(vec![])),
    ]);
    let err = check_format(&envelope).unwrap_err();
    assert!(err.message.contains("encrypted"), "{}", err.message);
}

fn oauth_account(alias: &str, preferred: bool) -> Json {
    Json::Object(object(vec![
        ("number", Json::Int(1)),
        ("email", text(" one@example.com ")),
        ("alias", text(alias)),
        ("preferred", Json::Bool(preferred)),
        ("credentials", Json::Object(object(vec![(
            "claudeAiOauth",
            Json::Object(object(vec![("refreshToken", text("rt-1"))])),
        )]))),
        ("config", Json::Object(object(vec![(
            "oauthAccount",
            Json::Object(object(vec![("emailAddress", text("one@example.com"))])),
        )]))),
    ]))
}

#[test]
fn the_config_oauth_account_travels_into_the_login() {
    let entry = validate(oauth_account("", false), false).unwrap();
    assert_eq!((entry.slot, entry.email.as_str()), (1, "one@example.com"));
    let login = match &entry.login {
        ImportLogin::Object(o) => o,
        ImportLogin::Key(_) => panic!("an object credential stays one"),
    };
    match member_of(login, "oauthAccount") {
        Some(Json::Object(a)) => {
            assert!(matches!(member_of(a, "emailAddress"), Some(Json::Str(s)) if s == "one@example.com"))
        }
        _ => panic!("no account beside the credential"),
    }
    match member_of(login, "claudeAiOauth") {
        Some(Json::Object(a)) => {
            assert!(matches!(member_of(a, "refreshToken"), Some(Json::Str(s)) if s == "rt-1"))
        }
        _ => panic!("no credential"),
    }
}

/// A value of a file in the library's form.
fn read(value: &serde_json::Value) -> Json {
    match value {
        serde_json::Value::Null => Json::Null,
        serde_json::Value::Bool(b) => Json::Bool(*b),
        serde_json::Value::Number(n) => Json::Int(n.as_i64().unwrap() as i128),
        serde_json::Value::String(s) => text(s),
        serde_json::Value::Array(items) => Json::List(items.iter().map(read).collect()),
        serde_json::Value::Object(members) => {
            Json::Object(object(members.iter().map(|(k, v)| (k.as_str(), read(v))).collect()))
        }
    }
}

/// Slots and stored logins in memory.
struct Shelf {
    slots: ProviderSlots,
    secrets: BTreeMap<u32, String>,
    /// The slot whose login cannot be stored.
    broken: Option<u32>,
}

fn expiry(bytes: &str) -> Option<i64> {
    let value: serde_json::Value = serde_json::from_str(bytes).ok()?;
    value["claudeAiOauth"]["expiresAt"].as_i64()
}

impl Shelf {
    fn new() -> Shelf {
        Shelf { slots: ProviderSlots::new(), secrets: BTreeMap::new(), broken: None }
    }

    fn import(&mut self, file: &str, force: bool) -> Result<ImportResult, SwapdError> {
        let raw: serde_json::Value = serde_json::from_str(file).unwrap();
        let envelope = match read(&raw) {
            Json::Object(members) => members,
            other => panic!("{other:?}"),
        };
        check_format(&envelope)?;
        let (accounts, active) = accounts_for(&envelope, "codex")?;
        let mut entries: Vec<Entry> = Vec::new();
        let mut logins: Vec<String> = Vec::new();
        for i in 0..accounts.len() {
            entries.push(validate(read(&raw["accounts"][i]), false)?);
            check_slots(&entries)?;
            logins.push(raw["accounts"][i]["credentials"].to_string());
        }
        let newer: Vec<bool> = entries
            .iter()
            .zip(&logins)
            .map(|(e, login)| {
                let stored = self.secrets.get(&e.slot).filter(|b| !b.trim().is_empty());
                stored.map_or(true, |stored| expiry(stored) < expiry(login))
            })
            .collect();
        let prints: Vec<String> = logins
            .iter()
            .map(|login| {
                let value: serde_json::Value = serde_json::from_str(login).unwrap();
                format!("sha256:{}", value["claudeAiOauth"]["refreshToken"].as_str().unwrap())
            })
            .collect();
        let fates = decide_all(&entries, &self.slots, &newer, force)?;
        let mut landed = 0;
        let mut imported: Vec<u32> = Vec::new();
        let mut failure = None;
        for i in 0..entries.len() {
            if matches!(fates[i], Fate::New | Fate::Refresh) {
                if self.broken == Some(entries[i].slot) {
                    let slot = entries[i].slot;
                    failure = Some(store_failure(ErrorCode::Io, slot, "full", &imported));
                    break;
                }
                self.secrets.insert(entries[i].slot, logins[i].clone());
            }
            if fates[i] == Fate::New {
                imported.push(entries[i].slot);
            }
            landed += 1;
        }
        apply_rows(&mut self.slots, &entries, &fates, &prints, landed);
        match failure {
            Some(failure) => Err(failure),
            None => Ok(import_result(&entries, &fates, active)),
        }
    }

    fn stored_expiry(&self) -> Option<i64> {
        expiry(self.secrets.get(&1)?)
    }
}

fn account_with(slot: u32, email: &str, labels: &str, expires_at: i64) -> String {
    format!(
        r#"{{"number":{slot},"email":"{email}",{labels}"credentials":{{"claudeAiOauth":{{"accessToken":"at-{expires_at}","refreshToken":"rt-{slot}","expiresAt":{expires_at}}}}}}}"#
    )
}

fn file_of(accounts: &[String]) -> String {
    format!(r#"{{"version":1,"accounts":[{}]}}"#, accounts.join(","))
}

/// One account in slot 1, whose access token expires then.
fn export_with(expires_at: i64) -> String {
    file_of(&[account_with(1, "one@example.com", "", expires_at)])
}

#[test]
fn an_already_present_account_takes_the_files_newer_generation_only() {
    let mut shelf = Shelf::new();
    let first = shelf.import(&export_with(2_000), false).unwrap();
    assert_eq!((first.imported, first.refreshed), (vec![1], vec![]));
    assert_eq!(shelf.stored_expiry(), Some(2_000));

    let again = shelf.import(&export_with(2_000), false).unwrap();
    assert!(again.imported.is_empty() && again.refreshed.is_empty());
    assert_eq!(again.skipped.len(), 1);
    assert_eq!(again.skipped[0].reason, "already-present");
    assert_eq!((again.skipped[0].slot, again.skipped[0].email.as_str()), (1, "one@example.com"));

    let older = shelf.import(&export_with(1_000), false).unwrap();
    assert!(older.refreshed.is_empty(), "a spent generation must not replace its successor");
    assert_eq!(shelf.stored_expiry(), Some(2_000));

    let newer = shelf.import(&export_with(3_000), false).unwrap();
    assert_eq!((newer.imported, newer.refreshed), (vec![], vec![1]));
    assert!(newer.skipped.is_empty());
    assert_eq!(shelf.stored_expiry(), Some(3_000));

    shelf.secrets.insert(1, String::new());
    let restored = shelf.import(&export_with(1_000), false).unwrap();
    assert_eq!(restored.refreshed, vec![1]);
    assert_eq!(shelf.stored_expiry(), Some(1_000));
}

#[test]
fn an_already_present_account_takes_the_files_labels_and_keeps_its_credential() {
    let mut shelf = Shelf::new();
    let export = |alias: &str, preferred: bool| {
        let labels = format!(r#""alias":"{alias}","preferred":{preferred},"#);
        file_of(&[account_with(1, "one@example.com", &labels, 2_000)])
    };
    shelf.import(&export("", false), false).unwrap();
    let before = shelf.slots.slots.get(1).unwrap().clone();
    assert_eq!(before.alias, None);

    let out = shelf.import(&export("hiep", true), false).unwrap();
    assert_eq!((out.imported, out.refreshed, out.updated), (vec![], vec![], vec![1]));
    assert!(out.skipped.is_empty());
    let after = shelf.slots.slots.get(1).unwrap().clone();
    assert_eq!(after.alias.as_deref(), Some("hiep"));
    assert!(after.preferred);
    assert_eq!(after.fingerprint, before.fingerprint, "the credential never changed");
    assert_eq!(after.added, before.added);
    assert_eq!(shelf.stored_expiry(), Some(2_000));

    let again = shelf.import(&export("hiep", true), false).unwrap();
    assert!(again.updated.is_empty());
    assert_eq!(again.skipped[0].reason, "already-present");
}

#[test]
fn an_import_that_stops_keeps_what_landed() {
    let mut shelf = Shelf::new();
    shelf.slots.insert(9, slot("nine@example.com"));
    shelf.broken = Some(3);
    let file = file_of(&[
        account_with(2, "two@example.com", "", 1_000),
        account_with(3, "three@example.com", "", 1_000),
        account_with(1, "one@example.com", "", 1_000),
    ]);
    let e = shelf.import(&file, false).unwrap_err();
    assert_eq!(
        e.message,
        "slot 3's credential could not be stored (full); already imported: 2"
    );
    assert_eq!(shelf.slots.order, vec![9, 2]);
    assert_eq!(shelf.slots.slots.get(2).unwrap().email, "two@example.com");
    assert_eq!(shelf.slots.slots.get(2).unwrap().fingerprint.as_deref(), Some("sha256:rt-2"));
    assert_eq!(shelf.slots.slots.get(9).unwrap().email, "nine@example.com");
    assert!(!shelf.slots.slots.contains_key(1) && !shelf.slots.slots.contains_key(3));

    shelf.broken = None;
    let done = shelf.import(&file, false).unwrap();
    assert_eq!(done.imported, vec![3, 1]);
    assert_eq!(done.skipped[0].email, "two@example.com");
    assert_eq!(shelf.slots.order, vec![9, 2, 3, 1]);
}

#[test]
fn a_string_credential_must_be_an_api_key() {
    let raw = || {
        Json::Object(object(vec![
            ("number", Json::Int(1)),
            ("email", text("one@example.com")),
            ("credentials", text(" not-a-key ")),
        ]))
    };
    assert_eq!(string_credential(&raw()).as_deref(), Some("not-a-key"));
    match validate(raw(), false) {
        Err(e) => assert_eq!(e.code, ErrorCode::InvalidInput),
        Ok(_) => panic!("a non-key string credential must be refused"),
    }
    assert!(matches!(
        validate(raw(), true).unwrap().login,
        ImportLogin::Key(ref k) if k == "not-a-key"
    ));
}

#[test]
fn a_malformed_account_is_named() {
    let said = |items: Vec<(&str, Json)>| validate(Json::Object(object(items)), true).unwrap_err().message;
    assert_eq!(said(vec![]), "invalid or missing email in imported account");
    assert_eq!(
        said(vec![("email", text("a@b.c"))]),
        "invalid or missing slot number for a@b.c"
    );
    assert_eq!(
        said(vec![("email", text("a@b.c")), ("slot", Json::Int(0))]),
        "invalid or missing slot number for a@b.c"
    );
    assert_eq!(
        said(vec![("email", text("a@b.c")), ("slot", Json::Int(1)), ("alias", Json::Int(1))]),
        "alias for a@b.c must be a string"
    );
    assert_eq!(
        said(vec![("email", text("a@b.c")), ("slot", Json::Int(1)), ("disabled", text("x"))]),
        "disabled for a@b.c must be true or false"
    );
    assert_eq!(
        said(vec![("email", text("a@b.c")), ("slot", Json::Int(1))]),
        "credentials for a@b.c must be a JSON object or a raw API key"
    );
    assert!(validate(Json::Null, true).is_err());
    let e = || validate(oauth_account("", false), false).unwrap();
    assert_eq!(
        check_slots(&vec![e(), e()]).unwrap_err().message,
        "export names slot 1 twice (one@example.com, one@example.com)"
    );
    let mut ps = ProviderSlots::new();
    ps.insert(1, slot("two@example.com"));
    assert_eq!(
        decide(&e(), &ps, false, false).unwrap_err().message,
        "slot 1 holds two@example.com (org-1); pass --force to overwrite it"
    );
    assert_eq!(
        store_failure(ErrorCode::Io, 2, "full", &vec![1, 3]).message,
        "slot 2's credential could not be stored (full); already imported: 1, 3"
    );
}

fn slot(email: &str) -> Slot {
    Slot {
        email: email.to_string(),
        organization_uuid: "org-1".to_string(),
        organization_name: "Org".to_string(),
        plan: Some("Max".to_string()),
        alias: None,
        icon: None,
        disabled: true,
        preferred: false,
        auto_ignite: false,
        added: None,
        fingerprint: Some("sha256:a".to_string()),
    }
}

#[test]
fn what_is_exported_is_imported_back() {
    let mut meta = slot("one@example.com");
    meta.organization_uuid = String::new();
    let fields = export_entry(3, &meta, " sk-key ", true, None).unwrap();
    let mut o = Table::new();
    for (k, v) in fields {
        o.insert(k, v);
    }
    let e = validate(Json::Object(o), true).unwrap();
    assert_eq!((e.slot, e.email.as_str()), (3, "one@example.com"));
    assert_eq!(e.organization_name, "Org");
    assert_eq!(e.plan.as_deref(), Some("Max"));
    assert!(e.disabled && !e.preferred && e.alias.is_none() && e.added.is_none());
    assert!(matches!(e.login, ImportLogin::Key(ref k) if k == "sk-key"));
    assert_eq!(
        export_entry(3, &meta, "x", false, Some(Json::Null)).unwrap_err().message,
        "slot 3 (one@example.com)'s stored login is neither a JSON object nor a managed key"
    );
}

#[test]
fn an_export_takes_the_live_login_of_its_own_account_only() {
    let meta = slot("one@example.com");
    let live = |email: &str, org: &str| {
        Ok(Credential {
            bytes: "b".to_string(),
            fingerprint: "sha256:x".to_string(),
            identity: Some(Identity {
                email: email.to_string(),
                organization_uuid: org.to_string(),
                organization_name: String::new(),
                plan: None,
            }),
            expires_at: None,
            api_key: false,
        })
    };
    assert!(credential(1, &meta, true, &live("ONE@example.com", "org-1")).0);
    let (own, said) = credential(1, &meta, true, &live("two@example.com", "org-1"));
    assert!(!own);
    assert_eq!(
        said.as_deref(),
        Some("the live login is not slot 1 (one@example.com) any more; exporting the stored copy")
    );
    assert!(credential(1, &meta, false, &live("one@example.com", "org-1")).1.is_none());
    assert!(!credential(1, &meta, true, &Err("locked".to_string())).0);
    let mut ps = ProviderSlots::new();
    assert!(targets(&ps, "codex", None).is_err());
    ps.insert(4, slot("a@b.c"));
    ps.insert(2, slot("b@b.c"));
    assert_eq!(targets(&ps, "codex", None).unwrap(), vec![4, 2]);
    assert_eq!(targets(&ps, "codex", Some(2)).unwrap(), vec![2]);
    assert_eq!(targets(&ps, "codex", Some(3)).unwrap_err().code, ErrorCode::NoSuchSlot);
    assert_eq!(
        missing_login(4, &meta, false).unwrap(),
        "slot 4 (one@example.com) has no stored login; skipped"
    );
    assert!(missing_login(4, &meta, true).is_err());
    let head = envelope_head("codex", Some(4), &vec![2], 1_757_000_000_000_000).unwrap();
    assert_eq!(head.format, "swapd/1");
    assert_eq!(head.active_slot, None);
    assert_eq!(head.exported_at.as_deref(), Some("2025-09-04T15:33:20Z"));
}

#[test]
fn an_export_chooses_the_login_and_what_goes_beside_it() {
    let meta = slot("one@example.com");
    let chosen = |from_live: bool, stored: bool, named: bool, full: bool| {
        export_choice(4, &meta, from_live, Some("said".to_string()), stored, named, full)
    };
    let c = chosen(true, true, false, true).unwrap();
    assert_eq!((c.source, c.config, c.warnings), (Source::Live, true, vec!["said".to_string()]));
    let c = chosen(false, true, false, true).unwrap();
    assert_eq!((c.source, c.config), (Source::Stored, false));
    assert!(!chosen(true, true, false, false).unwrap().config);
    let c = chosen(false, false, false, true).unwrap();
    assert_eq!((c.source, c.config), (Source::Nowhere, false));
    assert_eq!(c.warnings[1], "slot 4 (one@example.com) has no stored login; skipped");
    assert_eq!(
        chosen(false, false, true, true).unwrap_err().message,
        "slot 4 (one@example.com) has no stored login; nothing to export"
    );
}

#[test]
fn the_accounts_are_found_where_they_stand() {
    let place = |file: &str| {
        let raw: serde_json::Value = serde_json::from_str(file).unwrap();
        match read(&raw) {
            Json::Object(members) => place_of_accounts(&members, "codex"),
            _ => None,
        }
    };
    assert_eq!(place(r#"{"accounts":[1],"providers":[]}"#), Some(Place::Flat));
    assert_eq!(
        place(r#"{"providers":[1,{"provider":"x"},{"provider":"codex","accounts":[1]}]}"#),
        Some(Place::Section(2))
    );
    assert_eq!(place(r#"{"providers":[{"provider":"codex","accounts":[]}]}"#), None);
    assert!(has_account_beside(&oauth_account("", false)));
    assert!(!has_account_beside(&Json::Null));
}
