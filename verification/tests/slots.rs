use swapd::add::{
    check_alias, check_capture, check_named, compose, find_owner, human_line, place, settle, AddOutput,
};
use swapd::add_token::{
    admit_token, check_source, check_takes_tokens, check_token, find_email, read_token,
    token_email, token_slot, TokenKind,
};
use swapd::collect::{Credential, Identity};
use swapd::edits::{check_removal, hold, prefer, reorder, set_alias, set_auto_ignite, set_icon};
use swapd::auto::AutoState;
use swapd::compact::{
    drop_pins, plan, rename_pin, rename_pins, renumber, vacated, Renumbering,
};
use swapd::errors::ErrorCode;
use swapd::slots::{ProviderSlots, Slot};
use swapd::switch::{match_slot, resolve, stash_key, Strategy};
use swapd::unclaimed::stash_entry;

fn slot(email: &str, alias: Option<&str>) -> Slot {
    Slot {
        email: email.to_string(),
        organization_uuid: String::new(),
        organization_name: String::new(),
        plan: None,
        alias: alias.map(|a| a.to_string()),
        icon: None,
        disabled: false,
        preferred: false,
        auto_ignite: false,
        added: None,
        fingerprint: None,
    }
}

fn login(email: Option<&str>, fingerprint: &str) -> Credential {
    Credential {
        bytes: "b".to_string(),
        fingerprint: fingerprint.to_string(),
        identity: email.map(identity),
        expires_at: None,
        api_key: false,
    }
}

fn identity(email: &str) -> Identity {
    Identity {
        email: email.to_string(),
        organization_uuid: String::new(),
        organization_name: String::new(),
        plan: None,
    }
}

#[test]
fn next_free_skips_taken() {
    let mut ps = ProviderSlots::new();
    ps.insert(1, slot("a@example.com", None));
    ps.insert(2, slot("b@example.com", None));
    assert_eq!(ps.next_free(), 3);
    ps.remove(1);
    assert_eq!(ps.next_free(), 1);
}

#[test]
fn resolve_by_number_email_alias() {
    let mut ps = ProviderSlots::new();
    ps.insert(1, slot("Alice@Example.com", Some("work")));
    ps.insert(2, slot("bob@example.com", None));
    assert_eq!(ps.resolve("1"), Some(1));
    assert_eq!(ps.resolve("3"), None);
    assert_eq!(ps.resolve("alice@example.com"), Some(1));
    assert_eq!(ps.resolve("BOB@EXAMPLE.COM"), Some(2));
    assert_eq!(ps.resolve("Work"), Some(1));
    assert_eq!(ps.resolve("nobody"), None);
}

#[test]
fn resolve_prefers_alias_over_email_and_reports_ambiguity() {
    let mut slots = ProviderSlots::new();
    slots.insert(1, slot("one@example.com", Some("work")));
    slots.insert(2, slot("two@example.com", Some("one@example.com")));
    assert_eq!(resolve(&slots, "codex", "1").unwrap(), 1);
    assert_eq!(resolve(&slots, "codex", "WORK").unwrap(), 1);
    assert_eq!(resolve(&slots, "codex", "one@example.com").unwrap(), 2);
    let err = resolve(&slots, "codex", "9").unwrap_err();
    assert_eq!(err.code, ErrorCode::NoSuchSlot);
    assert_eq!(err.message, "no slot 9 for codex");
}

#[test]
fn resolve_refuses_two_slots_with_one_email() {
    let mut slots = ProviderSlots::new();
    slots.insert(1, slot("same@example.com", None));
    slots.insert(2, slot("same@example.com", None));
    let err = resolve(&slots, "codex", "same@example.com").unwrap_err();
    assert_eq!(err.code, ErrorCode::InvalidInput);
    assert_eq!(err.message, "'same@example.com' matches slots 1, 2; name one by number");
}

#[test]
fn stash_key_avoids_the_slash_file_secrets_rejects() {
    let now = 1_757_000_000_700_000;
    let key = stash_key("codex", now, "sha256:0123456789abcdef");
    assert_eq!(key, "codex:unclaimed-1757000000-01234567");
    assert!(!key.contains('/'));
    assert_ne!(key, stash_key("codex", now, "sha256:fedcba9876543210"));
    assert_eq!(stash_key("codex", -1, "abc"), "codex:unclaimed-0-abc");
    let (id, entry) = stash_entry("codex", now, "a@b.c", "sha256:0123456789abcdef");
    assert_eq!(id, "1757000000-01234567");
    assert_eq!((entry.stashed_at, entry.secret_key), (1_757_000_000, key));
}

#[test]
fn strategies_are_named() {
    assert_eq!(Strategy::parse("best").unwrap(), Strategy::Best);
    assert_eq!(Strategy::parse("consume-first").unwrap(), Strategy::ConsumeFirst);
    assert_eq!(Strategy::parse("next-available").unwrap(), Strategy::NextAvailable);
    assert_eq!(
        Strategy::parse("vibes").unwrap_err().message,
        "unknown strategy: vibes (consume-first, best, next-available)"
    );
}

#[test]
fn a_login_belongs_to_the_slot_of_its_identity_or_fingerprint() {
    let mut slots = ProviderSlots::new();
    slots.insert(3, slot("one@example.com", None));
    let mut two = slot("two@example.com", None);
    two.fingerprint = Some("sha256:two".to_string());
    slots.insert(5, two);
    assert_eq!(match_slot(&slots, &login(Some("ONE@example.com"), "sha256:two")), Some(3));
    assert_eq!(match_slot(&slots, &login(None, "sha256:two")), Some(5));
    assert_eq!(match_slot(&slots, &login(Some("x@example.com"), "")), None);
}

#[test]
fn edits_change_one_row_and_say_so() {
    let mut ps = ProviderSlots::new();
    ps.insert(1, slot("one@example.com", Some("work")));
    ps.insert(2, slot("two@example.com", None));
    assert!(set_alias(&mut ps, "codex", "2", Some(" home "), false).unwrap());
    assert_eq!(ps.slots.get(2).unwrap().alias.as_deref(), Some("home"));
    assert!(!set_alias(&mut ps, "codex", "2", Some("home"), false).unwrap());
    assert_eq!(
        set_alias(&mut ps, "codex", "2", Some("WORK"), false).unwrap_err().message,
        "alias 'WORK' is already used by slot 1"
    );
    assert!(set_alias(&mut ps, "codex", "home", None, true).unwrap());
    assert!(set_alias(&mut ps, "codex", "2", None, false).is_err());
    assert_eq!(
        check_alias(&ps, "7", None).unwrap_err().message,
        "'7' would be read as a slot number, not an alias"
    );
    assert_eq!(check_alias(&ps, "  ", None).unwrap_err().message, "an alias cannot be empty");
    assert!(set_icon(&mut ps, "codex", "1", Some("🩸"), false).unwrap());
    assert!(set_icon(&mut ps, "codex", "1", Some(" "), false).is_err());
    assert!(hold(&mut ps, "codex", "1", true).unwrap());
    assert!(!hold(&mut ps, "codex", "1", true).unwrap());
    assert!(prefer(&mut ps, "codex", "1", " ON ", true).unwrap());
    assert_eq!(
        prefer(&mut ps, "codex", "1", "on", false).unwrap_err().code,
        ErrorCode::Unsupported
    );
    assert_eq!(
        prefer(&mut ps, "codex", "1", "x", true).unwrap_err().message,
        "prefer expects 'on' or 'off', got 'x'"
    );
    assert!(set_auto_ignite(&mut ps, "codex", "2", "on", true).unwrap());
    let one = ps.slots.get(1).unwrap();
    assert!(one.disabled && one.preferred);
    assert_eq!(one.icon.as_deref(), Some("🩸"));
    assert_eq!(one.alias.as_deref(), Some("work"));
}

#[test]
fn a_new_order_names_every_slot_once() {
    let mut ps = ProviderSlots::new();
    for n in 1..=3 {
        ps.insert(n, slot(&format!("{n}@example.com"), None));
    }
    let names = |list: &[&str]| list.iter().map(|s| s.to_string()).collect::<Vec<_>>();
    assert!(reorder(&mut ps, "codex", &names(&["3", "1@example.com", "2"])).unwrap());
    assert_eq!(ps.order, vec![3, 1, 2]);
    assert!(!reorder(&mut ps, "codex", &names(&["3", "1", "2"])).unwrap());
    assert_eq!(
        reorder(&mut ps, "codex", &names(&["3"])).unwrap_err().message,
        "the new order leaves out slot 1, 2; name every slot"
    );
    assert_eq!(
        reorder(&mut ps, "codex", &names(&["3", "3"])).unwrap_err().message,
        "slot 3 is named twice"
    );
    assert!(reorder(&mut ps, "codex", &names(&[])).is_err());
    assert_eq!(ps.order, vec![3, 1, 2]);
    ps.active_slot = Some(3);
    assert_eq!(
        check_removal(&ps, "codex", "3", true).unwrap_err().message,
        "slot 3 is the live login; switch away first"
    );
    assert!(check_removal(&ps, "codex", "1", false).is_err());
    assert_eq!(check_removal(&ps, "codex", "1", true).unwrap(), (1, "1@example.com".to_string()));
    ps.remove(3);
    assert_eq!((ps.order.clone(), ps.active_slot), (vec![1, 2], None));
}

#[test]
fn an_account_keeps_its_slot_unless_another_is_asked_for() {
    let mut ps = ProviderSlots::new();
    ps.insert(1, slot("one@example.com", Some("work")));
    ps.insert(2, slot("two@example.com", None));
    let owner = find_owner(&ps, &identity("ONE@example.com"));
    assert_eq!(owner, Some(1));
    let p = place(&ps, owner, None, false).unwrap();
    assert_eq!((p.slot, p.created, p.moved_from), (1, false, None));
    let p = place(&ps, None, None, false).unwrap();
    assert_eq!((p.slot, p.created), (3, true));
    let p = place(&ps, owner, Some(5), false).unwrap();
    assert_eq!((p.slot, p.created, p.moved_from), (5, true, Some(1)));
    assert_eq!(p.prior.as_ref().unwrap().alias.as_deref(), Some("work"));
    assert_eq!(
        place(&ps, owner, Some(2), false).unwrap_err().message,
        "slot 2 holds two@example.com; pass --force to overwrite it"
    );
    let forced = place(&ps, owner, Some(2), true).unwrap();
    assert_eq!((forced.slot, forced.created, forced.moved_from), (2, false, Some(1)));
    assert_eq!(place(&ps, None, Some(0), false).unwrap_err().message, "slot numbers start at 1");
    let row = compose(&identity("one@example.com"), &p.prior, &None, 1_757_000_000_000_000);
    assert_eq!(row.alias.as_deref(), Some("work"));
    assert_eq!(row.added.as_deref(), Some("2025-09-04T15:33:20Z"));
    assert!(check_capture("codex", Some("  ")).is_err());
    assert!(check_capture("codex", Some(" sk-ant-api03-x")).is_err());
    assert!(check_capture("codex", Some("{}")).is_ok());
    let out = AddOutput {
        schema_version: 1,
        slot: 5,
        email: "one@example.com".to_string(),
        created: p.created,
        moved_from: p.moved_from,
    };
    assert_eq!(human_line(&out), "Added slot 5: one@example.com");
    ps.active_slot = Some(1);
    settle(&mut ps, &p, row, false);
    assert_eq!(ps.order, vec![2, 5]);
    assert!(!ps.slots.contains_key(1));
    assert_eq!(ps.slots.get(5).unwrap().alias.as_deref(), Some("work"));
    assert_eq!(ps.active_slot, None);
    let here = place(&ps, Some(5), None, false).unwrap();
    settle(&mut ps, &here, slot("one@example.com", Some("home")), true);
    assert_eq!((ps.order.clone(), ps.active_slot), (vec![2, 5], Some(5)));
    assert_eq!(ps.slots.get(5).unwrap().alias.as_deref(), Some("home"));
}

#[test]
fn a_token_takes_the_slot_of_its_address() {
    let mut ps = ProviderSlots::new();
    ps.insert(1, slot("one@example.com", None));
    assert_eq!(find_email(&ps, "ONE@example.com"), Some(1));
    assert_eq!(token_slot(&ps, None, &Some("one@example.com".to_string())), 1);
    assert_eq!(token_slot(&ps, None, &None), 2);
    assert_eq!(token_slot(&ps, Some(9), &None), 9);
    assert_eq!(token_email(TokenKind::Oauth, 2, &None), "setup-token-2@token.local");
    let refused = check_token(
        &ps,
        1,
        "one@example.com",
        TokenKind::ApiKey,
        Some(TokenKind::Oauth),
        false,
    );
    assert_eq!(
        refused.unwrap_err().message,
        "'one@example.com' already exists as an OAuth account (slot 1); pass a distinct --email"
    );
    assert!(check_token(&ps, 1, "x@example.com", TokenKind::ApiKey, None, false).is_err());
    assert!(check_token(&ps, 1, "x@example.com", TokenKind::ApiKey, None, true).is_ok());
}

#[test]
fn an_alias_that_was_given_names_its_slot() {
    let mut ps = ProviderSlots::new();
    ps.insert(1, slot("home@example.com", None));
    ps.insert(2, slot("two@example.com", None));
    assert_eq!(resolve(&ps, "codex", "home@example.com").unwrap(), 1);
    set_alias(&mut ps, "codex", "2", Some("home@example.com"), false).unwrap();
    assert_eq!(resolve(&ps, "codex", "HOME@example.com").unwrap(), 2);
}

#[test]
fn numbers_follow_their_accounts() {
    let mut ps = ProviderSlots::new();
    for n in [2, 3, 7] {
        ps.insert(n, slot(&format!("{n}@example.com"), None));
    }
    ps.active_slot = Some(7);
    let moves = plan(&ps);
    let mut flow = Renumbering::new(plan(&ps));
    while flow.next().is_some() {
        flow.advance(&mut ps);
    }
    assert_eq!(flow.finish().moves, moves);
    for n in [2, 3, 7] {
        let now = ps.slots.get(renumber(&moves, n)).unwrap();
        assert_eq!(now.email, format!("{n}@example.com"));
    }
    assert_eq!(ps.order, vec![1, 2, 3]);
    assert_eq!(ps.active_slot, Some(3));
    assert_eq!(vacated(&moves), vec![7]);
    assert_eq!(rename_pin(&moves, "7"), "3");
    assert_eq!(rename_pin(&moves, "work"), "work");
    let pins = vec!["7".to_string(), "work".to_string(), "2".to_string()];
    assert_eq!(rename_pins(&moves, &pins), vec!["3", "work", "1"]);
    assert_eq!(drop_pins(&pins, 7), vec!["work", "2"]);
    let mut state = AutoState::new();
    state.quarantine(7, "invalid_grant".to_string(), None, 0);
    state.renumber(&moves);
    assert_eq!(state.quarantined(), vec![3]);
    assert_eq!(state.quarantine.get("3").unwrap().since, "1970-01-01T00:00:00Z");
}

#[test]
fn a_stopped_renumbering_says_where() {
    let mut ps = ProviderSlots::new();
    for n in [2, 5] {
        ps.insert(n, slot(&format!("{n}@example.com"), None));
    }
    let mut flow = Renumbering::new(plan(&ps));
    flow.advance(&mut ps);
    flow.stop("in use".to_string());
    let done = flow.finish();
    assert_eq!(done.moves.len(), 1);
    let stop = done.stopped_at.unwrap();
    assert_eq!((stop.slot, stop.reason.as_str()), (5, "in use"));
    assert!(ps.slots.contains_key(1) && ps.slots.contains_key(5));
}

#[test]
fn a_token_is_read_from_stdin_and_asked_in_order() {
    assert!(check_source("-").is_ok());
    assert_eq!(
        check_source("sk-x").unwrap_err().message,
        "the token is read from stdin: `swapd add-token -`"
    );
    assert_eq!(
        check_takes_tokens("codex", false).unwrap_err().message,
        "codex cannot register a raw token"
    );
    assert_eq!(read_token(" tok\n", &None).unwrap(), "tok");
    assert_eq!(read_token(" \n", &Some("x".to_string())).unwrap_err().message, "empty token");
    assert_eq!(
        read_token("t", &Some("x".to_string())).unwrap_err().message,
        "invalid email format: x"
    );
    assert_eq!(
        check_named("", true).unwrap_err().message,
        "the sign-in did not name an account; try again"
    );
    assert!(check_named("", false).is_err() && check_named("a@b.c", false).is_ok());
    let mut ps = ProviderSlots::new();
    ps.insert(1, slot("one@example.com", None));
    let admitted = |alias: Option<&str>, force: bool| {
        admit_token(&ps, 1, "x@example.com", alias, TokenKind::Oauth, None, force)
    };
    assert_eq!(admitted(Some(" "), false).unwrap_err().message, "an alias cannot be empty");
    assert_eq!(
        admitted(Some("work"), false).unwrap_err().message,
        "slot 1 holds one@example.com; pass --force to overwrite it"
    );
    assert!(admitted(Some("work"), true).is_ok());
}
