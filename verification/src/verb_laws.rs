//! What holds of the other verbs: a token is registered, slots are renumbered, an account
//! is run or its window opened, and settings are named and shown.

use vstd::prelude::*;

use crate::add::check_capture;
use crate::add_token::{
    admit_token, compose_login, read_token, token_email, token_slot, TokenKind, TokenLogin,
};
use crate::collect::Credential;
use crate::compact::{
    drop_pins, move_slot, rename_pins, renumber, vacated, Compacted, Move, Renumbering,
};
use crate::config::{split_key, view, SettingView};
use crate::contract::{AccountView, UsageStatus, Window, WindowKind};
use crate::errors::{ErrorCode, SwapdError};
use crate::files::{lock_probe, wake_step, LockProbe, WakeAction, WakeEvent};
use crate::history::{read, SwitchRecord};
use crate::ignite::{next_wait, window_seen};
use crate::json::{member, Json};
use crate::list::{drivers_for, status_label, usage_columns};
use crate::notify::masked;
use crate::numfmt::show_whole;
use crate::poll_policy::window_reset;
use crate::settings::{Settings, Spec};
use crate::slots::{by_email, first_with, ProviderSlots, Slot};
use crate::split::{first_at, Sep};
use crate::switch_laws::{is_owner, lemma_first_with};
use crate::table::Table;
use crate::text::{lowercase, number32, opt_text, texts, trimmed};
use crate::unclaimed::{stash_entry, Entry, Manifest};
use crate::verbs::{check_run, check_shadow, exit_code, run_path, spendable, ResetHold, RunPath};

verus! {

/// A token goes to the slot that is asked for. Without one it goes to the least slot that
/// has its address, without regard to case, and where none does to the least that is free.
pub proof fn law_a_token_goes_to_its_account(
    slots: ProviderSlots,
    slot: Option<u32>,
    email: Option<String>,
    r: u32,
    n: u32,
)
    requires
        slots.wf(),
        call_ensures(token_slot, (&slots, slot, &email), r),
    ensures
        slot is Some ==> r == slot->0,
        slot is None && email is Some && slots.slots@.contains_key(n) && lowercase(
            slots.slots@[n].email@,
        ) == lowercase(email->0@) ==> slots.slots@.contains_key(r) && lowercase(
            slots.slots@[r].email@,
        ) == lowercase(email->0@) && r <= n,
        slot is None && slots.slots@.contains_key(r) ==> email is Some && lowercase(
            slots.slots@[r].email@,
        ) == lowercase(email->0@),
        slot is None && !slots.slots@.contains_key(r) ==> r >= 1 && (1 <= n < r
            ==> slots.slots@.contains_key(n)),
{
    if slot is None && email is Some {
        let items = slots.slots.items@;
        let has = by_email(lowercase(email->0@));
        let mut at: int = -1;
        if slots.slots@.contains_key(n) {
            at = slots.slots.lemma_position(n);
        }
        if first_with(items, has) is Some || (0 <= at && has(items[at].1)) {
            let i = lemma_first_with(items, has, at);
            slots.slots.lemma_entry(i);
            if 0 <= at && has(items[at].1) && i < at {
                assert(items[i].0 < items[at].0);
            }
        }
    }
}

/// A token that names no address gets one of its own; one that does keeps it.
pub proof fn law_a_token_keeps_its_address(kind: TokenKind, slot: u32, email: Option<String>, r: String)
    requires
        call_ensures(token_email, (kind, slot, &email), r),
    ensures
        email is Some ==> r@ == email->0@,
        email is None && kind is ApiKey ==> r@ == "api-key"@ + "-"@ + crate::text::decimal(
            slot as nat,
        ) + "@token.local"@,
        email is None && kind is Oauth ==> r@ == "setup-token"@ + "-"@ + crate::text::decimal(
            slot as nat,
        ) + "@token.local"@,
{
}

/// A token is refused where it would go to slot 0, where its address is an account of the
/// other kind, and, unless it is forced, where its slot holds an account with another
/// address. Without an alias these are the only reasons.
pub proof fn law_a_token_replaces_no_other_account(
    slots: ProviderSlots,
    slot: u32,
    email: &str,
    alias: Option<&str>,
    kind: TokenKind,
    owner_kind: Option<TokenKind>,
    force: bool,
    r: Result<(), SwapdError>,
    n: u32,
)
    requires
        slots.wf(),
        call_ensures(admit_token, (&slots, slot, email, alias, kind, owner_kind, force), r),
    ensures
        slot == 0 ==> r is Err,
        slots.slots@.contains_key(n) && lowercase(slots.slots@[n].email@) == lowercase(email@)
            && owner_kind is Some && owner_kind->0 != kind ==> r is Err,
        slots.slots@.contains_key(slot) && lowercase(slots.slots@[slot].email@) != lowercase(
            email@,
        ) && !force ==> r is Err,
        slot > 0 && alias is None && (owner_kind is None || owner_kind->0 == kind) && (force
            || !slots.slots@.contains_key(slot) || lowercase(slots.slots@[slot].email@)
            == lowercase(email@)) ==> r is Ok,
        r is Err ==> r->Err_0.code == ErrorCode::InvalidInput,
{
    if slots.slots@.contains_key(n) && lowercase(slots.slots@[n].email@) == lowercase(email@) {
        let at = slots.slots.lemma_position(n);
        let has = by_email(lowercase(email@));
        let i = lemma_first_with(slots.slots.items@, has, at);
    }
}

/// A token is read without the white space around it; a blank one is refused.
pub proof fn law_a_blank_token_is_refused(raw: &str, email: Option<String>, r: Result<String, SwapdError>)
    requires
        call_ensures(read_token, (raw, &email), r),
    ensures
        trimmed(raw@).len() == 0 ==> r is Err,
        email is None ==> (r is Ok <==> trimmed(raw@).len() > 0),
        r is Ok ==> r->Ok_0@ == trimmed(raw@),
{
}

/// What is stored for a token: a managed key as it is; a setup token under its name, beside
/// the address of the account.
pub proof fn law_a_token_is_stored(kind: TokenKind, token: &str, email: &str, r: TokenLogin)
    requires
        call_ensures(compose_login, (kind, token, email), r),
    ensures
        kind is ApiKey ==> (r matches TokenLogin::Raw(s) && s@ == token@),
        kind is Oauth ==> (r matches TokenLogin::Wrapped(Json::Object(o)) && ({
            &&& o@["claudeAiOauth"@] matches Json::Object(a) && (
            a@["accessToken"@] matches Json::Str(t) && t@ == token@)
            &&& o@["oauthAccount"@] matches Json::Object(b) && (
            b@["emailAddress"@] matches Json::Str(e) && e@ == email@)
        })),
{
}

/// A move puts a row under its new number and leaves the old one empty. No other row changes,
/// the slot keeps its place in the rotation, and the active one stays active.
pub proof fn law_a_move_carries_a_slot(m: Move, n: u32)
    ensures
        forall|s: &mut ProviderSlots|
            s.wf() && s.slots@.contains_key(m.from) && #[trigger] call_ensures(
                move_slot,
                (s, m),
                (),
            ) ==> {
                &&& final(s).slots@.contains_key(m.to) && final(s).slots@[m.to] == s.slots@[m.from]
                &&& m.from != m.to ==> !final(s).slots@.contains_key(m.from)
                &&& n != m.from && n != m.to ==> (final(s).slots@.contains_key(n)
                    <==> s.slots@.contains_key(n))
                &&& n != m.from && n != m.to && s.slots@.contains_key(n) ==> final(s).slots@[n]
                    == s.slots@[n]
                &&& final(s).order@.len() == s.order@.len()
                &&& forall|i: int|
                    0 <= i < s.order@.len() ==> #[trigger] final(s).order@[i] == (if s.order@[i]
                        == m.from {
                        m.to
                    } else {
                        s.order@[i]
                    })
                &&& s.active_slot == Some(m.from) ==> final(s).active_slot == Some(m.to)
                &&& s.active_slot != Some(m.from) ==> final(s).active_slot == s.active_slot
            },
{
}

/// A number is vacated by moves exactly where one goes out of it and none into it.
pub proof fn law_what_moves_vacate(moves: Vec<Move>, r: Vec<u32>, n: u32)
    requires
        call_ensures(vacated, (&moves,), r),
    ensures
        r@.contains(n) <==> (exists|i: int| 0 <= i < moves@.len() && (#[trigger] moves@[i]).from
            == n) && (forall|i: int| 0 <= i < moves@.len() ==> (#[trigger] moves@[i]).to != n),
{
    lemma_vacated(moves@, moves@, n);
}

proof fn lemma_vacated(moves: Seq<Move>, all: Seq<Move>, n: u32)
    ensures
        crate::compact::vacated_by(moves, all).contains(n) <==> (exists|i: int|
            0 <= i < moves.len() && (#[trigger] moves[i]).from == n) && (forall|i: int|
            0 <= i < all.len() ==> (#[trigger] all[i]).to != n),
    decreases moves.len(),
{
    let out = crate::compact::vacated_by(moves, all);
    if moves.len() > 0 {
        let rest = moves.drop_last();
        let before = crate::compact::vacated_by(rest, all);
        lemma_vacated(rest, all, n);
        assert forall|i: int| 0 <= i < rest.len() implies #[trigger] rest[i] == moves[i] by {}
        if before.contains(n) {
            let k = choose|k: int| 0 <= k < before.len() && before[k] == n;
            assert(out[k] == n);
            let i = choose|i: int| 0 <= i < rest.len() && (#[trigger] rest[i]).from == n;
            assert(moves[i].from == n);
        }
        if out.contains(n) && !before.contains(n) {
            let k = choose|k: int| 0 <= k < out.len() && out[k] == n;
            if k < before.len() {
                assert(before[k] == n);
            }
            assert(moves[moves.len() - 1].from == n);
        }
        if (exists|i: int| 0 <= i < moves.len() && (#[trigger] moves[i]).from == n) && (forall|
            i: int,
        |
            0 <= i < all.len() ==> (#[trigger] all[i]).to != n) {
            let i = choose|i: int| 0 <= i < moves.len() && (#[trigger] moves[i]).from == n;
            if i < rest.len() {
                assert(rest[i].from == n);
            } else {
                assert(out[before.len() as int] == n);
            }
        }
    }
}

/// A number follows the move out of it; one that nothing moves out of stays.
pub proof fn law_a_number_follows_its_move(moves: Vec<Move>, n: u32, r: u32, i: int)
    requires
        call_ensures(renumber, (&moves, n), r),
    ensures
        0 <= i < moves@.len() && moves@[i].from == n && (forall|j: int|
            0 <= j < i ==> (#[trigger] moves@[j]).from != n) ==> r == moves@[i].to,
        (forall|j: int| 0 <= j < moves@.len() ==> (#[trigger] moves@[j]).from != n) ==> r == n,
{
    lemma_renumbered(moves@, n, i);
}

proof fn lemma_renumbered(moves: Seq<Move>, n: u32, i: int)
    ensures
        0 <= i < moves.len() && moves[i].from == n && (forall|j: int|
            0 <= j < i ==> (#[trigger] moves[j]).from != n) ==> crate::compact::renumbered(moves, n)
            == moves[i].to,
        (forall|j: int| 0 <= j < moves.len() ==> (#[trigger] moves[j]).from != n)
            ==> crate::compact::renumbered(moves, n) == n,
    decreases moves.len(),
{
    if moves.len() > 0 {
        let rest = moves.drop_first();
        lemma_renumbered(rest, n, i - 1);
        assert forall|j: int| 0 <= j < rest.len() implies #[trigger] rest[j] == moves[j + 1] by {}
        if i > 0 && forall|j: int| 0 <= j < i ==> (#[trigger] moves[j]).from != n {
            assert(moves[0].from != n);
            assert forall|j: int| 0 <= j < i - 1 && j < rest.len() implies (#[trigger] rest[j]).from
                != n by {
                assert(moves[j + 1].from != n);
            }
        }
        if forall|j: int| 0 <= j < moves.len() ==> (#[trigger] moves[j]).from != n {
            assert(moves[0].from != n);
            assert forall|j: int| 0 <= j < rest.len() implies (#[trigger] rest[j]).from != n by {
                assert(moves[j + 1].from != n);
            }
        }
    }
}

/// A preferred name that is no number of a slot that moved stays as it is, and each keeps
/// its place.
pub proof fn law_a_preferred_name_stays(moves: Vec<Move>, names: Vec<String>, r: Vec<String>, i: int)
    requires
        call_ensures(rename_pins, (&moves, &names), r),
        0 <= i < names@.len(),
    ensures
        r@.len() == names@.len(),
        number32(names@[i]@) is None ==> r@[i]@ == names@[i]@,
        number32(names@[i]@) matches Some(n) ==> (forall|j: int|
            0 <= j < moves@.len() && (#[trigger] moves@[j]).from == n && (forall|k: int|
                0 <= k < j ==> (#[trigger] moves@[k]).from != n) ==> r@[i]@ == crate::text::decimal(
                moves@[j].to as nat,
            )),
{
    let before = texts(names@);
    let after = texts(r@);
    assert(after.len() == r@.len() && before.len() == names@.len());
    assert(after[i] == r@[i]@ && before[i] == names@[i]@);
    assert(after[i] == crate::compact::renamed_pin(moves@, before[i]));
    if let Some(n) = number32(names@[i]@) {
        assert forall|j: int|
            0 <= j < moves@.len() && (#[trigger] moves@[j]).from == n && (forall|k: int|
                0 <= k < j ==> (#[trigger] moves@[k]).from != n) implies r@[i]@
            == crate::text::decimal(moves@[j].to as nat) by {
            lemma_renumbered(moves@, n, j);
        }
    }
}

/// Where a slot is removed, the preferred names that are its number go, and no others do.
pub proof fn law_a_removed_slot_is_not_preferred(names: Vec<String>, n: u32, r: Vec<String>, t: Seq<char>)
    requires
        call_ensures(drop_pins, (&names, n), r),
    ensures
        texts(r@).contains(t) <==> texts(names@).contains(t) && number32(t) != Some(n),
{
    lemma_unpinned(texts(names@), n, t);
}

proof fn lemma_unpinned(names: Seq<Seq<char>>, n: u32, t: Seq<char>)
    ensures
        crate::compact::unpinned(names, n).contains(t) <==> names.contains(t) && number32(t)
            != Some(n),
    decreases names.len(),
{
    if names.len() > 0 {
        let rest = names.drop_last();
        let out = crate::compact::unpinned(names, n);
        let before = crate::compact::unpinned(rest, n);
        lemma_unpinned(rest, n, t);
        if before.contains(t) {
            let k = choose|k: int| 0 <= k < before.len() && before[k] == t;
            assert(out[k] == t);
        }
        if rest.contains(t) {
            let k = choose|k: int| 0 <= k < rest.len() && rest[k] == t;
            assert(names[k] == t);
        }
        if names.contains(t) && !rest.contains(t) {
            let k = choose|k: int| 0 <= k < names.len() && names[k] == t;
            if k < rest.len() {
                assert(rest[k] == t);
            }
            assert(names.last() == t);
            if number32(t) != Some(n) {
                assert(out[before.len() as int] == t);
            }
        }
        if out.contains(t) && !before.contains(t) {
            let k = choose|k: int| 0 <= k < out.len() && out[k] == t;
            if k < before.len() {
                assert(before[k] == t);
            }
            assert(names[names.len() - 1] == t);
        }
    }
}

/// Whether an account is the first of its slot with a current measurement.
pub open spec fn is_current(accounts: Seq<AccountView>, slot: u32, i: int) -> bool {
    &&& 0 <= i < accounts.len()
    &&& accounts[i].slot == slot && accounts[i].usage_status is Okay
    &&& forall|k: int|
        0 <= k < i ==> !((#[trigger] accounts[k]).slot == slot && accounts[k].usage_status is Okay)
}

/// Whether a window is the first one of five hours.
pub open spec fn is_short(windows: Seq<Window>, j: int) -> bool {
    &&& 0 <= j < windows.len()
    &&& windows[j].kind is FiveHour
    &&& forall|k: int| 0 <= k < j ==> !((#[trigger] windows[k]).kind is FiveHour)
}

/// A window is seen exactly where the slot's current measurement shows a five-hour window
/// that resets later than now. Where the slot has no current measurement, or that shows no
/// five-hour window, there is nothing to wait for.
pub proof fn law_a_window_is_seen_while_it_runs(
    accounts: Vec<AccountView>,
    slot: u32,
    now: i64,
    r: Option<bool>,
    i: int,
    j: int,
)
    requires
        call_ensures(window_seen, (&accounts, slot, now), r),
    ensures
        is_current(accounts@, slot, i) && is_short(accounts@[i].windows@, j) ==> r == Some(
            window_reset(accounts@[i].windows@[j]) is Some && window_reset(
                accounts@[i].windows@[j],
            )->0 > now,
        ),
        is_current(accounts@, slot, i) && (forall|k: int|
            0 <= k < accounts@[i].windows@.len() ==> !((#[trigger] accounts@[i].windows@[k]).kind is FiveHour))
            ==> r is None,
        (forall|k: int|
            0 <= k < accounts@.len() ==> !((#[trigger] accounts@[k]).slot == slot
                && accounts@[k].usage_status is Okay)) ==> r is None,
{
    lemma_current_on(accounts@, slot, i);
    if is_current(accounts@, slot, i) {
        lemma_five_hour(accounts@[i].windows@, j);
    }
}

proof fn lemma_current_on(accounts: Seq<AccountView>, slot: u32, i: int)
    ensures
        is_current(accounts, slot, i) ==> crate::ignite::current_on(accounts, slot) == Some(
            accounts[i],
        ),
        (forall|k: int|
            0 <= k < accounts.len() ==> !((#[trigger] accounts[k]).slot == slot
                && accounts[k].usage_status is Okay)) ==> crate::ignite::current_on(accounts, slot)
            is None,
    decreases accounts.len(),
{
    if accounts.len() > 0 {
        let rest = accounts.drop_first();
        lemma_current_on(rest, slot, i - 1);
        assert forall|k: int| 0 <= k < rest.len() implies #[trigger] rest[k] == accounts[k + 1] by {
        }
        if is_current(accounts, slot, i) && i > 0 {
            assert(!(accounts[0].slot == slot && accounts[0].usage_status is Okay));
            assert forall|k: int| 0 <= k < i - 1 implies !((#[trigger] rest[k]).slot == slot
                && rest[k].usage_status is Okay) by {
                assert(rest[k] == accounts[k + 1]);
            }
            assert(is_current(rest, slot, i - 1));
        }
        if forall|k: int|
            0 <= k < accounts.len() ==> !((#[trigger] accounts[k]).slot == slot
                && accounts[k].usage_status is Okay) {
            assert(!(accounts[0].slot == slot && accounts[0].usage_status is Okay));
            assert forall|k: int| 0 <= k < rest.len() implies !((#[trigger] rest[k]).slot == slot
                && rest[k].usage_status is Okay) by {
                assert(rest[k] == accounts[k + 1]);
            }
        }
    }
}

proof fn lemma_five_hour(windows: Seq<Window>, j: int)
    ensures
        is_short(windows, j) ==> crate::ignite::five_hour(windows) == Some(windows[j]),
        (forall|k: int| 0 <= k < windows.len() ==> !((#[trigger] windows[k]).kind is FiveHour))
            ==> crate::ignite::five_hour(windows) is None,
    decreases windows.len(),
{
    if windows.len() > 0 {
        let rest = windows.drop_first();
        lemma_five_hour(rest, j - 1);
        assert forall|k: int| 0 <= k < rest.len() implies #[trigger] rest[k] == windows[k + 1] by {}
        if is_short(windows, j) && j > 0 {
            assert(!(windows[0].kind is FiveHour));
            assert forall|k: int| 0 <= k < j - 1 implies !((#[trigger] rest[k]).kind is FiveHour) by {
                assert(rest[k] == windows[k + 1]);
            }
            assert(is_short(rest, j - 1));
        }
        if forall|k: int| 0 <= k < windows.len() ==> !((#[trigger] windows[k]).kind is FiveHour) {
            assert(!(windows[0].kind is FiveHour));
            assert forall|k: int| 0 <= k < rest.len() implies !((#[trigger] rest[k]).kind is FiveHour) by {
                assert(rest[k] == windows[k + 1]);
            }
        }
    }
}

/// The window is waited for only while it is looked for and not seen, four times at the
/// most, and each wait is about twice as long as the one before: 3, 7, 15 and 30 seconds.
pub proof fn law_how_long_a_window_is_waited_for(seen: Option<bool>, tried: usize, r: Option<u64>)
    requires
        call_ensures(next_wait, (seen, tried), r),
    ensures
        r is Some <==> seen == Some(false) && tried < 4,
        r is Some ==> r->0 == (if tried == 0 {
            3u64
        } else if tried == 1 {
            7u64
        } else if tried == 2 {
            15u64
        } else {
            30u64
        }),
{
}

/// A setting is named by its provider, a dot and its key. The name is accepted only where
/// the provider is a registered one and the key is known.
pub proof fn law_a_setting_is_named_by_provider_and_key(
    key: &str,
    registry: Vec<String>,
    r: Result<(String, Spec), SwapdError>,
)
    requires
        call_ensures(split_key, (key, &registry), r),
    ensures
        r is Ok ==> texts(registry@).contains(r.unwrap().0@),
        r is Ok ==> key@ == r.unwrap().0@ + seq!['.'] + r.unwrap().1.key@,
        r is Ok ==> r.unwrap().1.wf(),
        r is Err ==> r->Err_0.code == ErrorCode::InvalidInput,
{
    if r is Ok {
        lemma_first_at(key@, Sep::Is('.'));
        let i = first_at(key@, Sep::Is('.'))->0;
        assert(key@ =~= key@.take(i) + seq!['.'] + key@.skip(i + 1));
    }
}

proof fn lemma_first_at(s: Seq<char>, sep: Sep)
    ensures
        first_at(s, sep) matches Some(i) ==> 0 <= i < s.len() && sep.at(s[i]),
    decreases s.len(),
{
    if s.len() > 0 {
        lemma_first_at(s.drop_last(), sep);
    }
}

/// What is shown of a setting: its full name, whether the file names it, and its value. One
/// that the file does not name shows its default.
pub proof fn law_a_setting_is_shown(
    provider: &str,
    key: Spec,
    effective: Settings,
    section: Option<&Table<Json>>,
    v: SettingView,
)
    requires
        key.wf(),
        call_ensures(view, (provider, &key, &effective, section), v),
    ensures
        v.key@ == provider@ + "."@ + key.key@,
        v.is_set <==> section is Some && member(section->0.items@, key.key@) is Some,
        key.id is Enabled ==> v.default == Json::Bool(true),
        key.id is Threshold ==> v.default == Json::Micro(90_000_000),
        key.id is IntervalSeconds ==> v.default == Json::Micro(60_000_000),
        key.id is CooldownSeconds ==> v.default == Json::Micro(300_000_000),
        key.id is HysteresisPct ==> v.default == Json::Micro(10_000_000),
        key.id is IncludeApiKeyAccounts ==> v.default == Json::Bool(false),
        key.id is UnhealthyTicks ==> v.default == Json::Int(3),
        (key.id is Enabled || key.id is Threshold || key.id is IntervalSeconds
            || key.id is CooldownSeconds || key.id is HysteresisPct
            || key.id is IncludeApiKeyAccounts || key.id is UnhealthyTicks) && !v.is_set ==> v.value
            == v.default,
{
}

/// The entry of a login that is put by says whose it is, where it comes from, and when it was
/// put by, in whole seconds.
pub proof fn law_a_login_that_is_put_by_is_described(
    provider: &str,
    now: i64,
    email: &str,
    fingerprint: &str,
    r: (String, Entry),
)
    requires
        call_ensures(stash_entry, (provider, now, email, fingerprint), r),
    ensures
        r.1.provider@ == provider@,
        r.1.email@ == email@,
        r.1.fingerprint@ == fingerprint@,
        now >= 0 ==> r.1.stashed_at == now / 1_000_000,
{
}

/// An account is run directly only where no directory is set, and the live login is one that
/// is not blank and belongs to the slot: by its account, or by its fingerprint.
pub proof fn law_an_account_is_run_directly_as_itself(
    slots: ProviderSlots,
    slot: u32,
    dir: Option<&str>,
    live: Option<Credential>,
    r: RunPath,
)
    requires
        slots.wf(),
        call_ensures(run_path, (&slots, slot, dir, &live), r),
    ensures
        r is ProfileOverAmbient <==> dir is Some && dir->0@.len() > 0,
        r is Direct ==> live is Some && trimmed(live->0.bytes@).len() > 0
            && slots.slots@.contains_key(slot) && ((live->0.identity is Some && is_owner(
            slots.slots@[slot],
            live->0.identity->0,
        )) || opt_text(slots.slots@[slot].fingerprint) == Some(live->0.fingerprint@)),
        live is None ==> !(r is Direct),
{
    if r is Direct {
        let l = live->0;
        let items = slots.slots.items@;
        let by_fp = crate::switch::by_print(l.fingerprint@);
        if l.identity is Some {
            let own = crate::switch::by_owner(l.identity->0);
            if first_with(items, own) is Some {
                let i = lemma_first_with(items, own, -1);
                slots.slots.lemma_entry(i);
            }
        }
        if first_with(items, by_fp) is Some {
            let i = lemma_first_with(items, by_fp, -1);
            slots.slots.lemma_entry(i);
        }
    }
}

/// The exit code of a process is its own; of one that a signal ended it is 128 more than the
/// signal.
pub proof fn law_the_exit_code_of_a_process(code: Option<i32>, signal: Option<i32>, r: i32)
    requires
        signal is Some ==> signal->0 <= 0x7fff_ff7f,
        call_ensures(exit_code, (code, signal), r),
    ensures
        code is Some ==> r == code->0,
        code is None && signal is Some ==> r - 128 == signal->0,
        code is None && signal is None ==> r == 1,
{
}

/// A banked reset is spent only where nothing holds it, and then by its own grant.
pub proof fn law_a_held_reset_is_not_spent(
    slot: u32,
    bank: Option<(Option<ResetHold>, Option<String>)>,
    r: Result<String, SwapdError>,
)
    requires
        bank is Some ==> bank.unwrap().0 is Some || bank.unwrap().1 is Some,
        call_ensures(spendable, (slot, bank), r),
    ensures
        r is Ok <==> bank is Some && bank.unwrap().0 is None,
        r is Ok ==> r->Ok_0@ == bank.unwrap().1->0@,
{
}

/// In shadow the verbs that spend a token or replace the live login are refused, and no
/// others; without it none is.
pub proof fn law_shadow_refuses_what_takes_over(verb: &str, shadow: bool, r: Result<(), SwapdError>)
    requires
        call_ensures(check_shadow, (verb, shadow), r),
    ensures
        !shadow ==> r is Ok,
        shadow && (verb@ == "switch"@ || verb@ == "auto"@ || verb@ == "ignite"@ || verb@ == "run"@
            || verb@ == "rotate"@) ==> r is Err,
        r is Err ==> verb@ == "switch"@ || verb@ == "auto"@ || verb@ == "ignite"@ || verb@ == "run"@
            || verb@ == "rotate"@,
{
}

/// The word for each status.
pub proof fn law_a_status_has_its_word(status: UsageStatus, r: &'static str)
    requires
        call_ensures(status_label, (status,), r),
    ensures
        status is Okay ==> r@ == "ok"@,
        status is Stale ==> r@ == "stale"@,
        status is ReloginRequired ==> r@ == "relogin-required"@,
        status is TokenExpired ==> r@ == "token-expired"@,
        status is NoCredentials ==> r@ == "no-credentials"@,
        status is ApiKey ==> r@ == "api-key"@,
        status is Unsupported ==> r@ == "unsupported"@,
{
}

/// Which providers are listed: all of them where none is named, else the one, where it is
/// registered.
pub proof fn law_which_providers_are_listed(
    filter: Option<&str>,
    registry: Vec<String>,
    r: Result<Vec<String>, SwapdError>,
    i: int,
)
    requires
        call_ensures(drivers_for, (filter, &registry), r),
    ensures
        filter is None ==> r is Ok && r->Ok_0@ == registry@,
        filter is Some ==> (r is Ok <==> texts(registry@).contains(filter->0@)),
        filter is Some && r is Ok ==> r->Ok_0@.len() > 0,
        filter is Some && r is Ok && 0 <= i < r->Ok_0@.len() ==> r->Ok_0@[i]@ == filter->0@,
{
    if filter is Some && r is Ok && 0 <= i < r->Ok_0@.len() {
        lemma_named(texts(registry@), filter->0@, i);
        assert(texts(r->Ok_0@)[i] == r->Ok_0@[i]@);
    }
}

proof fn lemma_named(list: Seq<Seq<char>>, id: Seq<char>, i: int)
    requires
        0 <= i < crate::list::named(list, id).len(),
    ensures
        crate::list::named(list, id)[i] == id,
    decreases list.len(),
{
    if list.len() > 0 {
        let rest = crate::list::named(list.drop_last(), id);
        if i < rest.len() {
            lemma_named(list.drop_last(), id, i);
        }
    }
}

/// A log that is limited is the end of the whole one, in the order in which it was written.
pub proof fn law_the_log_ends_with_the_newest(
    records: Vec<SwitchRecord>,
    limit: Option<usize>,
    r: Vec<SwitchRecord>,
    i: int,
)
    requires
        call_ensures(read, (&records, limit), r),
    ensures
        limit is None ==> r@ == records@,
        limit is Some ==> r@.len() == (if records@.len() < limit->0 {
            records@.len() as int
        } else {
            limit->0 as int
        }),
        0 <= i < r@.len() ==> r@[i] == records@[records@.len() - r@.len() + i],
{
}

/// What is shown of a secret ends with its last characters, four at the most; nothing is
/// shown of a blank one.
pub proof fn law_a_secret_is_masked(secret: &str, r: Option<String>)
    requires
        call_ensures(masked, (secret,), r),
    ensures
        r is Some <==> trimmed(secret@).len() > 0,
        r is Some && trimmed(secret@).len() > 4 ==> ({
            let s = trimmed(secret@);
            let shown = r->0@;
            &&& shown.len() > 4
            &&& shown.skip(shown.len() - 4) == s.skip(s.len() - 4)
            &&& shown[shown.len() - 5] == '…'
        }),
{
    if r is Some && trimmed(secret@).len() > 4 {
        reveal_strlit("…");
        let s = trimmed(secret@);
        let shown = r->0@;
        let tail = s.skip(s.len() - 4);
        assert(opt_text(r) == Some(shown));
        assert(crate::notify::last_four(s) == tail);
        assert("…"@.len() == 1 && "…"@[0] == '…');
        assert(shown.skip(shown.len() - 4) =~= tail);
    }
}

/// An account that is put into a slot stands there, and no other slot changes. A slot that
/// the rotation does not name comes last in it.
pub proof fn law_a_new_slot_comes_last(n: u32, slot: Slot, k: u32)
    ensures
        forall|s: &mut ProviderSlots, r: ()|
            s.wf() && #[trigger] call_ensures(ProviderSlots::insert, (s, n, slot), r) ==> {
                &&& final(s).slots@.contains_key(n) && final(s).slots@[n] == slot
                &&& k != n ==> (final(s).slots@.contains_key(k) <==> s.slots@.contains_key(k))
                &&& k != n && s.slots@.contains_key(k) ==> final(s).slots@[k] == s.slots@[k]
                &&& s.order@.contains(n) ==> final(s).order@ == s.order@
                &&& !s.order@.contains(n) ==> final(s).order@ == s.order@ + seq![n]
                &&& final(s).active_slot == s.active_slot
            },
{
}

/// A slot that is taken away is gone, out of the rotation too, and is not active any more;
/// no other slot changes, nor its place before or behind another.
pub proof fn law_a_slot_that_is_taken_away_is_gone(n: u32, k: u32)
    ensures
        forall|s: &mut ProviderSlots, r: ()|
            s.wf() && #[trigger] call_ensures(ProviderSlots::remove, (s, n), r) ==> {
                &&& !final(s).slots@.contains_key(n) && !final(s).order@.contains(n)
                &&& k != n ==> (final(s).slots@.contains_key(k) <==> s.slots@.contains_key(k))
                &&& k != n && s.slots@.contains_key(k) ==> final(s).slots@[k] == s.slots@[k]
                &&& k != n ==> (final(s).order@.contains(k) <==> s.order@.contains(k))
                &&& s.active_slot == Some(n) ==> final(s).active_slot is None
                &&& s.active_slot != Some(n) ==> final(s).active_slot == s.active_slot
            },
{
    assert forall|s: &mut ProviderSlots, r: ()|
        s.wf() && #[trigger] call_ensures(ProviderSlots::remove, (s, n), r) implies
        !final(s).order@.contains(n) && (k != n ==> (final(s).order@.contains(k)
        <==> s.order@.contains(k))) by {
        lemma_without(s.order@, n, k);
        lemma_without(s.order@, n, n);
    }
}

proof fn lemma_without(order: Seq<u32>, n: u32, k: u32)
    ensures
        crate::slots::without(order, n).contains(k) <==> order.contains(k) && k != n,
    decreases order.len(),
{
    if order.len() > 0 {
        let short = order.drop_last();
        let rest = crate::slots::without(short, n);
        let out = crate::slots::without(order, n);
        lemma_without(short, n, k);
        if rest.contains(k) {
            let j = choose|j: int| 0 <= j < rest.len() && rest[j] == k;
            assert(out[j] == k);
        }
        if short.contains(k) {
            let j = choose|j: int| 0 <= j < short.len() && short[j] == k;
            assert(order[j] == k);
        }
        if order.contains(k) && !short.contains(k) {
            let j = choose|j: int| 0 <= j < order.len() && order[j] == k;
            if j < short.len() {
                assert(short[j] == k);
            }
            assert(order.last() == k);
            if k != n {
                assert(out[rest.len() as int] == k);
            }
        }
        if out.contains(k) && !rest.contains(k) {
            let j = choose|j: int| 0 <= j < out.len() && out[j] == k;
            if j < rest.len() {
                assert(rest[j] == k);
            }
            assert(order[order.len() - 1] == k);
        }
    }
}

/// A renumbering makes its moves in turn, and stops where it is told: what it has made then
/// stands, and the slot of the next move is the one that kept its number.
pub proof fn law_a_renumbering_stops_where_it_is_told(reason: String)
    ensures
        forall|g: &mut Renumbering, r: ()|
            g.wf() && g.at < g.plan@.len() && #[trigger] call_ensures(
                Renumbering::stop,
                (g, reason),
                r,
            ) ==> {
                &&& final(g).at == g.at && final(g).plan == g.plan
                &&& final(g).stopped_at is Some && final(g).stopped_at->0.slot
                    == g.plan@[g.at as int].from && final(g).stopped_at->0.reason == reason
            },
{
}

/// What a renumbering reports are the moves that it made, the first ones of its plan.
pub proof fn law_a_renumbering_reports_what_it_made(g: Renumbering, r: Compacted, i: int)
    requires
        g.wf(),
        call_ensures(Renumbering::finish, (g,), r),
    ensures
        r.moves@.len() == g.at,
        0 <= i < g.at ==> r.moves@[i] == g.plan@[i],
        r.stopped_at == g.stopped_at,
{
}

/// An entry that is recorded is there, and one that is purged is gone; neither touches
/// another. What is not there cannot be purged.
pub proof fn law_an_entry_is_recorded_and_purged(id: String, entry: Entry, key: &str, k: Seq<char>)
    ensures
        forall|m: &mut Manifest, r: ()|
            m.wf() && #[trigger] call_ensures(Manifest::record, (m, id, entry), r) ==> {
                &&& final(m).entries@.contains_key(id@) && final(m).entries@[id@] == entry
                &&& k != id@ ==> (final(m).entries@.contains_key(k) <==> m.entries@.contains_key(k))
            },
        forall|m: &mut Manifest, r: Result<Entry, SwapdError>|
            m.wf() && #[trigger] call_ensures(Manifest::purge, (m, key), r) ==> {
                &&& r is Ok <==> m.entries@.contains_key(key@)
                &&& r is Ok ==> r->Ok_0 == m.entries@[key@]
                &&& !final(m).entries@.contains_key(key@)
                &&& k != key@ ==> (final(m).entries@.contains_key(k) <==> m.entries@.contains_key(
                    k,
                ))
            },
{
}

/// An account can be run where its provider can and is installed, and it holds no managed
/// key.
pub proof fn law_which_account_can_be_run(
    provider: &str,
    slot: u32,
    can_run: bool,
    installed: bool,
    api_key: bool,
    r: Result<(), SwapdError>,
)
    requires
        call_ensures(check_run, (provider, slot, can_run, installed, api_key), r),
    ensures
        r is Ok <==> can_run && installed && !api_key,
        can_run && !installed ==> r is Err && r->Err_0.code == ErrorCode::ProviderNotInstalled,
        !can_run ==> r is Err && r->Err_0.code == ErrorCode::Unsupported,
{
}

/// However many calls wait, they are taken off first, and then there is one tick; a time
/// that is up is a tick, and where nobody can call any more the loop ends.
pub proof fn law_calls_are_taken_off_before_a_tick(event: WakeEvent, r: WakeAction)
    requires
        call_ensures(wake_step, (event,), r),
    ensures
        event is Woken ==> r is Drain,
        event is Empty || event is TimedOut ==> r is Tick,
        event is Gone ==> r is Stop,
{
}

/// A lock is held only where that was seen; its note is what its file holds, unless that is
/// blank.
pub proof fn law_what_is_seen_of_a_lock(held: Option<bool>, content: Option<&str>, r: LockProbe)
    requires
        call_ensures(lock_probe, (held, content), r),
    ensures
        r.held <==> held == Some(true),
        held is None ==> r.note is None,
        held is Some && content is Some && trimmed(content->0@).len() > 0 ==> r.note is Some
            && r.note->0@ == trimmed(content->0@),
        r.note is Some ==> r.note->0@.len() > 0,
{
}

/// A login is captured unless it is blank, missing, or a managed key.
pub proof fn law_which_login_is_captured(
    provider: &str,
    bytes: Option<&str>,
    r: Result<(), SwapdError>,
)
    requires
        call_ensures(check_capture, (provider, bytes), r),
    ensures
        bytes is None ==> r is Err,
        bytes is Some && trimmed(bytes->0@).len() == 0 ==> r is Err,
        bytes is Some && trimmed(bytes->0@).len() >= 10 && trimmed(bytes->0@).take(10)
            == "sk-ant-api"@ ==> r is Err,
        bytes is Some && trimmed(bytes->0@).len() > 0 && trimmed(bytes->0@)[0] != 's' ==> r is Ok,
{
    reveal_strlit("sk-ant-api");
    assert("sk-ant-api"@.len() == 10 && "sk-ant-api"@[0] == 's');
}

/// Whether a window is the first of a kind.
pub open spec fn is_first_of(windows: Seq<Window>, kind: WindowKind, i: int) -> bool {
    &&& 0 <= i < windows.len()
    &&& windows[i].kind == kind
    &&& forall|k: int| 0 <= k < i ==> (#[trigger] windows[k]).kind != kind
}

/// A row of the board shows how much is used of the five-hour window, and then of the
/// seven-day one, each to the nearest percent.
pub proof fn law_a_row_shows_both_windows(
    a: AccountView,
    i: int,
    j: int,
    five: String,
    seven: String,
    r: String,
)
    requires
        call_ensures(usage_columns, (&a,), r),
        is_first_of(a.windows@, WindowKind::FiveHour, i),
        is_first_of(a.windows@, WindowKind::SevenDay, j),
        call_ensures(show_whole, (a.windows@[i].pct as i128, 1_000_000), five),
        call_ensures(show_whole, (a.windows@[j].pct as i128, 1_000_000), seven),
    ensures
        r@ == five@ + "%"@ + " / "@ + (seven@ + "%"@),
{
    lemma_pct_column(a.windows@, WindowKind::FiveHour, i);
    lemma_pct_column(a.windows@, WindowKind::SevenDay, j);
    assert(crate::gating::has_account_wide(a.windows@)) by {
        assert(crate::gating::account_wide(a.windows@[i]));
    }
}

proof fn lemma_pct_column(windows: Seq<Window>, kind: WindowKind, i: int)
    requires
        is_first_of(windows, kind, i),
    ensures
        crate::list::pct_column(windows, kind) == crate::numfmt::whole_text(
            windows[i].pct as int,
            1_000_000,
        ) + "%"@,
    decreases windows.len(),
{
    if i > 0 {
        let rest = windows.drop_first();
        assert(windows[0].kind != kind);
        assert forall|k: int| 0 <= k < i - 1 implies (#[trigger] rest[k]).kind != kind by {
            assert(rest[k] == windows[k + 1]);
        }
        lemma_pct_column(rest, kind, i - 1);
    }
}

} // verus!
