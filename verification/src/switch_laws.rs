//! What holds of a switch and of a fetch, step by step: what is renewed, what is kept, and
//! what counts as landed.

use vstd::prelude::*;

use crate::collect::{live_for_pass, Credential, Identity, Stored};
use crate::contract::{AccountView, UsageStatus};
use crate::errors::SwapdError;
use crate::fetch::{
    fetch_step, first_step, fits, goes_live, DriverError, FetchEvent, FetchNext, FetchStep, Record,
};
use crate::history::{SlotRef, SwitchRecord};
use crate::refresh::{refresh_opts, refresh_slot, skipped_reason, Refreshed, Skipped};
use crate::slots::{first_with, ProviderSlots, Slot};
use crate::switch::{
    by_owner, by_print, match_slot, read_live_for_switch, Freshen, SwitchResult,
};
use crate::switch_flow::{can_follow, SwitchEvent, SwitchFlow, SwitchNext};
use crate::switch_perform::{
    already_active, check_target, needs_renewal, preserve_outgoing, switch_record, Keep, Outgoing,
    Renewal,
};
use crate::text::{lowercase, opt_text, trimmed};

verus! {

/// How a fetch takes its course. What is measured is a success. A login that has to be
/// renewed is, once, unless the live store cannot be read or another tool owns the logins;
/// what is renewed is stored before it is used. A refusal carries the delay that was asked
/// for. Nothing but a rejected refresh token condemns a login, and a renewal that another
/// process is making is no failure at all.
pub proof fn law_a_fetch_takes_its_course(
    step: FetchStep,
    event: FetchEvent,
    active: bool,
    keychain_down: bool,
    shadow: bool,
    r: FetchNext,
)
    requires
        fits(step, event),
        call_ensures(fetch_step, (step, &event, active, keychain_down, shadow), r),
    ensures
        event is Measured ==> r == FetchNext::Done(Record::Success, None),
        r matches FetchNext::Done(record, _) && record is Success ==> event is Measured,
        event == FetchEvent::Failed(DriverError::NeedsRefresh) && step is Ask && !keychain_down
            && !shadow ==> r == FetchNext::Go(FetchStep::Renew),
        r == FetchNext::Go(FetchStep::Renew) ==> event == FetchEvent::Failed(
            DriverError::NeedsRefresh,
        ) && step is Ask && !keychain_down && !shadow,
        event is Renewed ==> r == FetchNext::Go(FetchStep::Persist),
        r == FetchNext::Go(FetchStep::AskAgain) ==> step is Persist && event
            == FetchEvent::Written(true),
        step is Persist && event == FetchEvent::Written(true) ==> r == FetchNext::Go(
            FetchStep::AskAgain,
        ),
        step is Heal && event == FetchEvent::Written(true) ==> r == FetchNext::Go(FetchStep::Ask),
        event == FetchEvent::Written(false) ==> (r matches FetchNext::Done(record, mark) && mark
            == Some(UsageStatus::TokenExpired) && (record matches Record::Failure { strike, .. }
            && !strike)),
        event is Failed && event->Failed_0 is Throttled ==> ((r matches FetchNext::Done(record, mark)
            && mark is None && (record matches Record::Failure { kind, retry_after, strike }
            && kind@ == "http-429"@ && retry_after == event->Failed_0->retry_after && !strike))),
        event is RenewDead ==> (r matches FetchNext::Done(record, mark) && mark == Some(
            UsageStatus::ReloginRequired,
        ) && (record matches Record::Failure { kind, strike, .. } && strike && kind@
            == "invalid_grant"@)),
        r matches FetchNext::Done(record, mark) && (mark == Some(UsageStatus::ReloginRequired) || (
        record matches Record::Failure { strike, .. } && strike)) ==> event is RenewDead,
        event is RenewContended ==> r == FetchNext::Done(
            Record::Release,
            Some(UsageStatus::Stale),
        ),
        r matches FetchNext::Done(record, _) && record is Release ==> event is RenewContended,
{
}

/// An older live login is healed before it is used, and only then; not while another tool
/// owns the logins.
pub proof fn law_only_an_older_login_is_healed(heal_live: bool, shadow: bool, r: FetchStep)
    requires
        call_ensures(first_step, (heal_live, shadow), r),
    ensures
        r is Heal <==> heal_live && !shadow,
        r is Heal || r is Ask,
{
}

/// A renewed login is written live only for the active slot, and only where the live store
/// still holds the login that it succeeds.
pub proof fn law_a_renewed_login_goes_live_in_its_place(
    active: bool,
    live: Option<Credential>,
    used: Credential,
    r: bool,
)
    requires
        call_ensures(goes_live, (active, &live, &used), r),
    ensures
        r ==> active,
        r ==> live is Some && live->0.fingerprint@ == used.fingerprint@,
        active && live is Some && live->0.fingerprint@ == used.fingerprint@ ==> r,
{
}

/// A login that another has renewed meanwhile is taken over, and its token is not spent
/// again: wherever something else that is not blank is stored for it.
pub proof fn law_a_renewed_login_is_taken_over(
    stored: Stored,
    login: Credential,
    renewed: Result<Credential, DriverError>,
    r: Refreshed,
)
    requires
        call_ensures(refresh_slot, (&stored, &login, renewed), r),
    ensures
        ({
            let moved_on = stored.login is Some && trimmed(stored.login->0.bytes@).len() > 0
                && stored.login->0.fingerprint@ != login.fingerprint@;
            &&& moved_on ==> r == Refreshed::Adopted(stored.login->0)
            &&& !moved_on && renewed is Ok ==> r == Refreshed::Rotated(renewed->Ok_0)
            &&& !moved_on && renewed is Err ==> r == Refreshed::Failed(renewed->Err_0)
        }),
{
}

/// A switch that is renewing its target: a rejected token ends it, always; any other
/// failure ends it only where the renewal is required, and else is said; a renewed login is
/// the one that lands.
pub proof fn law_a_dead_target_is_not_landed_on(f: SwitchFlow, event: SwitchEvent, r: SwitchNext)
    requires
        f.step is Renew,
        can_follow(f.step, event),
        call_ensures(SwitchFlow::advance, (f, event), r),
    ensures
        event matches SwitchEvent::Renewal(renewal) && {
            &&& renewal is Dead ==> (r matches SwitchNext::Failed(e) && e.code is TokenDead)
            &&& renewal is Failed && f.freshen.required ==> (r matches SwitchNext::Failed(e)
                && e.code is RefreshDenied)
            &&& renewal is Failed && !f.freshen.required ==> (r matches SwitchNext::Go(g)
                && g.step is Preserve && !g.renewed && g.warnings@.len() == f.warnings@.len() + 1)
            &&& renewal is Renewed ==> (r matches SwitchNext::Go(g) && g.step is Preserve
                && g.renewed && g.warnings@ == f.warnings@)
            &&& renewal is NotNeeded ==> (r matches SwitchNext::Go(g) && g.step is Preserve
                && !g.renewed && g.warnings@ == f.warnings@)
        },
{
}

/// The course of a switch after its target is fit: the live login is put away, the target is
/// written, the landing is recorded and logged. It lands only by way of a write that was
/// made; a write that failed is undone where a login was live, and the switch has failed.
pub proof fn law_a_switch_takes_its_course(f: SwitchFlow, event: SwitchEvent, r: SwitchNext)
    requires
        can_follow(f.step, event),
        call_ensures(SwitchFlow::advance, (f, event), r),
    ensures
        f.step is Preserve && event is Kept ==> (r matches SwitchNext::Go(g) && g.step is Write),
        f.step is Preserve && event is Failed ==> r is Stopped,
        f.step is Write && event is Done ==> (r matches SwitchNext::Go(g) && g.step is Record),
        f.step is Write && event is Failed && f.from is Some ==> (r matches SwitchNext::Go(g)
            && g.step is Restore),
        f.step is Write && event is Failed && f.from is None ==> r is Stopped,
        f.step is Restore && event is Done ==> r is Stopped,
        f.step is Restore && event is Failed ==> (r matches SwitchNext::Failed(e) && e.code is Io),
        f.step is Record ==> ((r matches SwitchNext::Go(g) && g.step is Log && (event is Failed
            ==> g.unrecorded is Some) && (event is Done ==> g.unrecorded == f.unrecorded))),
        f.step is Log <==> r is Landed,
        r matches SwitchNext::Landed(x) ==> x.switched && x.reason is None && x.from == f.from
            && x.to == f.to,
        r matches SwitchNext::Landed(x) ==> x.warnings@.len() == f.warnings@.len() + (if
            f.unrecorded is Some {
            1int
        } else {
            0
        }) + (if event is Failed {
            1int
        } else {
            0
        }),
        f.step is Preserve && r is Go ==> (event matches SwitchEvent::Kept(kept) && {
            &&& kept is None ==> r->Go_0.from is None
            &&& kept is Some ==> r->Go_0.from == Some(kept->0.from)
        }),
{
}

/// The first slot that has something comes before every other that has it.
pub proof fn lemma_first_with(items: Seq<(u32, Slot)>, has: spec_fn(Slot) -> bool, j: int) -> (i: int)
    requires
        first_with(items, has) is Some || (0 <= j < items.len() && has(items[j].1)),
    ensures
        first_with(items, has) is Some,
        0 <= i < items.len(),
        first_with(items, has) == Some(items[i].0),
        has(items[i].1),
        0 <= j < items.len() && has(items[j].1) ==> i <= j,
    decreases items.len(),
{
    let short = items.drop_last();
    if first_with(short, has) is Some {
        let i = lemma_first_with(short, has, j);
        assert(short[i] == items[i]);
        if 0 <= j < short.len() {
            assert(short[j] == items[j]);
        }
        i
    } else if 0 <= j < short.len() && has(items[j].1) {
        assert(short[j] == items[j]);
        let i = lemma_first_with(short, has, j);
        i
    } else {
        items.len() - 1
    }
}

/// Whether a slot is the account that a login says it belongs to: the email is the same but
/// for case, and so is the organization, where one is named.
pub open spec fn is_owner(s: Slot, who: Identity) -> bool {
    lowercase(s.email@) == lowercase(who.email@) && (who.organization_uuid@.len() == 0
        || s.organization_uuid@ == who.organization_uuid@)
}

/// Which slot a login belongs to: one whose account it names, the least of them; where it
/// names none, one that stores its fingerprint. A login that says who it is is never
/// matched by its fingerprint while its account has a slot.
pub proof fn law_a_login_belongs_to_the_account_it_names(
    slots: &ProviderSlots,
    login: &Credential,
    r: Option<u32>,
    n: u32,
)
    requires
        slots.wf(),
        call_ensures(match_slot, (slots, login), r),
    ensures
        login.identity is Some && lowercase(login.identity->0.email@).len() > 0
            && slots.slots@.contains_key(n) && is_owner(slots.slots@[n], login.identity->0)
            ==> r is Some && slots.slots@.contains_key(r->0) && is_owner(
            slots.slots@[r->0],
            login.identity->0,
        ) && r->0 <= n,
        r is Some ==> slots.slots@.contains_key(r->0),
        r is Some && !(login.identity is Some && is_owner(slots.slots@[r->0], login.identity->0))
            ==> login.fingerprint@.len() > 0 && opt_text(slots.slots@[r->0].fingerprint) == Some(
            login.fingerprint@,
        ),
        r is None && login.fingerprint@.len() > 0 && slots.slots@.contains_key(n) ==> opt_text(
            slots.slots@[n].fingerprint,
        ) != Some(login.fingerprint@),
{
    let items = slots.slots.items@;
    let by_fp = by_print(login.fingerprint@);
    let mut at: int = -1;
    if slots.slots@.contains_key(n) {
        at = slots.slots.lemma_position(n);
    }
    if login.identity is Some {
        let who = login.identity->0;
        let own = by_owner(who);
        if first_with(items, own) is Some || (0 <= at && own(items[at].1)) {
            let i = lemma_first_with(items, own, at);
            slots.slots.lemma_entry(i);
            if 0 <= at && own(items[at].1) && i < at {
                assert(items[i].0 < items[at].0);
            }
        }
    }
    if first_with(items, by_fp) is Some || (0 <= at && by_fp(items[at].1)) {
        let i = lemma_first_with(items, by_fp, at);
        slots.slots.lemma_entry(i);
    }
}

/// A slot can be switched to exactly where it is there, holds a login that is not blank, and
/// the driver does not refuse it; what is landed on is its account.
pub proof fn law_a_target_holds_a_login(
    slots: &ProviderSlots,
    provider: &str,
    target: u32,
    stored: &Option<String>,
    refused: &Option<String>,
    r: Result<SlotRef, SwapdError>,
)
    requires
        slots.wf(),
        call_ensures(check_target, (slots, provider, target, stored, refused), r),
    ensures
        r is Ok <==> slots.slots@.contains_key(target) && stored is Some && trimmed(
            stored->0@,
        ).len() > 0 && refused is None,
        r is Ok ==> r->Ok_0.slot == Some(target) && r->Ok_0.email@ == slots.slots@[target].email@,
        r is Err && slots.slots@.contains_key(target) && stored is Some && trimmed(
            stored->0@,
        ).len() > 0 ==> r->Err_0.code is Unsupported,
        r is Err && !(slots.slots@.contains_key(target) && stored is Some && trimmed(
            stored->0@,
        ).len() > 0) ==> r->Err_0.code is NoSuchSlot,
{
}

/// A switch does nothing exactly where the live login is that of the target already.
pub proof fn law_a_switch_to_where_one_is_does_nothing(
    slots: &ProviderSlots,
    live: &Option<Credential>,
    target: u32,
    to: &SlotRef,
    r: Option<SwitchResult>,
    found: Option<u32>,
)
    requires
        slots.wf(),
        live is Some ==> call_ensures(match_slot, (slots, &live->0), found),
        call_ensures(already_active, (slots, live, target, to), r),
    ensures
        r is Some <==> live is Some && found == Some(target),
        r is Some ==> !r->0.switched && r->0.reason is Some && r->0.to == *to,
{
}

/// A login is renewed before it lands exactly where it expires within the buffer; one that
/// never expires is not.
pub proof fn law_only_what_expires_is_renewed(
    login: &Credential,
    now: i64,
    freshen: Freshen,
    r: bool,
)
    requires
        call_ensures(needs_renewal, (login, now, freshen), r),
    ensures
        login.expires_at is None ==> !r,
        login.expires_at is Some ==> (r <==> login.expires_at->0 - now < freshen.buffer_s),
{
}

/// What a switch does with the login that was live: it is put into the slot that it belongs
/// to, or under a key of its own where it belongs to none. It is not kept only where its
/// slot holds the same bytes, or a newer generation of it.
pub proof fn law_the_live_login_is_put_away(
    slots: &ProviderSlots,
    provider: &str,
    live: &Credential,
    stored: &Option<String>,
    live_is_older: bool,
    now: i64,
    out: Outgoing,
    found: Option<u32>,
)
    requires
        slots.wf(),
        call_ensures(match_slot, (slots, live), found),
        call_ensures(preserve_outgoing, (slots, provider, live, stored, live_is_older, now), out),
    ensures
        found is None ==> out.keep is Stash && out.from.slot is None && out.warning is Some,
        found is Some ==> out.from.slot == found,
        found is Some && slots.slots@.contains_key(found->0) ==> out.from.email@
            == slots.slots@[found->0].email@,
        found is None && live.identity is Some ==> out.from.email@ == live.identity->0.email@,
        found is Some && stored is None ==> out.keep == Keep::Store(found->0),
        found is Some && stored is Some && live_is_older ==> out.keep == Keep::Superseded(
            found->0,
        ) && out.warning is Some,
        found is Some && stored is Some && !live_is_older && stored->0@ == live.bytes@ ==> out.keep
            == Keep::AlreadyStored(found->0),
        found is Some && stored is Some && !live_is_older && stored->0@ != live.bytes@ ==> out.keep
            == Keep::Store(found->0),
{
}

/// What is logged of a switch is where it came from, where it went, and what asked for it.
pub proof fn law_a_switch_is_logged_as_it_was(
    from: &Option<SlotRef>,
    to: &SlotRef,
    trigger: &str,
    now: i64,
    r: SwitchRecord,
)
    requires
        call_ensures(switch_record, (from, to, trigger, now), r),
    ensures
        r.from == *from,
        r.to == *to,
        r.trigger@ == trigger@,
{
}

/// A live store that fails is not an empty one: no login is read only where there is none,
/// or where it is blank.
pub proof fn law_a_failing_store_is_not_an_empty_one(
    read: Result<Credential, DriverError>,
    r: Result<Option<Credential>, DriverError>,
)
    requires
        call_ensures(read_live_for_switch, (read,), r),
    ensures
        r is Ok && r->Ok_0 is None <==> (read is Err && read->Err_0 is NoLogin) || (read is Ok
            && trimmed(read->Ok_0.bytes@).len() == 0),
        r is Ok && r->Ok_0 is Some ==> read is Ok && r->Ok_0->0 == read->Ok_0,
        r is Err ==> read is Err && r->Err_0 == read->Err_0,
{
}

/// A pass goes on without a live login only where there is none, or where it says why it
/// cannot be read: a switch is under way, the keychain is locked, or the tool is writing.
pub proof fn law_a_pass_says_why_it_sees_no_login(
    fenced: bool,
    read: Result<Credential, DriverError>,
    r: Result<(Option<Credential>, Option<String>), DriverError>,
)
    requires
        call_ensures(live_for_pass, (fenced, read), r),
    ensures
        fenced ==> r is Ok && r->Ok_0.0 is None && r->Ok_0.1 is Some,
        !fenced && read is Ok ==> r is Ok && r->Ok_0.0 == Some(read->Ok_0) && r->Ok_0.1 is None,
        r is Ok && r->Ok_0.0 is None && r->Ok_0.1 is None ==> !fenced && read is Err
            && read->Err_0 is NoLogin,
        r is Err ==> !fenced && read is Err && !(read->Err_0 is NoLogin) && !(
        read->Err_0 is KeychainUnavailable) && !(read->Err_0 is Locked),
{
}

/// A refresh by name asks for that slot alone, by force; one without a name for all that are
/// due or stale. A slot that is not there is refused.
pub proof fn law_a_refresh_asks_for_what_is_named(
    slots: &ProviderSlots,
    provider: &str,
    slot: Option<u32>,
    r: Result<crate::collect::CollectOpts, SwapdError>,
    n: u32,
)
    requires
        slots.wf(),
        call_ensures(refresh_opts, (slots, provider, slot), r),
    ensures
        r is Err <==> slot is Some && !slots.slots@.contains_key(slot->0),
        r is Ok && slot is Some ==> (r->Ok_0.force_slots@.contains(n) <==> n == slot->0),
        r is Ok && slot is None ==> r->Ok_0.all_stale && r->Ok_0.force_slots@.len() == 0,
        r is Ok ==> r->Ok_0.only is None,
{
    if r is Ok && slot is Some {
        let list = r->Ok_0.force_slots@;
        assert(list[0] == slot->0);
    }
}

/// A named slot counts as not fetched exactly where the stamp of its last attempt has not
/// moved.
pub proof fn law_a_slot_was_skipped_where_nothing_was_tried(
    accounts: &Vec<AccountView>,
    slot: u32,
    before: Option<i64>,
    after: Option<i64>,
    r: Option<Skipped>,
)
    requires
        call_ensures(skipped_reason, (accounts, slot, before, after), r),
    ensures
        r is Some ==> before == after && r->0.slot == slot,
        before != after ==> r is None,
{
}

/// What a failed fetch is recorded as: a refusal for now, with the delay that it asks for; a
/// login that is to be renewed; a dead token; and an error of the provider by its own words,
/// without the word that says what was asked.
pub proof fn law_what_a_failed_fetch_is_recorded_as(err: DriverError, r: (String, Option<i64>))
    requires
        call_ensures(crate::fetch::failure_kind, (&err,), r),
    ensures
        err is Throttled ==> r.0@ == "http-429"@ && r.1 == err->retry_after,
        !(err is Throttled) ==> r.1 is None,
        err is NeedsRefresh ==> r.0@ == "http-401"@,
        err is TokenDead ==> r.0@ == "token-dead"@,
        err is KeychainUnavailable ==> r.0@ == "keychain-unavailable"@,
        err matches DriverError::Http(m) ==> (if m@.len() >= 7 && m@.take(7) == "usage: "@ {
            r.0@ == m@.skip(7)
        } else {
            r.0@ == m@
        }),
{
    reveal_strlit("usage: ");
    assert("usage: "@.len() == 7);
}

} // verus!
