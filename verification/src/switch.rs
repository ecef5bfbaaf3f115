//! Landing a slot on the live store, and choosing which slot to land.

use vstd::prelude::*;
use vstd::string::*;

use crate::auto_rank::{first_seven_day, seven_day_reset};
use crate::collect::{is_owned_by, owned_by, Credential, Identity};
use crate::collect_view::{may_land, rotatable};
use crate::contract::{AccountView, Window};
use crate::errors::{error_about, is_error, ErrorCode, SwapdError};
use crate::fetch::DriverError;
use crate::gating::{headroom, room};
use crate::history::SlotRef;
use crate::numfmt::{show_slots, slot_list};
use crate::order::{instant_key, place, placed, slots_of, take_slots, when_key, Key};
use crate::slots::{by_alias, by_email, has_alias, has_email, lists, ProviderSlots, Slot};
use crate::text::{
    chars_of, decimal, lower, lowercase, number32, opt_is, opt_text, parse_u32, part_of, same, show,
    trim, trimmed,
};
use crate::units::{FULL_PCT, MICRO};

verus! {

/// Whether a name, without regard to case, is an account's number, email or alias.
pub open spec fn names(a: AccountView, name: Seq<char>) -> bool {
    let l = lowercase(name);
    ||| l == decimal(a.slot as nat)
    ||| l == lowercase(a.email@)
    ||| (a.alias matches Some(x) && lowercase(x@) == l)
}

/// Whether an account is preferred: by its own flag, or by a list that names it.
pub open spec fn prefers(a: AccountView, preferred: Seq<String>) -> bool {
    a.preferred || exists|i: int| 0 <= i < preferred.len() && names(a, (#[trigger] preferred[i])@)
}

/// Whether an account is preferred: the slot's own flag, or a list that names it by
/// number, alias or email.
pub fn is_preferred(account: &AccountView, preferred: &Vec<String>) -> (r: bool)
    ensures
        r == prefers(*account, preferred@),
{
    if account.preferred {
        return true;
    }
    let number: String = show(account.slot as u64);
    let email: String = lower(account.email.as_str());
    let mut i: usize = 0;
    while i < preferred.len()
        invariant
            i <= preferred.len(),
            number@ == decimal(account.slot as nat),
            email@ == lowercase(account.email@),
            !account.preferred,
            forall|j: int| 0 <= j < i ==> !names(*account, (#[trigger] preferred@[j])@),
        decreases preferred.len() - i,
    {
        let name: String = lower(preferred[i].as_str());
        let by_alias: bool = match &account.alias {
            Some(x) => same(lower(x.as_str()).as_str(), name.as_str()),
            None => false,
        };
        if same(name.as_str(), number.as_str()) || same(name.as_str(), email.as_str()) || by_alias {
            assert(names(*account, preferred@[i as int]@));
            return true;
        }
        i += 1;
    }
    false
}

/// How a rotation picks a target.
#[derive(Clone, Copy, Debug, PartialEq, Eq, Structural)]
pub enum Strategy {
    /// Soonest weekly reset first: spend what expires first.
    ConsumeFirst,
    /// Most headroom first.
    Best,
    /// Rotation order after the active slot.
    NextAvailable,
}

/// The strategy of a name.
pub open spec fn strategy_of(name: Seq<char>) -> Option<Strategy> {
    if name == "consume-first"@ {
        Some(Strategy::ConsumeFirst)
    } else if name == "best"@ {
        Some(Strategy::Best)
    } else if name == "next-available"@ {
        Some(Strategy::NextAvailable)
    } else {
        None
    }
}

impl Strategy {
    /// The strategy of a name, or an error that lists the names.
    pub fn parse(name: &str) -> (r: Result<Strategy, SwapdError>)
        ensures
            match strategy_of(name@) {
                Some(s) => r == Ok::<Strategy, SwapdError>(s),
                None => r matches Err(e) && is_error(
                    e,
                    ErrorCode::InvalidInput,
                    "unknown strategy: "@ + name@ + " (consume-first, best, next-available)"@,
                ),
            },
    {
        if same(name, "consume-first") {
            return Ok(Strategy::ConsumeFirst);
        }
        if same(name, "best") {
            return Ok(Strategy::Best);
        }
        if same(name, "next-available") {
            return Ok(Strategy::NextAvailable);
        }
        Err(
            error_about(
                ErrorCode::InvalidInput,
                "unknown strategy: ",
                name,
                " (consume-first, best, next-available)",
            ),
        )
    }
}

/// All slots with a property, by number.
pub open spec fn all_with(items: Seq<(u32, Slot)>, has: spec_fn(Slot) -> bool) -> Seq<u32>
    decreases items.len(),
{
    if items.len() == 0 {
        Seq::empty()
    } else {
        let rest = all_with(items.drop_last(), has);
        if has(items.last().1) {
            rest.push(items.last().0)
        } else {
            rest
        }
    }
}

/// The slots that a text names: those whose alias it is, or else those whose email
/// it is, without regard to case.
pub open spec fn answering(slots: ProviderSlots, ident: Seq<char>) -> Seq<u32> {
    let l = lowercase(ident);
    let aliased = all_with(slots.slots.items@, by_alias(l));
    if aliased.len() > 0 {
        aliased
    } else {
        all_with(slots.slots.items@, by_email(l))
    }
}

fn find_all(slots: &ProviderSlots, l: &str, alias: bool) -> (r: Vec<u32>)
    ensures
        r@ == all_with(
            slots.slots.items@,
            if alias {
                by_alias(l@)
            } else {
                by_email(l@)
            },
        ),
{
    let ghost items = slots.slots.items@;
    let ghost has = if alias {
        by_alias(l@)
    } else {
        by_email(l@)
    };
    let mut r: Vec<u32> = Vec::new();
    let mut i: usize = 0;
    assert(items.take(0) =~= Seq::empty());
    while i < slots.slots.items.len()
        invariant
            i <= items.len(),
            items == slots.slots.items@,
            has == if alias {
                by_alias(l@)
            } else {
                by_email(l@)
            },
            r@ == all_with(items.take(i as int), has),
        decreases items.len() - i,
    {
        assert(items.take(i + 1).drop_last() =~= items.take(i as int));
        let hit: bool = if alias {
            has_alias(&slots.slots.items[i].1, l)
        } else {
            has_email(&slots.slots.items[i].1, l)
        };
        if hit {
            r.push(slots.slots.items[i].0);
        }
        i += 1;
    }
    assert(items.take(items.len() as int) =~= items);
    r
}

/// Which slot a text names, or the error that it is: a slot number, else an alias,
/// else an email.
pub open spec fn resolves(slots: ProviderSlots, provider: Seq<char>, ident: Seq<char>) -> Result<
    u32,
    (ErrorCode, Seq<char>),
> {
    match number32(ident) {
        Some(n) => if slots.slots@.contains_key(n) {
            Ok(n)
        } else {
            Err(
                (
                    ErrorCode::NoSuchSlot,
                    "no slot "@ + decimal(n as nat) + (" for "@ + provider),
                ),
            )
        },
        None => {
            let found = answering(slots, ident);
            if found.len() == 1 {
                Ok(found[0])
            } else if found.len() == 0 {
                Err(
                    (
                        ErrorCode::NoSuchSlot,
                        "no account matches '"@ + ident + ("' for "@ + provider),
                    ),
                )
            } else {
                Err(
                    (
                        ErrorCode::InvalidInput,
                        "'"@ + ident + ("' matches slots "@ + slot_list(found)
                            + "; name one by number"@),
                    ),
                )
            }
        },
    }
}

/// What is found among the slots is one of them.
proof fn lemma_all_with(items: Seq<(u32, Slot)>, has: spec_fn(Slot) -> bool)
    ensures
        forall|k: int|
            0 <= k < all_with(items, has).len() ==> exists|i: int|
                0 <= i < items.len() && (#[trigger] items[i]).0 == #[trigger] all_with(
                    items,
                    has,
                )[k],
    decreases items.len(),
{
    if items.len() > 0 {
        let rest = items.drop_last();
        lemma_all_with(rest, has);
        let out = all_with(items, has);
        let short = all_with(rest, has);
        assert forall|k: int| 0 <= k < out.len() implies exists|i: int|
            0 <= i < items.len() && (#[trigger] items[i]).0 == #[trigger] out[k] by {
            if k < short.len() {
                assert(short[k] == out[k]);
                let i = choose|i: int| 0 <= i < rest.len() && (#[trigger] rest[i]).0 == short[k];
                assert(items[i].0 == out[k]);
            } else {
                assert(items[items.len() - 1].0 == out[k]);
            }
        }
    }
}

/// A text that names a slot names one that is there.
pub proof fn lemma_resolves_to_a_slot(slots: ProviderSlots, provider: Seq<char>, ident: Seq<char>)
    requires
        slots.wf(),
    ensures
        resolves(slots, provider, ident) matches Ok(n) ==> slots.slots@.contains_key(n),
{
    let items = slots.slots.items@;
    let found = answering(slots, ident);
    lemma_all_with(items, by_alias(lowercase(ident)));
    lemma_all_with(items, by_email(lowercase(ident)));
    if number32(ident) is None && found.len() == 1 {
        let i = choose|i: int| 0 <= i < items.len() && (#[trigger] items[i]).0 == found[0];
        slots.slots.lemma_entry(i);
    }
}

/// Which slot a text names: a slot number, else an alias, else an email. Two
/// accounts that answer to one name are an error, not a pick.
pub fn resolve(slots: &ProviderSlots, provider: &str, ident: &str) -> (r: Result<u32, SwapdError>)
    requires
        slots.wf(),
    ensures
        match resolves(*slots, provider@, ident@) {
            Ok(n) => r == Ok::<u32, SwapdError>(n) && slots.slots@.contains_key(n),
            Err(x) => r matches Err(e) && is_error(e, x.0, x.1),
        },
{
    if let Some(n) = parse_u32(ident) {
        if slots.slots.contains_key(n) {
            return Ok(n);
        }
        return Err(
            error_about(
                ErrorCode::NoSuchSlot,
                "no slot ",
                show(n as u64).as_str(),
                " for ".to_owned().concat(provider).as_str(),
            ),
        );
    }
    let wanted: String = lower(ident);
    let aliased: Vec<u32> = find_all(slots, wanted.as_str(), true);
    let found: Vec<u32> = if aliased.len() == 0 {
        find_all(slots, wanted.as_str(), false)
    } else {
        aliased
    };
    proof {
        lemma_resolves_to_a_slot(*slots, provider@, ident@);
    }
    if found.len() == 1 {
        return Ok(found[0]);
    }
    if found.len() == 0 {
        return Err(
            error_about(
                ErrorCode::NoSuchSlot,
                "no account matches '",
                ident,
                "' for ".to_owned().concat(provider).as_str(),
            ),
        );
    }
    Err(
        error_about(
            ErrorCode::InvalidInput,
            "'",
            ident,
            "' matches slots ".to_owned().concat(show_slots(&found).as_str()).concat(
                "; name one by number",
            ).as_str(),
        ),
    )
}

/// How hard a switch tries to hand its target a token that is valid after it lands.
/// The buffer is in microseconds.
#[derive(Clone, Copy, Debug, PartialEq, Eq, Structural)]
pub struct Freshen {
    /// Renew the target when its token expires within this time.
    pub buffer_s: i64,
    /// Whether a renewal that could not happen aborts the switch.
    pub required: bool,
}

impl Freshen {
    /// A person who names one account: only what is expired is renewed, and it
    /// lands even where that failed.
    pub fn on_demand() -> (r: Freshen)
        ensures
            r == (Freshen { buffer_s: 0, required: false }),
    {
        Freshen { buffer_s: 0, required: false }
    }

    /// The loop: ten minutes of margin, and a target that could not be renewed is
    /// passed over.
    pub fn auto() -> (r: Freshen)
        ensures
            r == (Freshen { buffer_s: 600_000_000, required: true }),
    {
        Freshen { buffer_s: 600_000_000, required: true }
    }
}

/// What a switch did, or why it did nothing.
#[derive(Debug)]
pub struct SwitchResult {
    pub switched: bool,
    /// Why nothing was done.
    pub reason: Option<String>,
    pub from: Option<SlotRef>,
    pub to: SlotRef,
    pub warnings: Vec<String>,
}

/// Whether a login expires before `now` and a buffer.
pub open spec fn goes_stale(expires_at: Option<i64>, now: i64, buffer: i64) -> bool {
    expires_at matches Some(t) && t < now + buffer
}

/// Whether a login expires before `now` and a buffer.
pub fn is_stale(expires_at: Option<i64>, now: i64, buffer: i64) -> (r: bool)
    ensures
        r == goes_stale(expires_at, now, buffer),
{
    match expires_at {
        Some(t) => (t as i128) < now as i128 + buffer as i128,
        None => false,
    }
}

/// Whether a slot has a fingerprint.
pub open spec fn by_print(print: Seq<char>) -> spec_fn(Slot) -> bool {
    |s: Slot| opt_text(s.fingerprint) == Some(print)
}

/// Whether a slot belongs to an identity.
pub open spec fn by_owner(i: Identity) -> spec_fn(Slot) -> bool {
    |s: Slot| owned_by(s, i)
}

/// The slot that a login belongs to: by its identity, or by its fingerprint.
pub open spec fn slot_of(slots: ProviderSlots, login: Credential) -> Option<u32> {
    let items = slots.slots.items@;
    let owner = match login.identity {
        Some(i) => if lowercase(i.email@).len() > 0 {
            crate::slots::first_with(items, by_owner(i))
        } else {
            None
        },
        None => None,
    };
    match owner {
        Some(n) => Some(n),
        None => if login.fingerprint@.len() == 0 {
            None
        } else {
            crate::slots::first_with(items, by_print(login.fingerprint@))
        },
    }
}

fn find_owner(slots: &ProviderSlots, who: &Identity) -> (r: Option<u32>)
    ensures
        r == crate::slots::first_with(slots.slots.items@, by_owner(*who)),
{
    let ghost items = slots.slots.items@;
    let ghost has = by_owner(*who);
    let mut i: usize = 0;
    assert(items.take(0) =~= Seq::empty());
    while i < slots.slots.items.len()
        invariant
            i <= items.len(),
            items == slots.slots.items@,
            has == by_owner(*who),
            crate::slots::first_with(items.take(i as int), has) is None,
        decreases items.len() - i,
    {
        assert(items.take(i + 1).drop_last() =~= items.take(i as int));
        if is_owned_by(&slots.slots.items[i].1, who) {
            proof {
                crate::slots::lemma_first_with_stays(items, has, i + 1);
            }
            return Some(slots.slots.items[i].0);
        }
        i += 1;
    }
    assert(items.take(items.len() as int) =~= items);
    None
}

fn find_print(slots: &ProviderSlots, print: &str) -> (r: Option<u32>)
    ensures
        r == crate::slots::first_with(slots.slots.items@, by_print(print@)),
{
    let ghost items = slots.slots.items@;
    let ghost has = by_print(print@);
    let mut i: usize = 0;
    assert(items.take(0) =~= Seq::empty());
    while i < slots.slots.items.len()
        invariant
            i <= items.len(),
            items == slots.slots.items@,
            has == by_print(print@),
            crate::slots::first_with(items.take(i as int), has) is None,
        decreases items.len() - i,
    {
        assert(items.take(i + 1).drop_last() =~= items.take(i as int));
        if opt_is(&slots.slots.items[i].1.fingerprint, print) {
            proof {
                crate::slots::lemma_first_with_stays(items, has, i + 1);
            }
            return Some(slots.slots.items[i].0);
        }
        i += 1;
    }
    assert(items.take(items.len() as int) =~= items);
    None
}

/// The slot that a login belongs to: identity first, fingerprint second for a login
/// that carries no identity of its own.
pub fn match_slot(slots: &ProviderSlots, login: &Credential) -> (r: Option<u32>)
    ensures
        r == slot_of(*slots, *login),
{
    if let Some(who) = &login.identity {
        if !lower(who.email.as_str()).as_str().is_empty() {
            if let Some(n) = find_owner(slots, who) {
                return Some(n);
            }
        }
    }
    if login.fingerprint.as_str().is_empty() {
        return None;
    }
    find_print(slots, login.fingerprint.as_str())
}

/// The live login of a reading of the live store: none where it is blank or there is
/// none. A store that fails is not an empty store.
pub fn read_live_for_switch(read: Result<Credential, DriverError>) -> (r: Result<
    Option<Credential>,
    DriverError,
>)
    ensures
        match read {
            Ok(login) => r == Ok::<Option<Credential>, DriverError>(
                if trimmed(login.bytes@).len() == 0 {
                    None
                } else {
                    Some(login)
                },
            ),
            Err(e) => if e is NoLogin {
                r == Ok::<Option<Credential>, DriverError>(None)
            } else {
                r == Err::<Option<Credential>, DriverError>(e)
            },
        },
{
    match read {
        Ok(login) => if trim(login.bytes.as_str()).as_str().is_empty() {
            Ok(None)
        } else {
            Ok(Some(login))
        },
        Err(DriverError::NoLogin) => Ok(None),
        Err(e) => Err(e),
    }
}

/// What stands behind the last `c` of a text, or the whole of it.
pub open spec fn behind_last(s: Seq<char>, c: char) -> Seq<char>
    decreases s.len(),
{
    if s.len() == 0 || s.last() == c {
        Seq::empty()
    } else {
        behind_last(s.drop_last(), c).push(s.last())
    }
}

/// The whole seconds of an instant, none before the epoch.
pub open spec fn stash_second(now: i64) -> nat {
    if now < 0 {
        0
    } else {
        (now as int / MICRO as int) as nat
    }
}

/// The start of a fingerprint: at most eight characters behind its last colon.
pub open spec fn short_print(fingerprint: Seq<char>) -> Seq<char> {
    let tail = behind_last(fingerprint, ':');
    if tail.len() > 8 {
        tail.take(8)
    } else {
        tail
    }
}

/// The id that a login which no slot owns is kept under.
pub open spec fn stash_id_text(now: i64, fingerprint: Seq<char>) -> Seq<char> {
    decimal(stash_second(now)) + "-"@ + short_print(fingerprint)
}

/// The text of the key that a login which no slot owns is kept under.
pub open spec fn stash_text(provider: Seq<char>, now: i64, fingerprint: Seq<char>) -> Seq<char> {
    provider + ":unclaimed-"@ + stash_id_text(now, fingerprint)
}

/// The id that a login which no slot owns is kept under: the second, and the start of
/// the fingerprint, so that two logins of one second do not meet.
pub fn stash_id(now: i64, fingerprint: &str) -> (r: String)
    ensures
        r@ == stash_id_text(now, fingerprint@),
{
    let chars: Vec<char> = chars_of(fingerprint);
    let n: usize = chars.len();
    let mut from: usize = n;
    assert(chars@.take(n as int) =~= chars@);
    assert(chars@.subrange(n as int, n as int) =~= Seq::empty());
    while from > 0 && chars[from - 1] != ':'
        invariant
            from <= n,
            n == chars@.len(),
            chars@ == fingerprint@,
            behind_last(fingerprint@, ':') == behind_last(chars@.take(from as int), ':')
                + chars@.subrange(from as int, n as int),
        decreases from,
    {
        proof {
            let part = chars@.take(from as int);
            assert(part.last() == chars@[from - 1]);
            assert(part.drop_last() =~= chars@.take(from - 1));
            assert(behind_last(part, ':') + chars@.subrange(from as int, n as int) =~= behind_last(
                part.drop_last(),
                ':',
            ) + chars@.subrange(from - 1, n as int));
        }
        from -= 1;
    }
    proof {
        let part = chars@.take(from as int);
        if from > 0 {
            assert(part.last() == chars@[from - 1]);
        }
        assert(behind_last(part, ':') =~= Seq::empty());
        assert(behind_last(fingerprint@, ':') =~= chars@.subrange(from as int, n as int));
    }
    let to: usize = if n - from > 8 {
        from + 8
    } else {
        n
    };
    let short: String = part_of(&chars, from, to);
    assert(n - from > 8 ==> chars@.subrange(from as int, n as int).take(8) =~= chars@.subrange(
        from as int,
        to as int,
    ));
    let second: u64 = if now < 0 {
        0
    } else {
        (now / MICRO) as u64
    };
    show(second).concat("-").concat(short.as_str())
}

/// The key that a login which no slot owns is kept under.
pub fn stash_key(provider: &str, now: i64, fingerprint: &str) -> (r: String)
    ensures
        r@ == stash_text(provider@, now, fingerprint@),
{
    provider.to_owned().concat(":unclaimed-").concat(stash_id(now, fingerprint).as_str())
}

/// Two logins that are put by in one second are kept under different keys where the
/// starts of their fingerprints differ.
pub proof fn law_stash_keys_differ(provider: Seq<char>, now: i64, a: Seq<char>, b: Seq<char>)
    requires
        short_print(a) != short_print(b),
    ensures
        stash_text(provider, now, a) != stash_text(provider, now, b),
{
    let head = provider + ":unclaimed-"@ + decimal(stash_second(now)) + "-"@;
    assert(stash_text(provider, now, a).skip(head.len() as int) =~= short_print(a));
    assert(stash_text(provider, now, b).skip(head.len() as int) =~= short_print(b));
}

/// The windows that a rotation decides on: the current ones, or the last good ones.
pub open spec fn decision_of(a: AccountView) -> Seq<Window> {
    if a.windows@.len() == 0 {
        match a.last_good {
            Some(g) => g.windows@,
            None => Seq::empty(),
        }
    } else {
        a.windows@
    }
}

/// The headroom of an account, where it was measured.
pub open spec fn room_of(a: AccountView, models: Seq<String>) -> Option<int> {
    room(decision_of(a), models)
}

/// The headroom of an account, where it was measured.
pub fn account_headroom(a: &AccountView, models: &Vec<String>) -> (r: Option<i128>)
    ensures
        r is Some == room_of(*a, models@) is Some,
        r is Some ==> r->0 == room_of(*a, models@)->0,
        r is Some ==> -0x1_0000_0000_0000_0000 < r->0 < 0x1_0000_0000_0000_0000,
{
    if a.windows.len() > 0 {
        return headroom(&a.windows, models);
    }
    match &a.last_good {
        Some(g) => headroom(&g.windows, models),
        None => {
            let none: Vec<Window> = Vec::new();
            assert(none@ =~= Seq::<Window>::empty());
            headroom(&none, models)
        },
    }
}

/// The weekly reset of an account.
pub fn account_weekly(a: &AccountView) -> (r: Option<i64>)
    ensures
        r == first_seven_day(decision_of(*a)),
{
    if a.windows.len() > 0 {
        return seven_day_reset(&a.windows);
    }
    match &a.last_good {
        Some(g) => seven_day_reset(&g.windows),
        None => None,
    }
}

/// Whether a rotation may land on an account at all.
pub open spec fn landable(a: AccountView) -> bool {
    !a.active && may_land(a.disabled, Some(a.usage_status))
}

/// Whether an account is not known to be spent.
pub open spec fn not_spent(a: AccountView, models: Seq<String>) -> bool {
    room_of(a, models) matches Some(h) ==> h > 0
}

/// Whether a rotation by headroom or reset may take an account.
pub open spec fn takes(a: AccountView, healthy: Seq<u32>, models: Seq<String>, gated: bool) -> bool {
    landable(a) && not_spent(a, models) && (gated ==> healthy.contains(a.slot))
}

/// Whether a rotation by headroom or reset may take any account.
pub open spec fn takes_any(
    accounts: Seq<AccountView>,
    healthy: Seq<u32>,
    models: Seq<String>,
    gated: bool,
) -> bool {
    exists|i: int|
        0 <= i < accounts.len() && takes(#[trigger] accounts[i], healthy, models, gated)
}

/// The key that an account is ranked by: the preferred first; then the soonest weekly
/// reset and the most headroom, or the most headroom alone; then the slot.
pub open spec fn rank_key(
    a: AccountView,
    consume_first: bool,
    preferred: Seq<String>,
    models: Seq<String>,
) -> Key {
    let h = match room_of(a, models) {
        Some(h) => -h,
        None => -(FULL_PCT as int),
    };
    Key {
        a: if prefers(a, preferred) {
            0
        } else {
            1
        },
        b: if consume_first {
            when_key(first_seven_day(decision_of(a)))
        } else {
            h as i128
        },
        c: if consume_first {
            h as i128
        } else {
            0
        },
        d: a.slot as i128,
    }
}

/// The accounts that a rotation may take, in order.
pub open spec fn ranked(
    accounts: Seq<AccountView>,
    healthy: Seq<u32>,
    consume_first: bool,
    gated: bool,
    preferred: Seq<String>,
    models: Seq<String>,
) -> Seq<(Key, u32)>
    decreases accounts.len(),
{
    if accounts.len() == 0 {
        Seq::empty()
    } else {
        let rest = ranked(
            accounts.drop_last(),
            healthy,
            consume_first,
            gated,
            preferred,
            models,
        );
        let a = accounts.last();
        if takes(a, healthy, models, gated) {
            placed(rest, (rank_key(a, consume_first, preferred, models), a.slot))
        } else {
            rest
        }
    }
}

/// The slots that are healthy and may be landed on.
pub open spec fn ready(accounts: Seq<AccountView>, healthy: Seq<u32>) -> Seq<u32>
    decreases accounts.len(),
{
    if accounts.len() == 0 {
        Seq::empty()
    } else {
        let rest = ready(accounts.drop_last(), healthy);
        let a = accounts.last();
        if landable(a) && healthy.contains(a.slot) {
            rest.push(a.slot)
        } else {
            rest
        }
    }
}

/// The position behind the first active account, or the start.
pub open spec fn resume_at(accounts: Seq<AccountView>) -> int
    decreases accounts.len(),
{
    if accounts.len() == 0 {
        0
    } else if resume_at(accounts.drop_last()) > 0 {
        resume_at(accounts.drop_last())
    } else if accounts.last().active {
        accounts.len() as int
    } else {
        0
    }
}

/// Of `n` accounts from a start on, round the end, those that are ready.
pub open spec fn in_rotation(
    accounts: Seq<AccountView>,
    start: int,
    ready_slots: Seq<u32>,
    n: int,
) -> Seq<u32>
    decreases n,
{
    if n <= 0 {
        Seq::empty()
    } else {
        let rest = in_rotation(accounts, start, ready_slots, n - 1);
        let a = accounts[(start + n - 1) % accounts.len() as int];
        if ready_slots.contains(a.slot) {
            rest.push(a.slot)
        } else {
            rest
        }
    }
}

/// The slots that a rotation may land on, best first.
pub open spec fn rotation(
    accounts: Seq<AccountView>,
    healthy: Seq<u32>,
    strategy: Strategy,
    preferred: Seq<String>,
    models: Seq<String>,
) -> Seq<u32> {
    match strategy {
        Strategy::NextAvailable => in_rotation(
            accounts,
            resume_at(accounts),
            ready(accounts, healthy),
            accounts.len() as int,
        ),
        Strategy::ConsumeFirst => slots_of(
            ranked(
                accounts,
                healthy,
                true,
                takes_any(accounts, healthy, models, true),
                preferred,
                models,
            ),
        ),
        Strategy::Best => slots_of(ranked(accounts, healthy, false, false, preferred, models)),
    }
}

fn may_take(a: &AccountView, healthy: &Vec<u32>, models: &Vec<String>, gated: bool) -> (r: bool)
    ensures
        r == takes(*a, healthy@, models@, gated),
{
    let open: bool = match account_headroom(a, models) {
        Some(h) => h > 0,
        None => true,
    };
    !a.active && rotatable(a.disabled, Some(a.usage_status)) && open && (!gated || lists(
        healthy,
        a.slot,
    ))
}

fn rank_in_turn(accounts: &Vec<AccountView>, healthy: &Vec<u32>) -> (r: Vec<u32>)
    ensures
        r@ == in_rotation(
            accounts@,
            resume_at(accounts@),
            ready(accounts@, healthy@),
            accounts@.len() as int,
        ),
{
    let len: usize = accounts.len();
    let mut slots: Vec<u32> = Vec::new();
    let mut start: usize = 0;
    let mut i: usize = 0;
    assert(accounts@.take(0) =~= Seq::empty());
    while i < len
        invariant
            i <= len,
            len == accounts@.len(),
            slots@ == ready(accounts@.take(i as int), healthy@),
            start == resume_at(accounts@.take(i as int)),
            start <= i,
        decreases len - i,
    {
        assert(accounts@.take(i + 1).drop_last() =~= accounts@.take(i as int));
        let a: &AccountView = &accounts[i];
        if !a.active && rotatable(a.disabled, Some(a.usage_status)) && lists(healthy, a.slot) {
            slots.push(a.slot);
        }
        if start == 0 && a.active {
            start = i + 1;
        }
        i += 1;
    }
    assert(accounts@.take(len as int) =~= accounts@);
    let mut r: Vec<u32> = Vec::new();
    let mut at: usize = if start == len {
        0
    } else {
        start
    };
    let mut n: usize = 0;
    proof {
        if len > 0 {
            if start == len {
                assert(start as int % len as int == 0) by (nonlinear_arith)
                    requires
                        start == len,
                        len > 0,
                ;
            } else {
                assert(start as int % len as int == start) by (nonlinear_arith)
                    requires
                        0 <= start < len,
                ;
            }
        }
    }
    while n < len
        invariant
            n <= len,
            len == accounts@.len(),
            len > 0 ==> at < len,
            len > 0 ==> at == (start + n) % len as int,
            slots@ == ready(accounts@, healthy@),
            r@ == in_rotation(accounts@, start as int, slots@, n as int),
        decreases len - n,
    {
        let slot: u32 = accounts[at].slot;
        if lists(&slots, slot) {
            r.push(slot);
        }
        proof {
            let a = (start + n) as int;
            assert((a + 1) % len as int == if a % len as int + 1 == len {
                0
            } else {
                a % len as int + 1
            }) by (nonlinear_arith)
                requires
                    a >= 0,
                    len > 0,
            ;
        }
        at = if at + 1 == len {
            0
        } else {
            at + 1
        };
        n += 1;
    }
    r
}

/// The slots that a rotation may land on, best first, given the slots that the
/// collector calls healthy.
///
/// An account that nobody has measured is a candidate. `next-available` goes by the
/// health verdict alone. `consume-first` ranks the healthy ones by soonest weekly
/// reset, and all that are not spent where none is healthy. `best` ranks all that are
/// not spent by headroom.
pub fn rank(
    accounts: &Vec<AccountView>,
    healthy: &Vec<u32>,
    strategy: Strategy,
    preferred: &Vec<String>,
    models: &Vec<String>,
) -> (r: Vec<u32>)
    ensures
        r@ == rotation(accounts@, healthy@, strategy, preferred@, models@),
{
    if strategy == Strategy::NextAvailable {
        return rank_in_turn(accounts, healthy);
    }
    let consume_first: bool = strategy == Strategy::ConsumeFirst;
    let mut gated: bool = false;
    if consume_first {
        let mut k: usize = 0;
        while k < accounts.len()
            invariant
                k <= accounts.len(),
                gated == takes_any(accounts@.take(k as int), healthy@, models@, true),
            decreases accounts.len() - k,
        {
            let ghost part = accounts@.take(k as int);
            let ghost more = accounts@.take(k + 1);
            let hit: bool = may_take(&accounts[k], healthy, models, true);
            proof {
                if hit {
                    assert(takes(more[k as int], healthy@, models@, true));
                }
                if takes_any(part, healthy@, models@, true) {
                    let j = choose|j: int|
                        0 <= j < part.len() && takes(#[trigger] part[j], healthy@, models@, true);
                    assert(takes(more[j], healthy@, models@, true));
                }
                if takes_any(more, healthy@, models@, true) && !hit {
                    let j = choose|j: int|
                        0 <= j < more.len() && takes(#[trigger] more[j], healthy@, models@, true);
                    assert(takes(part[j], healthy@, models@, true));
                }
            }
            gated = gated || hit;
            k += 1;
        }
        assert(accounts@.take(accounts@.len() as int) =~= accounts@);
    }
    let mut list: Vec<(Key, u32)> = Vec::new();
    let mut i: usize = 0;
    assert(accounts@.take(0) =~= Seq::empty());
    while i < accounts.len()
        invariant
            i <= accounts.len(),
            list@ == ranked(
                accounts@.take(i as int),
                healthy@,
                consume_first,
                gated,
                preferred@,
                models@,
            ),
        decreases accounts.len() - i,
    {
        assert(accounts@.take(i + 1).drop_last() =~= accounts@.take(i as int));
        let a: &AccountView = &accounts[i];
        if may_take(a, healthy, models, gated) {
            let h: i128 = match account_headroom(a, models) {
                Some(h) => -h,
                None => -(FULL_PCT as i128),
            };
            let key: Key = Key {
                a: if is_preferred(a, preferred) {
                    0
                } else {
                    1
                },
                b: if consume_first {
                    instant_key(account_weekly(a))
                } else {
                    h
                },
                c: if consume_first {
                    h
                } else {
                    0
                },
                d: a.slot as i128,
            };
            place(&mut list, (key, a.slot));
        }
        i += 1;
    }
    assert(accounts@.take(accounts@.len() as int) =~= accounts@);
    take_slots(&list)
}

} // verus!
