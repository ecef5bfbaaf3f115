//! What holds of every edit of the slot table: what it changes, what it leaves alone, and
//! whom a name stands for.

use vstd::prelude::*;

use crate::add::{check_alias, compose, place, Placement};
use crate::collect::Identity;
use crate::edits::{
    check_removal, hold, ordered_slots, prefer, reorder, set_alias, set_auto_ignite, set_icon,
};
use crate::errors::{ErrorCode, SwapdError};
use crate::slots::{ProviderSlots, Slot};
use crate::switch::{all_with, answering, resolve, resolves};
use crate::text::{lowercase, number32, opt_text, trimmed};

verus! {

proof fn lemma_on_is_not_off()
    ensures
        "on"@ != "off"@,
{
    reveal_strlit("on");
    reveal_strlit("off");
    assert("on"@.len() != "off"@.len());
}

/// To hold an account sets its flag and to let it go clears it, and nothing else is changed:
/// not the rest of its row, no other account, not the order and not which one is active. A
/// hold that is refused changes nothing.
pub proof fn law_a_hold_sets_one_flag(provider: &str, ident: &str, disabled: bool, n: u32, m: u32)
    ensures
        forall|s: &mut ProviderSlots, r: Result<bool, SwapdError>|
            s.wf() && #[trigger] call_ensures(hold, (s, provider, ident, disabled), r) ==> {
                &&& r is Err ==> *final(s) == *s
                &&& r is Ok <==> resolves(*s, provider@, ident@) is Ok
                &&& resolves(*s, provider@, ident@) == Ok::<u32, (ErrorCode, Seq<char>)>(n) ==> {
                    &&& final(s).slots@[n].disabled == disabled
                    &&& final(s).slots@[n] == (Slot { disabled, ..s.slots@[n] })
                    &&& r->Ok_0 == (s.slots@[n].disabled != disabled)
                }
                &&& resolves(*s, provider@, ident@) != Ok::<u32, (ErrorCode, Seq<char>)>(m)
                    ==> final(s).slots@.contains_key(m) == s.slots@.contains_key(m)
                    && final(s).slots@[m] == s.slots@[m]
                &&& final(s).order == s.order
                &&& final(s).active_slot == s.active_slot
            },
{
}

/// To prefer an account with `on` sets its flag and with `off` clears it, and nothing else is
/// changed; any other word is refused. An edit that is refused changes nothing.
pub proof fn law_prefer_sets_one_flag(provider: &str, ident: &str, state: &str, can_prefer: bool, n: u32, m: u32)
    ensures
        forall|s: &mut ProviderSlots, r: Result<bool, SwapdError>|
            s.wf() && #[trigger] call_ensures(prefer, (s, provider, ident, state, can_prefer), r) ==> {
                &&& r is Err ==> *final(s) == *s
                &&& r is Ok && resolves(*s, provider@, ident@) == Ok::<
                    u32,
                    (ErrorCode, Seq<char>),
                >(n) ==> {
                    &&& lowercase(trimmed(state@)) == "on"@ || lowercase(trimmed(state@)) == "off"@
                    &&& lowercase(trimmed(state@)) == "on"@ ==> final(s).slots@[n].preferred
                    &&& lowercase(trimmed(state@)) == "off"@ ==> !final(s).slots@[n].preferred
                    &&& final(s).slots@[n] == (Slot {
                        preferred: final(s).slots@[n].preferred,
                        ..s.slots@[n]
                    })
                    &&& r->Ok_0 == (final(s).slots@[n].preferred != s.slots@[n].preferred)
                }
                &&& resolves(*s, provider@, ident@) != Ok::<u32, (ErrorCode, Seq<char>)>(m)
                    ==> final(s).slots@.contains_key(m) == s.slots@.contains_key(m)
                    && final(s).slots@[m] == s.slots@[m]
                &&& final(s).order == s.order
                &&& final(s).active_slot == s.active_slot
            },
{
    lemma_on_is_not_off();
    assert forall|s: &mut ProviderSlots, r: Result<bool, SwapdError>|
        s.wf() && #[trigger] call_ensures(prefer, (s, provider, ident, state, can_prefer), r) implies {
        &&& r is Err ==> *final(s) == *s
        &&& r is Ok && resolves(*s, provider@, ident@) == Ok::<u32, (ErrorCode, Seq<char>)>(n) ==> {
            &&& lowercase(trimmed(state@)) == "on"@ || lowercase(trimmed(state@)) == "off"@
            &&& lowercase(trimmed(state@)) == "on"@ ==> final(s).slots@[n].preferred
            &&& lowercase(trimmed(state@)) == "off"@ ==> !final(s).slots@[n].preferred
            &&& final(s).slots@[n] == (Slot {
                preferred: final(s).slots@[n].preferred,
                ..s.slots@[n]
            })
            &&& r->Ok_0 == (final(s).slots@[n].preferred != s.slots@[n].preferred)
        }
        &&& resolves(*s, provider@, ident@) != Ok::<u32, (ErrorCode, Seq<char>)>(m)
            ==> final(s).slots@.contains_key(m) == s.slots@.contains_key(m)
            && final(s).slots@[m] == s.slots@[m]
        &&& final(s).order == s.order
        &&& final(s).active_slot == s.active_slot
    } by {
    }
}

/// To have an account's windows opened ahead with `on` sets its flag and with `off` clears
/// it, and nothing else is changed; any other word is refused.
pub proof fn law_set_auto_ignite_sets_one_flag(provider: &str, ident: &str, state: &str, can_ignite: bool, n: u32, m: u32)
    ensures
        forall|s: &mut ProviderSlots, r: Result<bool, SwapdError>|
            s.wf() && #[trigger] call_ensures(set_auto_ignite, (s, provider, ident, state, can_ignite), r) ==> {
                &&& r is Err ==> *final(s) == *s
                &&& r is Ok && resolves(*s, provider@, ident@) == Ok::<
                    u32,
                    (ErrorCode, Seq<char>),
                >(n) ==> {
                    &&& lowercase(trimmed(state@)) == "on"@ || lowercase(trimmed(state@)) == "off"@
                    &&& lowercase(trimmed(state@)) == "on"@ ==> final(s).slots@[n].auto_ignite
                    &&& lowercase(trimmed(state@)) == "off"@ ==> !final(s).slots@[n].auto_ignite
                    &&& final(s).slots@[n] == (Slot {
                        auto_ignite: final(s).slots@[n].auto_ignite,
                        ..s.slots@[n]
                    })
                    &&& r->Ok_0 == (final(s).slots@[n].auto_ignite != s.slots@[n].auto_ignite)
                }
                &&& resolves(*s, provider@, ident@) != Ok::<u32, (ErrorCode, Seq<char>)>(m)
                    ==> final(s).slots@.contains_key(m) == s.slots@.contains_key(m)
                    && final(s).slots@[m] == s.slots@[m]
                &&& final(s).order == s.order
                &&& final(s).active_slot == s.active_slot
            },
{
    lemma_on_is_not_off();
    assert forall|s: &mut ProviderSlots, r: Result<bool, SwapdError>|
        s.wf() && #[trigger] call_ensures(set_auto_ignite, (s, provider, ident, state, can_ignite), r) implies {
        &&& r is Err ==> *final(s) == *s
        &&& r is Ok && resolves(*s, provider@, ident@) == Ok::<u32, (ErrorCode, Seq<char>)>(n) ==> {
            &&& lowercase(trimmed(state@)) == "on"@ || lowercase(trimmed(state@)) == "off"@
            &&& lowercase(trimmed(state@)) == "on"@ ==> final(s).slots@[n].auto_ignite
            &&& lowercase(trimmed(state@)) == "off"@ ==> !final(s).slots@[n].auto_ignite
            &&& final(s).slots@[n] == (Slot {
                auto_ignite: final(s).slots@[n].auto_ignite,
                ..s.slots@[n]
            })
            &&& r->Ok_0 == (final(s).slots@[n].auto_ignite != s.slots@[n].auto_ignite)
        }
        &&& resolves(*s, provider@, ident@) != Ok::<u32, (ErrorCode, Seq<char>)>(m)
            ==> final(s).slots@.contains_key(m) == s.slots@.contains_key(m)
            && final(s).slots@[m] == s.slots@[m]
        &&& final(s).order == s.order
        &&& final(s).active_slot == s.active_slot
    } by {
    }
}

/// An alias that is set is the name without the blanks around it; one that is unset is
/// gone. Nothing else is changed, and an edit that is refused changes nothing. No alias is
/// set that is empty, that reads as a number, or that another account answers to.
pub proof fn law_an_alias_is_set_alone(
    provider: &str,
    ident: &str,
    name: Option<&str>,
    unset: bool,
    n: u32,
    m: u32,
)
    ensures
        forall|s: &mut ProviderSlots, r: Result<bool, SwapdError>|
            s.wf() && #[trigger] call_ensures(set_alias, (s, provider, ident, name, unset), r) ==> {
                &&& r is Err ==> *final(s) == *s
                &&& r is Ok ==> name is Some != unset
                &&& r is Ok && resolves(*s, provider@, ident@) == Ok::<
                    u32,
                    (ErrorCode, Seq<char>),
                >(n) ==> {
                    &&& unset ==> final(s).slots@[n].alias is None
                    &&& !unset ==> opt_text(final(s).slots@[n].alias) == Some(trimmed(name->0@))
                    &&& !unset ==> trimmed(trimmed(name->0@)).len() > 0
                    &&& !unset ==> number32(trimmed(trimmed(name->0@))) is None
                    &&& final(s).slots@[n] == (Slot {
                        alias: final(s).slots@[n].alias,
                        ..s.slots@[n]
                    })
                    &&& r->Ok_0 == (opt_text(final(s).slots@[n].alias) != opt_text(
                        s.slots@[n].alias,
                    ))
                    &&& !unset && m != n && s.slots@.contains_key(m) ==> !(
                    s.slots@[m].alias matches Some(a) && lowercase(a@) == lowercase(
                        trimmed(trimmed(name->0@)),
                    ))
                }
                &&& resolves(*s, provider@, ident@) != Ok::<u32, (ErrorCode, Seq<char>)>(m)
                    ==> final(s).slots@.contains_key(m) == s.slots@.contains_key(m)
                    && final(s).slots@[m] == s.slots@[m]
                &&& final(s).order == s.order
                &&& final(s).active_slot == s.active_slot
            },
{
    assert forall|s: &mut ProviderSlots, r: Result<bool, SwapdError>|
        s.wf() && #[trigger] call_ensures(set_alias, (s, provider, ident, name, unset), r)
            && r is Ok && resolves(*s, provider@, ident@) == Ok::<u32, (ErrorCode, Seq<char>)>(n)
            && !unset && m != n && s.slots@.contains_key(m) implies !(
    s.slots@[m].alias matches Some(a) && lowercase(a@) == lowercase(
        trimmed(trimmed(name->0@)),
    )) by {
        let i = s.slots.lemma_position(m);
        crate::edits::lemma_no_clash(
            s.slots.items@,
            lowercase(trimmed(trimmed(name->0@))),
            Some(n),
            i,
        );
    }
}

/// An icon that is set is the text without the blanks around it, and is not empty; one that
/// is unset is gone. Nothing else is changed, and an edit that is refused changes nothing.
pub proof fn law_an_icon_is_set_alone(
    provider: &str,
    ident: &str,
    icon: Option<&str>,
    unset: bool,
    n: u32,
    m: u32,
)
    ensures
        forall|s: &mut ProviderSlots, r: Result<bool, SwapdError>|
            s.wf() && #[trigger] call_ensures(set_icon, (s, provider, ident, icon, unset), r) ==> {
                &&& r is Err ==> *final(s) == *s
                &&& r is Ok ==> icon is Some != unset
                &&& r is Ok && resolves(*s, provider@, ident@) == Ok::<
                    u32,
                    (ErrorCode, Seq<char>),
                >(n) ==> {
                    &&& unset ==> final(s).slots@[n].icon is None
                    &&& !unset ==> opt_text(final(s).slots@[n].icon) == Some(trimmed(icon->0@))
                        && trimmed(icon->0@).len() > 0
                    &&& final(s).slots@[n] == (Slot {
                        icon: final(s).slots@[n].icon,
                        ..s.slots@[n]
                    })
                    &&& r->Ok_0 == (opt_text(final(s).slots@[n].icon) != opt_text(
                        s.slots@[n].icon,
                    ))
                }
                &&& resolves(*s, provider@, ident@) != Ok::<u32, (ErrorCode, Seq<char>)>(m)
                    ==> final(s).slots@.contains_key(m) == s.slots@.contains_key(m)
                    && final(s).slots@[m] == s.slots@[m]
                &&& final(s).order == s.order
                &&& final(s).active_slot == s.active_slot
            },
{
}

proof fn lemma_ordered_at(
    slots: ProviderSlots,
    provider: Seq<char>,
    idents: Seq<String>,
    k: int,
)
    requires
        ordered_slots(slots, provider, idents) is Ok,
        0 <= k < idents.len(),
    ensures
        ordered_slots(slots, provider, idents)->Ok_0.len() == idents.len(),
        resolves(slots, provider, idents[k]@) == Ok::<u32, (ErrorCode, Seq<char>)>(
            ordered_slots(slots, provider, idents)->Ok_0[k],
        ),
    decreases idents.len(),
{
    let short = idents.drop_last();
    reveal_with_fuel(ordered_slots, 2);
    if short.len() > 0 {
        lemma_ordered_at(
            slots,
            provider,
            short,
            if k < short.len() {
                k
            } else {
                0
            },
        );
        if k < short.len() {
            assert(short[k] == idents[k]);
        }
    }
}

/// A rotation that is set stands in the order of the names: the first of them is used
/// first. It names every slot once. No account is changed, nor which one is active, and an
/// order that is refused changes nothing.
pub proof fn law_a_reorder_follows_the_names(provider: &str, idents: &Vec<String>, k: int)
    requires
        0 <= k < idents@.len(),
    ensures
        forall|s: &mut ProviderSlots, r: Result<bool, SwapdError>|
            s.wf() && #[trigger] call_ensures(reorder, (s, provider, idents), r) ==> {
                &&& r is Err ==> *final(s) == *s
                &&& r is Ok ==> {
                    &&& final(s).order@.len() == idents@.len()
                    &&& resolves(*s, provider@, idents@[k]@) == Ok::<u32, (ErrorCode, Seq<char>)>(
                        final(s).order@[k],
                    )
                    &&& final(s).order@.no_duplicates()
                    &&& forall|n: u32| #[trigger]
                        final(s).order@.contains(n) <==> s.slots@.contains_key(n)
                    &&& r->Ok_0 == (final(s).order@ != s.order@)
                }
                &&& final(s).slots == s.slots
                &&& final(s).active_slot == s.active_slot
            },
{
    assert forall|s: &mut ProviderSlots, r: Result<bool, SwapdError>|
        s.wf() && #[trigger] call_ensures(reorder, (s, provider, idents), r) && r is Ok implies {
        &&& final(s).order@.len() == idents@.len()
        &&& resolves(*s, provider@, idents@[k]@) == Ok::<u32, (ErrorCode, Seq<char>)>(
            final(s).order@[k],
        )
        &&& final(s).order@.no_duplicates()
        &&& forall|n: u32| #[trigger] final(s).order@.contains(n) <==> s.slots@.contains_key(n)
        &&& r->Ok_0 == (final(s).order@ != s.order@)
    } by {
        lemma_ordered_at(*s, provider@, idents@, k);
        crate::edits::law_reorder_is_a_permutation(*s, provider@, idents@);
    }
}

/// An account is removed only where that is confirmed, and never while it is the live
/// login.
pub proof fn law_the_live_login_is_not_removed(
    slots: &ProviderSlots,
    provider: &str,
    ident: &str,
    yes: bool,
    r: Result<(u32, String), SwapdError>,
)
    requires
        slots.wf(),
        call_ensures(check_removal, (slots, provider, ident, yes), r),
        r is Ok,
    ensures
        yes,
        slots.active_slot != Some(r->Ok_0.0),
        slots.slots@.contains_key(r->Ok_0.0),
        r->Ok_0.1@ == slots.slots@[r->Ok_0.0].email@,
        resolves(*slots, provider@, ident@) == Ok::<u32, (ErrorCode, Seq<char>)>(r->Ok_0.0),
{
    crate::switch::lemma_resolves_to_a_slot(*slots, provider@, ident@);
}

proof fn lemma_found(items: Seq<(u32, Slot)>, has: spec_fn(Slot) -> bool, n: u32)
    ensures
        all_with(items, has).contains(n) <==> exists|i: int|
            0 <= i < items.len() && (#[trigger] items[i]).0 == n && has(items[i].1),
    decreases items.len(),
{
    let out = all_with(items, has);
    if items.len() > 0 {
        let short = items.drop_last();
        lemma_found(short, has, n);
        let rest = all_with(short, has);
        assert(items[items.len() - 1] == items.last());
        if out.contains(n) {
            let k = choose|k: int| 0 <= k < out.len() && out[k] == n;
            if k < rest.len() {
                assert(rest[k] == n);
                let i = choose|i: int|
                    0 <= i < short.len() && (#[trigger] short[i]).0 == n && has(short[i].1);
                assert(items[i] == short[i]);
            }
        }
        if exists|i: int| 0 <= i < items.len() && (#[trigger] items[i]).0 == n && has(items[i].1) {
            let i = choose|i: int|
                0 <= i < items.len() && (#[trigger] items[i]).0 == n && has(items[i].1);
            if i < short.len() {
                assert(short[i] == items[i]);
                let k = choose|k: int| 0 <= k < rest.len() && rest[k] == n;
                assert(out[k] == n);
            } else {
                assert(out[out.len() - 1] == n);
            }
        }
    }
}

/// Whether an account answers to an alias, without regard to case.
pub open spec fn has_the_alias(slots: ProviderSlots, n: u32, ident: Seq<char>) -> bool {
    slots.slots@.contains_key(n) && (slots.slots@[n].alias matches Some(a) && lowercase(a@)
        == lowercase(ident))
}

/// Whether an account has an email, without regard to case.
pub open spec fn has_the_email(slots: ProviderSlots, n: u32, ident: Seq<char>) -> bool {
    slots.slots@.contains_key(n) && lowercase(slots.slots@[n].email@) == lowercase(ident)
}

proof fn lemma_answering(slots: ProviderSlots, ident: Seq<char>, n: u32)
    requires
        slots.wf(),
    ensures
        ({
            let l = lowercase(ident);
            let aliased = all_with(slots.slots.items@, crate::slots::by_alias(l));
            let mailed = all_with(slots.slots.items@, crate::slots::by_email(l));
            &&& aliased.contains(n) <==> has_the_alias(slots, n, ident)
            &&& mailed.contains(n) <==> has_the_email(slots, n, ident)
        }),
{
    let l = lowercase(ident);
    let items = slots.slots.items@;
    let a = crate::slots::by_alias(l);
    let e = crate::slots::by_email(l);
    lemma_found(items, a, n);
    lemma_found(items, e, n);
    if slots.slots@.contains_key(n) {
        let i = slots.slots.lemma_position(n);
        assert(items[i].0 == n);
    }
    assert forall|i: int| 0 <= i < items.len() && (#[trigger] items[i]).0 == n implies slots.slots@
        .contains_key(n) && slots.slots@[n] == items[i].1 by {
        slots.slots.lemma_entry(i);
    }
}

/// Whom a text names. A number names the slot of that number, and nothing else. Any other
/// text names the one account that has it as its alias; where none has, the one account that
/// has it as its email. Case does not count. A text that names two accounts, or none, is
/// refused.
pub proof fn law_a_name_stands_for_one_account(
    slots: &ProviderSlots,
    provider: &str,
    ident: &str,
    r: Result<u32, SwapdError>,
    n: u32,
    m: u32,
)
    requires
        slots.wf(),
        call_ensures(resolve, (slots, provider, ident), r),
    ensures
        number32(ident@) is Some ==> (r is Ok <==> slots.slots@.contains_key(number32(ident@)->0))
            && (r is Ok ==> r->Ok_0 == number32(ident@)->0),
        number32(ident@) is None && r is Ok ==> has_the_alias(*slots, r->Ok_0, ident@)
            || has_the_email(*slots, r->Ok_0, ident@),
        number32(ident@) is None && r is Ok && has_the_alias(*slots, n, ident@) ==> r->Ok_0 == n,
        number32(ident@) is None && r is Ok && !has_the_alias(*slots, r->Ok_0, ident@)
            && has_the_email(*slots, n, ident@) ==> r->Ok_0 == n,
        number32(ident@) is None && has_the_alias(*slots, n, ident@) && has_the_alias(
            *slots,
            m,
            ident@,
        ) && n != m ==> r is Err,
        number32(ident@) is None && r is Err && r->Err_0.code is NoSuchSlot ==> !has_the_alias(
            *slots,
            n,
            ident@,
        ) && !has_the_email(*slots, n, ident@),
        number32(ident@) is None && !(exists|x: u32| #[trigger]
            has_the_alias(*slots, x, ident@) || has_the_email(*slots, x, ident@)) ==> r is Err,
{
    if number32(ident@) is None {
        let found = answering(*slots, ident@);
        let l = lowercase(ident@);
        let aliased = all_with(slots.slots.items@, crate::slots::by_alias(l));
        let mailed = all_with(slots.slots.items@, crate::slots::by_email(l));
        lemma_answering(*slots, ident@, n);
        lemma_answering(*slots, ident@, m);
        if r is Ok {
            assert(found.contains(found[0]));
            lemma_answering(*slots, ident@, r->Ok_0);
            assert(found =~= seq![r->Ok_0]);
            if aliased.contains(n) {
                let k = choose|k: int| 0 <= k < aliased.len() && aliased[k] == n;
            }
            if mailed.contains(n) {
                let k = choose|k: int| 0 <= k < mailed.len() && mailed[k] == n;
            }
            if aliased.contains(m) {
                let k = choose|k: int| 0 <= k < aliased.len() && aliased[k] == m;
            }
        }
    }
}

/// An alias is refused exactly where it is blank, reads as a number, or is that of another
/// account.
pub proof fn law_an_alias_names_one_account(
    slots: &ProviderSlots,
    alias: &str,
    owner: Option<u32>,
    r: Result<(), SwapdError>,
    n: u32,
)
    requires
        slots.wf(),
        call_ensures(check_alias, (slots, alias, owner), r),
    ensures
        r is Ok ==> trimmed(alias@).len() > 0,
        r is Ok ==> number32(trimmed(alias@)) is None,
        r is Ok && owner != Some(n) ==> !has_the_alias(*slots, n, trimmed(alias@)),
        r is Err && trimmed(alias@).len() > 0 && number32(trimmed(alias@)) is None ==> exists|
            m: u32,
        |
            owner != Some(m) && #[trigger] has_the_alias(*slots, m, trimmed(alias@)),
{
    let l = lowercase(trimmed(alias@));
    let items = slots.slots.items@;
    if r is Ok && slots.slots@.contains_key(n) {
        let i = slots.slots.lemma_position(n);
        crate::edits::lemma_no_clash(items, l, owner, i);
    }
    if r is Err && trimmed(alias@).len() > 0 && number32(trimmed(alias@)) is None {
        let i = lemma_clash(items, l, owner);
        slots.slots.lemma_entry(i);
        assert(has_the_alias(*slots, items[i].0, trimmed(alias@)));
    }
}

proof fn lemma_clash(items: Seq<(u32, Slot)>, l: Seq<char>, owner: Option<u32>) -> (i: int)
    requires
        crate::add::first_clash(items, l, owner) is Some,
    ensures
        0 <= i < items.len(),
        Some(items[i].0) != owner,
        items[i].1.alias matches Some(a) && lowercase(a@) == l,
    decreases items.len(),
{
    let short = items.drop_last();
    if crate::add::first_clash(short, l, owner) is Some {
        let i = lemma_clash(short, l, owner);
        assert(short[i] == items[i]);
        i
    } else {
        items.len() - 1
    }
}

/// Where an account goes. One that is known stays in its slot unless another is asked for;
/// a new one takes the least free number. What another account holds is not overwritten but
/// by force, and an account that moves takes its labels along.
pub proof fn law_no_account_is_overwritten_unforced(
    existing: &ProviderSlots,
    owner: Option<u32>,
    slot: Option<u32>,
    force: bool,
    r: Result<Placement, SwapdError>,
    n: u32,
)
    requires
        existing.wf(),
        owner matches Some(o) ==> existing.slots@.contains_key(o),
        exists|f: u32| f >= 1 && !#[trigger] existing.slots@.contains_key(f),
        call_ensures(place, (existing, owner, slot, force), r),
    ensures
        r is Ok ==> r->Ok_0.slot >= 1 || owner == Some(r->Ok_0.slot),
        r is Ok && !force && existing.slots@.contains_key(r->Ok_0.slot) ==> owner == Some(
            r->Ok_0.slot,
        ),
        r is Ok && slot is Some ==> r->Ok_0.slot == slot->0,
        r is Ok && slot is None && owner is Some ==> r->Ok_0.slot == owner->0,
        r is Ok && slot is None && owner is None && 1 <= n < r->Ok_0.slot
            ==> existing.slots@.contains_key(n),
        r is Ok ==> r->Ok_0.created == !existing.slots@.contains_key(r->Ok_0.slot),
        r is Ok && owner is Some ==> r->Ok_0.prior == Some(existing.slots@[owner->0]),
        r is Ok && r->Ok_0.moved_from is Some ==> r->Ok_0.moved_from == owner
            && r->Ok_0.moved_from != Some(r->Ok_0.slot),
        r is Ok && owner is Some && owner != Some(r->Ok_0.slot) ==> r->Ok_0.moved_from == owner,
        r is Err ==> slot is Some && (slot->0 == 0 || (existing.slots@.contains_key(slot->0)
            && owner != slot && !force)),
{
}

/// To capture a login again changes who it says it is, and keeps what its owner chose: the
/// alias unless another is given, the icon, whether it is held, preferred or opened ahead,
/// and when it was added.
pub proof fn law_a_capture_keeps_the_labels(
    identity: &Identity,
    prior: &Option<Slot>,
    alias: &Option<String>,
    now: i64,
    r: Slot,
)
    requires
        call_ensures(compose, (identity, prior, alias, now), r),
    ensures
        r.email@ == identity.email@,
        r.organization_uuid@ == identity.organization_uuid@,
        r.organization_name@ == identity.organization_name@,
        r.plan == identity.plan,
        alias is Some ==> opt_text(r.alias) == Some(alias->0@),
        alias is None && prior is Some ==> r.alias == prior->0.alias,
        alias is None && prior is None ==> r.alias is None,
        prior is Some ==> r.icon == prior->0.icon && r.disabled == prior->0.disabled && r.preferred
            == prior->0.preferred && r.auto_ignite == prior->0.auto_ignite,
        prior is Some && prior->0.added is Some ==> opt_text(r.added) == opt_text(prior->0.added),
        prior is None ==> r.icon is None && !r.disabled && !r.preferred && !r.auto_ignite,
{
}

} // verus!
