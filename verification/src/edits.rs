//! Edits of the slot table: aliases, icons, holds, preferences and the order.
//!
//! An edit names its account inside the table that it changes, and answers whether it
//! changed anything.

use vstd::prelude::*;
use vstd::string::*;

use crate::add::{alias_problem, check_alias, clashes, first_clash};
use crate::errors::{error_about, is_error, ErrorCode, SwapdError};
use crate::numfmt::{show_slots, slot_list};
use crate::slots::{by_alias, lists, lists_all, ProviderSlots, Slot};
use crate::switch::{all_with, answering, resolve, resolves};
use crate::text::{decimal, lower, lowercase, opt_str, opt_text, same, same_opt, show, trim, trimmed};

verus! {

/// Whether an edit failed with an error, and changed nothing.
pub open spec fn refused(
    before: ProviderSlots,
    after: ProviderSlots,
    r: Result<bool, SwapdError>,
    code: ErrorCode,
    message: Seq<char>,
) -> bool {
    after == before && (r matches Err(e) && is_error(e, code, message))
}

/// Whether an edit replaced the row of a slot, and nothing else, and answered whether
/// it changed anything.
pub open spec fn replaced(
    before: ProviderSlots,
    after: ProviderSlots,
    r: Result<bool, SwapdError>,
    n: u32,
    row: Slot,
    changed: bool,
) -> bool {
    &&& r == Ok::<bool, SwapdError>(changed)
    &&& after.wf()
    &&& after.order == before.order
    &&& after.active_slot == before.active_slot
    &&& changed ==> after.slots@ == before.slots@.insert(n, row)
    &&& !changed ==> after == before
}

/// Takes the row of a slot out, to be put back.
fn take_row(slots: &mut ProviderSlots, n: u32) -> (r: Slot)
    requires
        old(slots).wf(),
        old(slots).slots@.contains_key(n),
    ensures
        final(slots).wf(),
        final(slots).slots@ == old(slots).slots@.remove(n),
        final(slots).order == old(slots).order,
        final(slots).active_slot == old(slots).active_slot,
        r == old(slots).slots@[n],
{
    slots.slots.remove(n).unwrap()
}

/// The alias that is asked for: a name, or none; naming both or neither is an error.
pub open spec fn wanted_alias(name: Option<Seq<char>>, unset: bool) -> Result<
    Option<Seq<char>>,
    Seq<char>,
> {
    match (name, unset) {
        (Some(n), false) => Ok(Some(trimmed(n))),
        (None, true) => Ok(None),
        _ => Err("name a new alias or pass --unset, not both and not neither"@),
    }
}

/// Gives a slot an alias, or takes it away.
pub fn set_alias(
    slots: &mut ProviderSlots,
    provider: &str,
    ident: &str,
    name: Option<&str>,
    unset: bool,
) -> (r: Result<bool, SwapdError>)
    requires
        old(slots).wf(),
    ensures
        match wanted_alias(opt_str(name), unset) {
            Err(m) => refused(*old(slots), *final(slots), r, ErrorCode::InvalidInput, m),
            Ok(wanted) => match resolves(*old(slots), provider@, ident@) {
                Err(x) => refused(*old(slots), *final(slots), r, x.0, x.1),
                Ok(n) => if wanted is Some && alias_problem(
                    *old(slots),
                    wanted->0,
                    Some(n),
                ) is Some {
                    refused(
                        *old(slots),
                        *final(slots),
                        r,
                        ErrorCode::InvalidInput,
                        alias_problem(*old(slots), wanted->0, Some(n))->0,
                    )
                } else {
                    let row = old(slots).slots@[n];
                    let alias = final(slots).slots@[n].alias;
                    opt_text(alias) == wanted && replaced(
                        *old(slots),
                        *final(slots),
                        r,
                        n,
                        Slot { alias, ..row },
                        opt_text(row.alias) != wanted,
                    )
                },
            },
        },
{
    let wanted: Option<String> = match (name, unset) {
        (Some(n), false) => Some(trim(n)),
        (None, true) => None,
        _ => {
            return Err(
                SwapdError::new(
                    ErrorCode::InvalidInput,
                    "name a new alias or pass --unset, not both and not neither".to_owned(),
                ),
            );
        },
    };
    let n: u32 = match resolve(slots, provider, ident) {
        Ok(n) => n,
        Err(e) => {
            return Err(e);
        },
    };
    if let Some(a) = &wanted {
        match check_alias(slots, a.as_str(), Some(n)) {
            Ok(_) => {},
            Err(e) => {
                return Err(e);
            },
        }
    }
    let same_name: bool = match slots.slots.get(n) {
        Some(row) => same_opt(&row.alias, &wanted),
        None => true,
    };
    if same_name {
        return Ok(false);
    }
    let mut row: Slot = take_row(slots, n);
    row.alias = wanted;
    slots.slots.insert(n, row);
    assert(old(slots).slots@.remove(n).insert(n, row) =~= old(slots).slots@.insert(n, row));
    Ok(true)
}

/// The icon that is asked for: one, or none; naming both, neither or an empty one is
/// an error.
pub open spec fn wanted_icon(icon: Option<Seq<char>>, unset: bool) -> Result<
    Option<Seq<char>>,
    Seq<char>,
> {
    match (icon, unset) {
        (Some(i), false) => if trimmed(i).len() == 0 {
            Err("an icon cannot be empty; pass --unset to clear it"@)
        } else {
            Ok(Some(trimmed(i)))
        },
        (None, true) => Ok(None),
        _ => Err("give an icon or pass --unset, not both and not neither"@),
    }
}

/// Gives a slot an icon, or takes it away.
pub fn set_icon(
    slots: &mut ProviderSlots,
    provider: &str,
    ident: &str,
    icon: Option<&str>,
    unset: bool,
) -> (r: Result<bool, SwapdError>)
    requires
        old(slots).wf(),
    ensures
        match wanted_icon(opt_str(icon), unset) {
            Err(m) => refused(*old(slots), *final(slots), r, ErrorCode::InvalidInput, m),
            Ok(wanted) => match resolves(*old(slots), provider@, ident@) {
                Err(x) => refused(*old(slots), *final(slots), r, x.0, x.1),
                Ok(n) => {
                    let row = old(slots).slots@[n];
                    let icon = final(slots).slots@[n].icon;
                    opt_text(icon) == wanted && replaced(
                        *old(slots),
                        *final(slots),
                        r,
                        n,
                        Slot { icon, ..row },
                        opt_text(row.icon) != wanted,
                    )
                },
            },
        },
{
    let wanted: Option<String> = match (icon, unset) {
        (Some(i), false) => {
            let i: String = trim(i);
            if i.as_str().is_empty() {
                return Err(
                    SwapdError::new(
                        ErrorCode::InvalidInput,
                        "an icon cannot be empty; pass --unset to clear it".to_owned(),
                    ),
                );
            }
            Some(i)
        },
        (None, true) => None,
        _ => {
            return Err(
                SwapdError::new(
                    ErrorCode::InvalidInput,
                    "give an icon or pass --unset, not both and not neither".to_owned(),
                ),
            );
        },
    };
    let n: u32 = match resolve(slots, provider, ident) {
        Ok(n) => n,
        Err(e) => {
            return Err(e);
        },
    };
    let same_icon: bool = match slots.slots.get(n) {
        Some(row) => same_opt(&row.icon, &wanted),
        None => true,
    };
    if same_icon {
        return Ok(false);
    }
    let mut row: Slot = take_row(slots, n);
    row.icon = wanted;
    slots.slots.insert(n, row);
    assert(old(slots).slots@.remove(n).insert(n, row) =~= old(slots).slots@.insert(n, row));
    Ok(true)
}

/// Takes a slot out of the rotation, or lets it back in.
pub fn hold(slots: &mut ProviderSlots, provider: &str, ident: &str, disabled: bool) -> (r: Result<
    bool,
    SwapdError,
>)
    requires
        old(slots).wf(),
    ensures
        match resolves(*old(slots), provider@, ident@) {
            Err(x) => refused(*old(slots), *final(slots), r, x.0, x.1),
            Ok(n) => replaced(
                *old(slots),
                *final(slots),
                r,
                n,
                Slot { disabled, ..old(slots).slots@[n] },
                old(slots).slots@[n].disabled != disabled,
            ),
        },
{
    let n: u32 = match resolve(slots, provider, ident) {
        Ok(n) => n,
        Err(e) => {
            return Err(e);
        },
    };
    let unchanged: bool = match slots.slots.get(n) {
        Some(row) => row.disabled == disabled,
        None => true,
    };
    if unchanged {
        return Ok(false);
    }
    let mut row: Slot = take_row(slots, n);
    row.disabled = disabled;
    slots.slots.insert(n, row);
    assert(old(slots).slots@.remove(n).insert(n, row) =~= old(slots).slots@.insert(n, row));
    Ok(true)
}

/// The state that a word asks for.
pub open spec fn on_or_off(state: Seq<char>) -> Option<bool> {
    let s = lowercase(trimmed(state));
    if s == "on"@ {
        Some(true)
    } else if s == "off"@ {
        Some(false)
    } else {
        None
    }
}

/// Makes a slot preferred, or not. `can_prefer` says whether the provider has a
/// notion of it.
pub fn prefer(
    slots: &mut ProviderSlots,
    provider: &str,
    ident: &str,
    state: &str,
    can_prefer: bool,
) -> (r: Result<bool, SwapdError>)
    requires
        old(slots).wf(),
    ensures
        match on_or_off(state@) {
            None => refused(
                *old(slots),
                *final(slots),
                r,
                ErrorCode::InvalidInput,
                "prefer expects 'on' or 'off', got '"@ + lowercase(trimmed(state@)) + "'"@,
            ),
            Some(wanted) => if wanted && !can_prefer {
                refused(
                    *old(slots),
                    *final(slots),
                    r,
                    ErrorCode::Unsupported,
                    ""@ + provider@ + " has no notion of a preferred account"@,
                )
            } else {
                match resolves(*old(slots), provider@, ident@) {
                    Err(x) => refused(*old(slots), *final(slots), r, x.0, x.1),
                    Ok(n) => replaced(
                        *old(slots),
                        *final(slots),
                        r,
                        n,
                        Slot { preferred: wanted, ..old(slots).slots@[n] },
                        old(slots).slots@[n].preferred != wanted,
                    ),
                }
            },
        },
{
    let word: String = lower(trim(state).as_str());
    let wanted: bool = if same(word.as_str(), "on") {
        true
    } else if same(word.as_str(), "off") {
        false
    } else {
        return Err(
            error_about(
                ErrorCode::InvalidInput,
                "prefer expects 'on' or 'off', got '",
                word.as_str(),
                "'",
            ),
        );
    };
    if wanted && !can_prefer {
        return Err(
            error_about(
                ErrorCode::Unsupported,
                "",
                provider,
                " has no notion of a preferred account",
            ),
        );
    }
    let n: u32 = match resolve(slots, provider, ident) {
        Ok(n) => n,
        Err(e) => {
            return Err(e);
        },
    };
    let unchanged: bool = match slots.slots.get(n) {
        Some(row) => row.preferred == wanted,
        None => true,
    };
    if unchanged {
        return Ok(false);
    }
    let mut row: Slot = take_row(slots, n);
    row.preferred = wanted;
    slots.slots.insert(n, row);
    assert(old(slots).slots@.remove(n).insert(n, row) =~= old(slots).slots@.insert(n, row));
    Ok(true)
}

/// Has a slot's windows opened ahead of use, or not. `can_ignite` says whether the
/// provider can.
pub fn set_auto_ignite(
    slots: &mut ProviderSlots,
    provider: &str,
    ident: &str,
    state: &str,
    can_ignite: bool,
) -> (r: Result<bool, SwapdError>)
    requires
        old(slots).wf(),
    ensures
        match on_or_off(state@) {
            None => refused(
                *old(slots),
                *final(slots),
                r,
                ErrorCode::InvalidInput,
                "auto-ignite expects 'on' or 'off', got '"@ + lowercase(trimmed(state@)) + "'"@,
            ),
            Some(wanted) => if wanted && !can_ignite {
                refused(
                    *old(slots),
                    *final(slots),
                    r,
                    ErrorCode::Unsupported,
                    ""@ + provider@ + " cannot ignite an account"@,
                )
            } else {
                match resolves(*old(slots), provider@, ident@) {
                    Err(x) => refused(*old(slots), *final(slots), r, x.0, x.1),
                    Ok(n) => replaced(
                        *old(slots),
                        *final(slots),
                        r,
                        n,
                        Slot { auto_ignite: wanted, ..old(slots).slots@[n] },
                        old(slots).slots@[n].auto_ignite != wanted,
                    ),
                }
            },
        },
{
    let word: String = lower(trim(state).as_str());
    let wanted: bool = if same(word.as_str(), "on") {
        true
    } else if same(word.as_str(), "off") {
        false
    } else {
        return Err(
            error_about(
                ErrorCode::InvalidInput,
                "auto-ignite expects 'on' or 'off', got '",
                word.as_str(),
                "'",
            ),
        );
    };
    if wanted && !can_ignite {
        return Err(error_about(ErrorCode::Unsupported, "", provider, " cannot ignite an account"));
    }
    let n: u32 = match resolve(slots, provider, ident) {
        Ok(n) => n,
        Err(e) => {
            return Err(e);
        },
    };
    let unchanged: bool = match slots.slots.get(n) {
        Some(row) => row.auto_ignite == wanted,
        None => true,
    };
    if unchanged {
        return Ok(false);
    }
    let mut row: Slot = take_row(slots, n);
    row.auto_ignite = wanted;
    slots.slots.insert(n, row);
    assert(old(slots).slots@.remove(n).insert(n, row) =~= old(slots).slots@.insert(n, row));
    Ok(true)
}

/// The slots that names stand for, in turn; an error where one stands for none or
/// comes twice.
pub open spec fn ordered_slots(slots: ProviderSlots, provider: Seq<char>, idents: Seq<String>) -> Result<
    Seq<u32>,
    (ErrorCode, Seq<char>),
>
    decreases idents.len(),
{
    if idents.len() == 0 {
        Ok(Seq::empty())
    } else {
        match ordered_slots(slots, provider, idents.drop_last()) {
            Err(x) => Err(x),
            Ok(order) => match resolves(slots, provider, idents.last()@) {
                Err(x) => Err(x),
                Ok(n) => if order.contains(n) {
                    Err(
                        (
                            ErrorCode::InvalidInput,
                            "slot "@ + decimal(n as nat) + " is named twice"@,
                        ),
                    )
                } else {
                    Ok(order.push(n))
                },
            },
        }
    }
}

/// The slots that an order does not name, by number.
pub open spec fn left_out(items: Seq<(u32, Slot)>, order: Seq<u32>) -> Seq<u32>
    decreases items.len(),
{
    if items.len() == 0 {
        Seq::empty()
    } else {
        let rest = left_out(items.drop_last(), order);
        if order.contains(items.last().0) {
            rest
        } else {
            rest.push(items.last().0)
        }
    }
}

proof fn lemma_order_error_stays(
    slots: ProviderSlots,
    provider: Seq<char>,
    idents: Seq<String>,
    n: int,
)
    requires
        0 <= n <= idents.len(),
        ordered_slots(slots, provider, idents.take(n)) is Err,
    ensures
        ordered_slots(slots, provider, idents) == ordered_slots(slots, provider, idents.take(n)),
    decreases idents.len() - n,
{
    if n == idents.len() {
        assert(idents.take(n) =~= idents);
    } else {
        assert(idents.take(n + 1).drop_last() =~= idents.take(n));
        lemma_order_error_stays(slots, provider, idents, n + 1);
    }
}

/// Sets the rotation order: every slot must be named, once.
pub fn reorder(slots: &mut ProviderSlots, provider: &str, idents: &Vec<String>) -> (r: Result<
    bool,
    SwapdError,
>)
    requires
        old(slots).wf(),
    ensures
        if idents@.len() == 0 {
            refused(
                *old(slots),
                *final(slots),
                r,
                ErrorCode::InvalidInput,
                "reorder takes the new order: every slot, once"@,
            )
        } else {
            match ordered_slots(*old(slots), provider@, idents@) {
                Err(x) => refused(*old(slots), *final(slots), r, x.0, x.1),
                Ok(order) => {
                    let missing = left_out(old(slots).slots.items@, order);
                    if missing.len() > 0 {
                        refused(
                            *old(slots),
                            *final(slots),
                            r,
                            ErrorCode::InvalidInput,
                            "the new order leaves out slot "@ + slot_list(missing)
                                + "; name every slot"@,
                        )
                    } else {
                        &&& r == Ok::<bool, SwapdError>(old(slots).order@ != order)
                        &&& final(slots).order@ == order
                        &&& final(slots).slots == old(slots).slots
                        &&& final(slots).active_slot == old(slots).active_slot
                    }
                },
            }
        },
{
    if idents.len() == 0 {
        return Err(
            SwapdError::new(
                ErrorCode::InvalidInput,
                "reorder takes the new order: every slot, once".to_owned(),
            ),
        );
    }
    let ghost before = *slots;
    let mut order: Vec<u32> = Vec::new();
    let mut i: usize = 0;
    assert(idents@.take(0) =~= Seq::empty());
    while i < idents.len()
        invariant
            i <= idents.len(),
            idents@.len() > 0,
            slots.wf(),
            *slots == before,
            before == *old(slots),
            ordered_slots(before, provider@, idents@.take(i as int)) == Ok::<
                Seq<u32>,
                (ErrorCode, Seq<char>),
            >(order@),
        decreases idents.len() - i,
    {
        assert(idents@.take(i + 1).drop_last() =~= idents@.take(i as int));
        let n: u32 = match resolve(slots, provider, idents[i].as_str()) {
            Ok(n) => n,
            Err(e) => {
                proof {
                    lemma_order_error_stays(before, provider@, idents@, i + 1);
                }
                return Err(e);
            },
        };
        if lists(&order, n) {
            proof {
                lemma_order_error_stays(before, provider@, idents@, i + 1);
            }
            return Err(
                error_about(
                    ErrorCode::InvalidInput,
                    "slot ",
                    show(n as u64).as_str(),
                    " is named twice",
                ),
            );
        }
        order.push(n);
        i += 1;
    }
    assert(idents@.take(idents@.len() as int) =~= idents@);
    let ghost items = slots.slots.items@;
    let mut missing: Vec<u32> = Vec::new();
    let mut k: usize = 0;
    assert(items.take(0) =~= Seq::empty());
    while k < slots.slots.items.len()
        invariant
            k <= items.len(),
            *slots == before,
            items == slots.slots.items@,
            missing@ == left_out(items.take(k as int), order@),
        decreases items.len() - k,
    {
        assert(items.take(k + 1).drop_last() =~= items.take(k as int));
        if !lists(&order, slots.slots.items[k].0) {
            missing.push(slots.slots.items[k].0);
        }
        k += 1;
    }
    assert(items.take(items.len() as int) =~= items);
    if missing.len() > 0 {
        return Err(
            error_about(
                ErrorCode::InvalidInput,
                "the new order leaves out slot ",
                show_slots(&missing).as_str(),
                "; name every slot",
            ),
        );
    }
    let unchanged: bool = same_order(&slots.order, &order);
    if unchanged {
        return Ok(false);
    }
    slots.order = order;
    Ok(true)
}

/// Whether two orders are the same.
fn same_order(a: &Vec<u32>, b: &Vec<u32>) -> (r: bool)
    ensures
        r == (a@ == b@),
{
    if a.len() != b.len() {
        return false;
    }
    let mut i: usize = 0;
    while i < a.len()
        invariant
            i <= a.len(),
            a@.len() == b@.len(),
            forall|k: int| 0 <= k < i ==> a@[k] == b@[k],
        decreases a.len() - i,
    {
        if a[i] != b[i] {
            return false;
        }
        i += 1;
    }
    assert(a@ =~= b@);
    true
}

proof fn lemma_ordered(slots: ProviderSlots, provider: Seq<char>, idents: Seq<String>)
    requires
        slots.wf(),
    ensures
        ordered_slots(slots, provider, idents) matches Ok(order) ==> order.no_duplicates() && (
        forall|n: u32| #[trigger] order.contains(n) ==> slots.slots@.contains_key(n)),
    decreases idents.len(),
{
    if idents.len() > 0 {
        lemma_ordered(slots, provider, idents.drop_last());
        if let Ok(order) = ordered_slots(slots, provider, idents) {
            let rest = ordered_slots(slots, provider, idents.drop_last())->Ok_0;
            let n = resolves(slots, provider, idents.last()@)->Ok_0;
            crate::switch::lemma_resolves_to_a_slot(slots, provider, idents.last()@);
            assert forall|m: u32| #[trigger] order.contains(m) implies slots.slots@.contains_key(
                m,
            ) by {
                let i = choose|i: int| 0 <= i < order.len() && order[i] == m;
                if i < rest.len() {
                    assert(rest[i] == m);
                    assert(rest.contains(m));
                }
            }
        }
    }
}

proof fn lemma_left_out(items: Seq<(u32, Slot)>, order: Seq<u32>)
    requires
        left_out(items, order).len() == 0,
    ensures
        forall|i: int| 0 <= i < items.len() ==> order.contains((#[trigger] items[i]).0),
    decreases items.len(),
{
    if items.len() > 0 {
        lemma_left_out(items.drop_last(), order);
        assert forall|i: int| 0 <= i < items.len() implies order.contains(
            (#[trigger] items[i]).0,
        ) by {
            if i < items.len() - 1 {
                assert(items.drop_last()[i] == items[i]);
            }
        }
    }
}

/// An order that is accepted names every slot once, and nothing else.
pub proof fn law_reorder_is_a_permutation(slots: ProviderSlots, provider: Seq<char>, idents: Seq<
    String,
>)
    requires
        slots.wf(),
        ordered_slots(slots, provider, idents) is Ok,
        left_out(slots.slots.items@, ordered_slots(slots, provider, idents)->Ok_0).len() == 0,
    ensures
        lists_all(ordered_slots(slots, provider, idents)->Ok_0, slots.slots@),
{
    let order = ordered_slots(slots, provider, idents)->Ok_0;
    lemma_ordered(slots, provider, idents);
    lemma_left_out(slots.slots.items@, order);
    assert forall|n: u32| #[trigger] order.contains(n) <==> slots.slots@.contains_key(n) by {
        if slots.slots@.contains_key(n) {
            let i = slots.slots.lemma_position(n);
            assert(order.contains(slots.slots.items@[i].0));
        }
    }
}

/// Checks that an account may be removed: it is confirmed, named, and not the live
/// login. Answers its slot and email.
pub fn check_removal(slots: &ProviderSlots, provider: &str, ident: &str, yes: bool) -> (r: Result<
    (u32, String),
    SwapdError,
>)
    requires
        slots.wf(),
    ensures
        if !yes {
            r matches Err(e) && is_error(
                e,
                ErrorCode::InvalidInput,
                "removing an account deletes its stored login; pass --yes to confirm"@,
            )
        } else {
            match resolves(*slots, provider@, ident@) {
                Err(x) => r matches Err(e) && is_error(e, x.0, x.1),
                Ok(n) => if slots.active_slot == Some(n) {
                    r matches Err(e) && is_error(
                        e,
                        ErrorCode::InvalidInput,
                        "slot "@ + decimal(n as nat) + " is the live login; switch away first"@,
                    )
                } else {
                    r == Ok::<(u32, String), SwapdError>((n, slots.slots@[n].email))
                },
            }
        },
{
    if !yes {
        return Err(
            SwapdError::new(
                ErrorCode::InvalidInput,
                "removing an account deletes its stored login; pass --yes to confirm".to_owned(),
            ),
        );
    }
    let n: u32 = match resolve(slots, provider, ident) {
        Ok(n) => n,
        Err(e) => {
            return Err(e);
        },
    };
    let live: bool = match slots.active_slot {
        Some(a) => a == n,
        None => false,
    };
    if live {
        return Err(
            error_about(
                ErrorCode::InvalidInput,
                "slot ",
                show(n as u64).as_str(),
                " is the live login; switch away first",
            ),
        );
    }
    Ok((n, slots.slots.get(n).unwrap().email.clone()))
}

/// Whether a slot's row has another fingerprint than this.
pub open spec fn stamped_otherwise(
    slots: ProviderSlots,
    n: u32,
    fingerprint: Option<String>,
) -> bool {
    slots.slots@.contains_key(n) && opt_text(slots.slots@[n].fingerprint) != opt_text(fingerprint)
}

/// Stamps a slot with the fingerprint of the login that it holds now; returns whether
/// that changed anything. The stamp is what lifts a quarantine, so it has to follow
/// every login that is stored.
pub fn record_slot_fingerprint(
    slots: &mut ProviderSlots,
    n: u32,
    fingerprint: Option<String>,
) -> (r: bool)
    requires
        old(slots).wf(),
    ensures
        final(slots).wf(),
        r == stamped_otherwise(*old(slots), n, fingerprint),
        !r ==> *final(slots) == *old(slots),
        r ==> final(slots).slots@ == old(slots).slots@.insert(
            n,
            Slot { fingerprint, ..old(slots).slots@[n] },
        ),
        final(slots).order == old(slots).order,
        final(slots).active_slot == old(slots).active_slot,
{
    match slots.slots.get(n) {
        Some(row) => {
            if same_opt(&row.fingerprint, &fingerprint) {
                return false;
            }
        },
        None => {
            return false;
        },
    }
    let ghost before = slots.slots@;
    let mut row: Slot = take_row(slots, n);
    row.fingerprint = fingerprint;
    slots.slots.insert(n, row);
    assert(slots.slots@ =~= before.insert(n, row));
    true
}

/// Where no other slot answers to an alias, none does.
pub proof fn lemma_no_clash(items: Seq<(u32, Slot)>, l: Seq<char>, owner: Option<u32>, i: int)
    requires
        first_clash(items, l, owner) is None,
        0 <= i < items.len(),
    ensures
        !clashes(items[i], l, owner),
    decreases items.len(),
{
    if i < items.len() - 1 {
        lemma_no_clash(items.drop_last(), l, owner, i);
    }
}

/// Where one slot alone has a property, it alone is found.
proof fn lemma_only_one(items: Seq<(u32, Slot)>, suits: spec_fn(Slot) -> bool, i: int)
    requires
        0 <= i <= items.len(),
        i < items.len() ==> suits(items[i].1),
        forall|j: int| 0 <= j < items.len() && j != i ==> !suits((#[trigger] items[j]).1),
    ensures
        all_with(items, suits) == if i < items.len() {
            seq![items[i].0]
        } else {
            Seq::empty()
        },
    decreases items.len(),
{
    if items.len() > 0 {
        let rest = items.drop_last();
        assert forall|j: int| 0 <= j < rest.len() && j != i implies !suits((#[trigger] rest[j]).1) by {
            assert(!suits(items[j].1));
        }
        lemma_only_one(
            rest,
            suits,
            if i < rest.len() {
                i
            } else {
                rest.len() as int
            },
        );
        assert(all_with(items, suits) =~= if i < items.len() {
            seq![items[i].0]
        } else {
            Seq::empty()
        });
    }
}

/// An alias that a slot was given names that slot from then on.
pub proof fn law_an_alias_names_its_slot(
    before: ProviderSlots,
    after: ProviderSlots,
    provider: Seq<char>,
    n: u32,
    alias: Seq<char>,
)
    requires
        before.wf(),
        after.wf(),
        trimmed(alias) == alias,
        alias_problem(before, alias, Some(n)) is None,
        after.slots@ == before.slots@.insert(n, after.slots@[n]),
        opt_text(after.slots@[n].alias) == Some(alias),
    ensures
        resolves(after, provider, alias) == Ok::<u32, (ErrorCode, Seq<char>)>(n),
{
    let l = lowercase(alias);
    let items = after.slots.items@;
    let suits = by_alias(l);
    let i = after.slots.lemma_position(n);
    assert(suits(items[i].1));
    assert forall|j: int| 0 <= j < items.len() && j != i implies !suits((#[trigger] items[j]).1) by {
        after.slots.lemma_entry(j);
        let m = items[j].0;
        assert(m != n) by {
            if j < i {
                assert(items[j].0 < items[i].0);
            } else {
                assert(items[i].0 < items[j].0);
            }
        }
        assert(before.slots@.contains_key(m) && before.slots@[m] == items[j].1);
        let k = before.slots.lemma_position(m);
        lemma_no_clash(before.slots.items@, l, Some(n), k);
    }
    lemma_only_one(items, suits, i);
    assert(answering(after, alias) =~= seq![n]);
}

} // verus!
