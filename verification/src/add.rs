//! Registering an account: where it goes, and what its row says.

use vstd::prelude::*;
use vstd::string::*;

use crate::collect::{is_owned_by, owned_by, Identity};
use crate::errors::{error_about, is_error, ErrorCode, SwapdError};
use crate::slots::{alias_is, first_with, has_alias, lists_all, without, ProviderSlots, Slot};
use crate::text::{
    begins, copy_opt, decimal, lower, lowercase, number32, opt_str, opt_text, parse_u32, show,
    starts_with, trim, trimmed,
};
use crate::timefmt::{format_ts, rfc3339_text, whole_seconds};

verus! {

/// What registering an account answers.
#[derive(Debug)]
pub struct AddOutput {
    pub schema_version: u32,
    pub slot: u32,
    pub email: String,
    /// Whether the slot was free; not where an account was captured again in place.
    pub created: bool,
    /// The slot that the account was moved from.
    pub moved_from: Option<u32>,
}

/// What a caller asks for.
#[derive(Debug)]
pub struct AddOpts {
    pub slot: Option<u32>,
    pub alias: Option<String>,
    pub force: bool,
}

/// Why the live login cannot be captured: there is none, or it is an API key.
pub open spec fn capture_problem(provider: Seq<char>, bytes: Option<Seq<char>>) -> Option<
    (ErrorCode, Seq<char>),
> {
    match bytes {
        Some(b) => if trimmed(b).len() == 0 {
            Some(
                (
                    ErrorCode::NoSuchSlot,
                    "no active "@ + provider + " login found; log in first"@,
                ),
            )
        } else if begins(trimmed(b), "sk-ant-api"@) {
            Some(
                (
                    ErrorCode::InvalidInput,
                    "the active login is an API key; add it with `swapd add-token -` instead"@,
                ),
            )
        } else {
            None
        },
        None => Some(
            (ErrorCode::NoSuchSlot, "no active "@ + provider + " login found; log in first"@),
        ),
    }
}

/// Checks that the live login can be captured.
pub fn check_capture(provider: &str, bytes: Option<&str>) -> (r: Result<(), SwapdError>)
    ensures
        match capture_problem(provider@, opt_str(bytes)) {
            Some(x) => r matches Err(e) && is_error(e, x.0, x.1),
            None => r is Ok,
        },
{
    let login: String = match bytes {
        Some(b) => trim(b),
        None => String::new(),
    };
    if login.as_str().is_empty() {
        return Err(
            error_about(
                ErrorCode::NoSuchSlot,
                "no active ",
                provider,
                " login found; log in first",
            ),
        );
    }
    if starts_with(login.as_str(), "sk-ant-api") {
        return Err(
            SwapdError::new(
                ErrorCode::InvalidInput,
                "the active login is an API key; add it with `swapd add-token -` instead".to_owned(),
            ),
        );
    }
    Ok(())
}

/// Whether a slot is another than one and answers to an alias.
pub open spec fn clashes(item: (u32, Slot), l: Seq<char>, owner: Option<u32>) -> bool {
    Some(item.0) != owner && alias_is(item.1, l)
}

/// The first other slot that answers to an alias.
pub open spec fn first_clash(items: Seq<(u32, Slot)>, l: Seq<char>, owner: Option<u32>) -> Option<
    u32,
>
    decreases items.len(),
{
    if items.len() == 0 {
        None
    } else {
        match first_clash(items.drop_last(), l, owner) {
            Some(n) => Some(n),
            None => if clashes(items.last(), l, owner) {
                Some(items.last().0)
            } else {
                None
            },
        }
    }
}

proof fn lemma_first_clash_stays(items: Seq<(u32, Slot)>, l: Seq<char>, owner: Option<u32>, n: int)
    requires
        0 <= n <= items.len(),
        first_clash(items.take(n), l, owner) is Some,
    ensures
        first_clash(items, l, owner) == first_clash(items.take(n), l, owner),
    decreases items.len() - n,
{
    if n == items.len() {
        assert(items.take(n) =~= items);
    } else {
        assert(items.take(n + 1).drop_last() =~= items.take(n));
        lemma_first_clash_stays(items, l, owner, n + 1);
    }
}

/// Checks that a login names an account: one that was captured, or one that a sign-in
/// gave.
pub fn check_named(email: &str, signed_in: bool) -> (r: Result<(), SwapdError>)
    ensures
        email@.len() > 0 ==> r is Ok,
        email@.len() == 0 ==> (r matches Err(e) && is_error(
            e,
            ErrorCode::InvalidInput,
            if signed_in {
                "the sign-in did not name an account; try again"@
            } else {
                "the active login does not name an account; log in again"@
            },
        )),
{
    if !email.is_empty() {
        return Ok(());
    }
    Err(
        SwapdError::new(
            ErrorCode::InvalidInput,
            if signed_in {
                "the sign-in did not name an account; try again".to_owned()
            } else {
                "the active login does not name an account; log in again".to_owned()
            },
        ),
    )
}

/// What is wrong with an alias: it is empty, it is a number, or another slot has it.
pub open spec fn alias_problem(slots: ProviderSlots, alias: Seq<char>, owner: Option<u32>) -> Option<
    Seq<char>,
> {
    let a = trimmed(alias);
    if a.len() == 0 {
        Some("an alias cannot be empty"@)
    } else if number32(a) is Some {
        Some("'"@ + a + "' would be read as a slot number, not an alias"@)
    } else {
        match first_clash(slots.slots.items@, lowercase(a), owner) {
            Some(n) => Some("alias '"@ + a + ("' is already used by slot "@ + decimal(n as nat))),
            None => None,
        }
    }
}

/// Checks an alias: it must name one account, and must not be a number, which would
/// be read as a slot.
pub fn check_alias(slots: &ProviderSlots, alias: &str, owner: Option<u32>) -> (r: Result<
    (),
    SwapdError,
>)
    ensures
        match alias_problem(*slots, alias@, owner) {
            Some(m) => r matches Err(e) && is_error(e, ErrorCode::InvalidInput, m),
            None => r is Ok,
        },
{
    let a: String = trim(alias);
    if a.as_str().is_empty() {
        return Err(
            SwapdError::new(ErrorCode::InvalidInput, "an alias cannot be empty".to_owned()),
        );
    }
    if parse_u32(a.as_str()).is_some() {
        return Err(
            error_about(
                ErrorCode::InvalidInput,
                "'",
                a.as_str(),
                "' would be read as a slot number, not an alias",
            ),
        );
    }
    let l: String = lower(a.as_str());
    let ghost items = slots.slots.items@;
    let mut i: usize = 0;
    assert(items.take(0) =~= Seq::empty());
    while i < slots.slots.items.len()
        invariant
            i <= items.len(),
            items == slots.slots.items@,
            a@ == trimmed(alias@),
            a@.len() > 0,
            number32(a@) is None,
            l@ == lowercase(a@),
            first_clash(items.take(i as int), l@, owner) is None,
        decreases items.len() - i,
    {
        assert(items.take(i + 1).drop_last() =~= items.take(i as int));
        let n: u32 = slots.slots.items[i].0;
        let own: bool = match owner {
            Some(o) => o == n,
            None => false,
        };
        if !own && has_alias(&slots.slots.items[i].1, l.as_str()) {
            proof {
                lemma_first_clash_stays(items, l@, owner, i + 1);
            }
            return Err(
                error_about(
                    ErrorCode::InvalidInput,
                    "alias '",
                    a.as_str(),
                    "' is already used by slot ".to_owned().concat(
                        show(n as u64).as_str(),
                    ).as_str(),
                ),
            );
        }
        i += 1;
    }
    assert(items.take(items.len() as int) =~= items);
    Ok(())
}

/// The first slot that belongs to an identity.
pub open spec fn owner_of(slots: ProviderSlots, who: Identity) -> Option<u32> {
    first_with(slots.slots.items@, crate::switch::by_owner(who))
}

/// The first slot that belongs to an identity.
pub fn find_owner(slots: &ProviderSlots, who: &Identity) -> (r: Option<u32>)
    requires
        slots.wf(),
    ensures
        r == owner_of(*slots, *who),
        r matches Some(n) ==> slots.slots@.contains_key(n) && owned_by(slots.slots@[n], *who),
{
    let ghost items = slots.slots.items@;
    let ghost has = crate::switch::by_owner(*who);
    let mut i: usize = 0;
    assert(items.take(0) =~= Seq::empty());
    while i < slots.slots.items.len()
        invariant
            i <= items.len(),
            slots.wf(),
            items == slots.slots.items@,
            has == crate::switch::by_owner(*who),
            first_with(items.take(i as int), has) is None,
        decreases items.len() - i,
    {
        assert(items.take(i + 1).drop_last() =~= items.take(i as int));
        if is_owned_by(&slots.slots.items[i].1, who) {
            proof {
                crate::slots::lemma_first_with_stays(items, has, i + 1);
                slots.slots.lemma_entry(i as int);
            }
            return Some(slots.slots.items[i].0);
        }
        i += 1;
    }
    assert(items.take(items.len() as int) =~= items);
    None
}

/// Where an account goes.
#[derive(Debug)]
pub struct Placement {
    pub slot: u32,
    /// Whether the slot was free.
    pub created: bool,
    /// The row whose labels it keeps.
    pub prior: Option<Slot>,
    /// The slot that it leaves.
    pub moved_from: Option<u32>,
}

/// Where an account goes: a slot that is asked for decides, and the account moves
/// there from the one that it has; else it stays where it is, or takes the least free
/// slot. A slot that another account holds is refused, unless forced.
pub fn place(existing: &ProviderSlots, owner: Option<u32>, slot: Option<u32>, force: bool) -> (r:
    Result<Placement, SwapdError>)
    requires
        existing.wf(),
        owner matches Some(n) ==> existing.slots@.contains_key(n),
        exists|n: u32|
            #![trigger existing.slots@.contains_key(n)]
            n >= 1 && !existing.slots@.contains_key(n),
    ensures
        match (slot, owner) {
            (None, Some(n)) => r matches Ok(p) && p.slot == n && !p.created && p.prior == Some(
                existing.slots@[n],
            ) && p.moved_from is None,
            (None, None) => r matches Ok(p) && p.slot >= 1 && !existing.slots@.contains_key(p.slot)
                && (forall|n: u32|
                #![trigger existing.slots@.contains_key(n)]
                1 <= n < p.slot ==> existing.slots@.contains_key(n)) && p.created
                && p.prior is None && p.moved_from is None,
            (Some(s), _) => if s < 1 {
                r matches Err(e) && is_error(e, ErrorCode::InvalidInput, "slot numbers start at 1"@)
            } else if existing.slots@.contains_key(s) && owner != Some(s) && !force {
                r matches Err(e) && is_error(
                    e,
                    ErrorCode::InvalidInput,
                    "slot "@ + decimal(s as nat) + (" holds "@ + existing.slots@[s].email@
                        + "; pass --force to overwrite it"@),
                )
            } else {
                r matches Ok(p) && p.slot == s && p.moved_from == (if owner != Some(s) {
                    owner
                } else {
                    None
                }) && p.created == !existing.slots@.contains_key(s) && p.prior
                    == (match owner {
                    Some(n) => Some(existing.slots@[n]),
                    None => if existing.slots@.contains_key(s) {
                        Some(existing.slots@[s])
                    } else {
                        None
                    },
                })
            },
        },
{
    let s: u32 = match slot {
        Some(s) => s,
        None => {
            return match owner {
                Some(n) => Ok(
                    Placement {
                        slot: n,
                        created: false,
                        prior: match existing.slots.get(n) {
                            Some(row) => Some(row.clone()),
                            None => None,
                        },
                        moved_from: None,
                    },
                ),
                None => Ok(
                    Placement {
                        slot: existing.next_free(),
                        created: true,
                        prior: None,
                        moved_from: None,
                    },
                ),
            };
        },
    };
    if s < 1 {
        return Err(
            SwapdError::new(ErrorCode::InvalidInput, "slot numbers start at 1".to_owned()),
        );
    }
    let own: bool = match owner {
        Some(n) => n == s,
        None => false,
    };
    let occupant: Option<&Slot> = existing.slots.get(s);
    if let Some(row) = occupant {
        if !own && !force {
            return Err(
                error_about(
                    ErrorCode::InvalidInput,
                    "slot ",
                    show(s as u64).as_str(),
                    " holds ".to_owned().concat(row.email.as_str()).concat(
                        "; pass --force to overwrite it",
                    ).as_str(),
                ),
            );
        }
    }
    let kept: Option<&Slot> = match owner {
        Some(n) => existing.slots.get(n),
        None => occupant,
    };
    Ok(
        Placement {
            slot: s,
            created: occupant.is_none(),
            prior: match kept {
                Some(row) => Some(row.clone()),
                None => None,
            },
            moved_from: if own {
                None
            } else {
                owner
            },
        },
    )
}

/// The slots after an account was put where it goes.
pub open spec fn settled(slots: Map<u32, Slot>, p: Placement, row: Slot) -> Map<u32, Slot> {
    match p.moved_from {
        Some(m) => slots.insert(p.slot, row).remove(m),
        None => slots.insert(p.slot, row),
    }
}

/// The rotation after an account was put where it goes.
pub open spec fn settled_order(order: Seq<u32>, p: Placement) -> Seq<u32> {
    let listed = if order.contains(p.slot) {
        order
    } else {
        order.push(p.slot)
    };
    match p.moved_from {
        Some(m) => without(listed, m),
        None => listed,
    }
}

/// Puts an account where it goes: its row is written there, and the slot that it leaves
/// is taken away. It becomes the active one where asked; a slot that is taken away is
/// not active any more.
pub fn settle(slots: &mut ProviderSlots, p: &Placement, row: Slot, activate: bool)
    requires
        old(slots).wf(),
    ensures
        final(slots).wf(),
        final(slots).slots@ == settled(old(slots).slots@, *p, row),
        final(slots).order@ == settled_order(old(slots).order@, *p),
        final(slots).active_slot == if activate {
            Some(p.slot)
        } else if p.moved_from is Some && old(slots).active_slot == p.moved_from {
            None
        } else {
            old(slots).active_slot
        },
{
    slots.insert(p.slot, row);
    if let Some(m) = p.moved_from {
        slots.remove(m);
    }
    if activate {
        slots.active_slot = Some(p.slot);
    }
}

/// An account that is put where `place` says stands there, and nowhere else that it
/// stood; no third account is touched, and a rotation that names every slot once still
/// does.
pub proof fn law_an_account_moves_whole(
    slots: Map<u32, Slot>,
    order: Seq<u32>,
    p: Placement,
    row: Slot,
    n: u32,
)
    requires
        p.moved_from != Some(p.slot),
        lists_all(order, slots),
    ensures
        settled(slots, p, row).contains_key(p.slot) && settled(slots, p, row)[p.slot] == row,
        p.moved_from matches Some(m) ==> !settled(slots, p, row).contains_key(m),
        n != p.slot && p.moved_from != Some(n) ==> settled(slots, p, row).contains_key(n)
            == slots.contains_key(n) && settled(slots, p, row)[n] == slots[n],
        lists_all(settled_order(order, p), settled(slots, p, row)),
{
    crate::slots::law_insert_keeps_the_order(order, slots, p.slot, row);
    if let Some(m) = p.moved_from {
        let listed = if order.contains(p.slot) {
            order
        } else {
            order.push(p.slot)
        };
        crate::slots::law_remove_keeps_the_order(listed, slots.insert(p.slot, row), m);
    }
}

/// The row of a captured login: the identity's fields, over what the slot already
/// carried. To capture a login again says nothing about the labels and choices.
pub fn compose(identity: &Identity, prior: &Option<Slot>, alias: &Option<String>, now: i64) -> (r:
    Slot)
    ensures
        r.email == identity.email,
        r.organization_uuid == identity.organization_uuid,
        r.organization_name == identity.organization_name,
        r.plan == identity.plan,
        r.alias == (match alias {
            Some(a) => Some(*a),
            None => match prior {
                Some(p) => p.alias,
                None => None,
            },
        }),
        r.icon == (match prior {
            Some(p) => p.icon,
            None => None,
        }),
        r.disabled == (prior matches Some(p) && p.disabled),
        r.preferred == (prior matches Some(p) && p.preferred),
        r.auto_ignite == (prior matches Some(p) && p.auto_ignite),
        opt_text(r.added) == (match prior {
            Some(p) => match p.added {
                Some(t) => Some(t@),
                None => rfc3339_text(whole_seconds(now)),
            },
            None => rfc3339_text(whole_seconds(now)),
        }),
        r.fingerprint is None,
{
    let kept_alias: Option<String> = match prior {
        Some(p) => copy_opt(&p.alias),
        None => None,
    };
    let kept_added: Option<String> = match prior {
        Some(p) => copy_opt(&p.added),
        None => None,
    };
    Slot {
        email: identity.email.clone(),
        organization_uuid: identity.organization_uuid.clone(),
        organization_name: identity.organization_name.clone(),
        plan: copy_opt(&identity.plan),
        alias: match alias {
            Some(a) => Some(a.clone()),
            None => kept_alias,
        },
        icon: match prior {
            Some(p) => copy_opt(&p.icon),
            None => None,
        },
        disabled: match prior {
            Some(p) => p.disabled,
            None => false,
        },
        preferred: match prior {
            Some(p) => p.preferred,
            None => false,
        },
        auto_ignite: match prior {
            Some(p) => p.auto_ignite,
            None => false,
        },
        added: match kept_added {
            Some(t) => Some(t),
            None => format_ts(now),
        },
        fingerprint: None,
    }
}

/// What registering an account says.
pub fn human_line(out: &AddOutput) -> (r: String)
    ensures
        r@ == (if out.created {
            "Added"@
        } else {
            "Updated"@
        }) + " slot "@ + decimal(out.slot as nat) + ": "@ + out.email@,
{
    let verb: &str = if out.created {
        "Added"
    } else {
        "Updated"
    };
    verb.to_owned().concat(" slot ").concat(show(out.slot as u64).as_str()).concat(": ").concat(
        out.email.as_str(),
    )
}

} // verus!
