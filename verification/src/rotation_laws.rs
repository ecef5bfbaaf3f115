//! What holds of rotations: what is listed as next is what is taken next.

use vstd::prelude::*;

use crate::collect::{entry_or_blank, SlotState};
use crate::collect_view::{
    after_active, first_healthy, healthy_among, is_healthy, is_view, law_next_candidate_is_sound,
    trusted_windows, under, views_of,
};
use crate::contract::{AccountView, Window};
use crate::gating::room;
use crate::order::{in_order, lemma_placed, placed, slots_of, Key};
use crate::poll_policy::window_reset;
use crate::slots::slot_key_text;
use crate::switch::{
    in_rotation, landable, rank_key, ranked, ready, resume_at, rotation, takes, takes_any, Strategy,
};
use crate::text::{decimal, lowercase};
use crate::usage_store::Entry;

verus! {

/// Whether no two accounts share a slot.
pub open spec fn distinct_slots(accounts: Seq<AccountView>) -> bool {
    forall|i: int, j: int|
        0 <= i < j < accounts.len() ==> (#[trigger] accounts[i]).slot != (
        #[trigger] accounts[j]).slot
}

/// Who is healthy among accounts.
pub proof fn lemma_healthy_among(
    provider: Seq<char>,
    accounts: Seq<AccountView>,
    entries: Map<Seq<char>, Entry>,
    models: Seq<String>,
    threshold: i64,
    n: u32,
)
    ensures
        healthy_among(provider, accounts, entries, models, threshold).contains(n) <==> (exists|
            i: int,
        |
            0 <= i < accounts.len() && (#[trigger] accounts[i]).slot == n) && under(
            trusted_windows(entry_or_blank(entries, slot_key_text(provider, n))),
            models,
            threshold,
        ),
    decreases accounts.len(),
{
    let out = healthy_among(provider, accounts, entries, models, threshold);
    if accounts.len() > 0 {
        let rest = accounts.drop_last();
        lemma_healthy_among(provider, rest, entries, models, threshold, n);
        let short = healthy_among(provider, rest, entries, models, threshold);
        if out.contains(n) {
            let i = choose|i: int| 0 <= i < out.len() && out[i] == n;
            if i < short.len() {
                assert(short[i] == n);
                let j = choose|j: int| 0 <= j < rest.len() && (#[trigger] rest[j]).slot == n;
                assert(accounts[j].slot == n);
            } else {
                assert(accounts[accounts.len() - 1].slot == n);
            }
        }
        if exists|i: int| 0 <= i < accounts.len() && (#[trigger] accounts[i]).slot == n {
            if under(
                trusted_windows(entry_or_blank(entries, slot_key_text(provider, n))),
                models,
                threshold,
            ) {
                let j = choose|j: int| 0 <= j < accounts.len() && (#[trigger] accounts[j]).slot == n;
                if j < rest.len() {
                    assert(rest[j].slot == n);
                    let i = choose|i: int| 0 <= i < short.len() && short[i] == n;
                    assert(out[i] == n);
                } else {
                    assert(out[out.len() - 1] == n);
                }
            }
        }
    }
}

proof fn lemma_ready(accounts: Seq<AccountView>, healthy: Seq<u32>, n: u32)
    ensures
        ready(accounts, healthy).contains(n) <==> healthy.contains(n) && exists|i: int|
            0 <= i < accounts.len() && (#[trigger] accounts[i]).slot == n && landable(accounts[i]),
    decreases accounts.len(),
{
    let out = ready(accounts, healthy);
    if accounts.len() > 0 {
        let rest = accounts.drop_last();
        lemma_ready(rest, healthy, n);
        let short = ready(rest, healthy);
        if out.contains(n) {
            let i = choose|i: int| 0 <= i < out.len() && out[i] == n;
            if i < short.len() {
                assert(short[i] == n);
                let j = choose|j: int|
                    0 <= j < rest.len() && (#[trigger] rest[j]).slot == n && landable(rest[j]);
                assert(accounts[j].slot == n && landable(accounts[j]));
            } else {
                assert(accounts[accounts.len() - 1].slot == n);
            }
        }
        if healthy.contains(n) && exists|i: int|
            0 <= i < accounts.len() && (#[trigger] accounts[i]).slot == n && landable(accounts[i]) {
            let j = choose|j: int|
                0 <= j < accounts.len() && (#[trigger] accounts[j]).slot == n && landable(
                    accounts[j],
                );
            if j < rest.len() {
                assert(rest[j].slot == n && landable(rest[j]));
                let i = choose|i: int| 0 <= i < short.len() && short[i] == n;
                assert(out[i] == n);
            } else {
                assert(out[out.len() - 1] == n);
            }
        }
    }
}

proof fn lemma_same_start(accounts: Seq<AccountView>, states: Seq<SlotState>)
    requires
        accounts.len() == states.len(),
        forall|i: int| 0 <= i < states.len() ==> (#[trigger] accounts[i]).active == states[i].active,
    ensures
        resume_at(accounts) == after_active(states),
        0 <= after_active(states) <= states.len(),
    decreases states.len(),
{
    if states.len() > 0 {
        let a = accounts.drop_last();
        let s = states.drop_last();
        assert forall|i: int| 0 <= i < s.len() implies (#[trigger] a[i]).active == s[i].active by {
            assert(accounts[i].active == states[i].active);
        }
        lemma_same_start(a, s);
        assert(accounts[states.len() - 1].active == states[states.len() - 1].active);
    }
}

/// What is listed as the next candidate is what a rotation to the next available
/// account takes first; where none is listed, it takes none.
pub proof fn law_next_available_is_the_next_candidate(
    provider: Seq<char>,
    accounts: Seq<AccountView>,
    states: Seq<SlotState>,
    entries: Map<Seq<char>, Entry>,
    models: Seq<String>,
    threshold: i64,
    preferred: Seq<String>,
    now: i64,
)
    requires
        views_of(accounts, states, entries, now),
        distinct_slots(accounts),
        forall|i: int|
            0 <= i < states.len() ==> (#[trigger] states[i]).key@ == slot_key_text(
                provider,
                states[i].slot,
            ),
    ensures
        ({
            let healthy = healthy_among(provider, accounts, entries, models, threshold);
            let list = rotation(accounts, healthy, Strategy::NextAvailable, preferred, models);
            match first_healthy(
                states,
                after_active(states),
                entries,
                models,
                threshold,
                states.len() as int,
            ) {
                Some(n) => list.len() > 0 && list[0] == n,
                None => list.len() == 0,
            }
        }),
{
    let healthy = healthy_among(provider, accounts, entries, models, threshold);
    let ready_slots = ready(accounts, healthy);
    assert forall|i: int| 0 <= i < states.len() implies (#[trigger] accounts[i]).active
        == states[i].active by {
        assert(is_view(
            accounts[i],
            states[i],
            entry_or_blank(entries, states[i].key@),
            now,
        ));
    }
    lemma_same_start(accounts, states);
    assert forall|i: int| 0 <= i < states.len() implies ready_slots.contains(
        (#[trigger] accounts[i]).slot,
    ) == (!states[i].active && is_healthy(states[i], entries, models, threshold)) by {
        let n = accounts[i].slot;
        lemma_ready(accounts, healthy, n);
        lemma_healthy_among(provider, accounts, entries, models, threshold, n);
        assert(is_view(
            accounts[i],
            states[i],
            entry_or_blank(entries, states[i].key@),
            now,
        ));
        assert(states[i].key@ == slot_key_text(provider, states[i].slot));
        if ready_slots.contains(n) {
            let j = choose|j: int|
                0 <= j < accounts.len() && (#[trigger] accounts[j]).slot == n && landable(
                    accounts[j],
                );
            if i < j {
                assert(accounts[i].slot != accounts[j].slot);
            }
            if j < i {
                assert(accounts[j].slot != accounts[i].slot);
            }
        }
        if !states[i].active && is_healthy(states[i], entries, models, threshold) {
            assert(landable(accounts[i]));
        }
    }
    lemma_heads_agree(
        accounts,
        states,
        entries,
        models,
        threshold,
        ready_slots,
        after_active(states),
        states.len() as int,
    );
}

proof fn lemma_heads_agree(
    accounts: Seq<AccountView>,
    states: Seq<SlotState>,
    entries: Map<Seq<char>, Entry>,
    models: Seq<String>,
    threshold: i64,
    ready_slots: Seq<u32>,
    start: int,
    n: int,
)
    requires
        accounts.len() == states.len(),
        start >= 0,
        0 <= n <= states.len(),
        forall|i: int| 0 <= i < states.len() ==> (#[trigger] accounts[i]).slot == states[i].slot,
        forall|i: int|
            0 <= i < states.len() ==> ready_slots.contains((#[trigger] accounts[i]).slot) == (
            !states[i].active && is_healthy(states[i], entries, models, threshold)),
    ensures
        match first_healthy(states, start, entries, models, threshold, n) {
            Some(s) => in_rotation(accounts, start, ready_slots, n).len() > 0 && in_rotation(
                accounts,
                start,
                ready_slots,
                n,
            )[0] == s,
            None => in_rotation(accounts, start, ready_slots, n).len() == 0,
        },
    decreases n,
{
    if n > 0 {
        lemma_heads_agree(
            accounts,
            states,
            entries,
            models,
            threshold,
            ready_slots,
            start,
            n - 1,
        );
        let i = (start + n - 1) % accounts.len() as int;
        assert(0 <= i < states.len());
        assert(accounts[i].slot == states[i].slot);
    }
}

/// A rotation by headroom or by reset lists its targets in the order of their keys,
/// and only accounts that are not active, that may be landed on and that are not known
/// to be spent; every such account that is not held back is listed.
pub proof fn law_ranked_is_sound(
    accounts: Seq<AccountView>,
    healthy: Seq<u32>,
    consume_first: bool,
    gated: bool,
    preferred: Seq<String>,
    models: Seq<String>,
)
    ensures
        ({
            let list = ranked(accounts, healthy, consume_first, gated, preferred, models);
            &&& in_order(list)
            &&& forall|e: (Key, u32)| #[trigger]
                list.contains(e) <==> exists|i: int|
                    0 <= i < accounts.len() && takes(
                        #[trigger] accounts[i],
                        healthy,
                        models,
                        gated,
                    ) && e == (
                        rank_key(accounts[i], consume_first, preferred, models),
                        accounts[i].slot,
                    )
        }),
    decreases accounts.len(),
{
    let list = ranked(accounts, healthy, consume_first, gated, preferred, models);
    if accounts.len() > 0 {
        let rest = accounts.drop_last();
        let a = accounts.last();
        let x = (rank_key(a, consume_first, preferred, models), a.slot);
        law_ranked_is_sound(rest, healthy, consume_first, gated, preferred, models);
        let short = ranked(rest, healthy, consume_first, gated, preferred, models);
        lemma_placed(short, x);
        assert forall|e: (Key, u32)| #[trigger] list.contains(e) <==> exists|i: int|
            0 <= i < accounts.len() && takes(#[trigger] accounts[i], healthy, models, gated) && e
                == (rank_key(accounts[i], consume_first, preferred, models), accounts[i].slot) by {
            assert(placed(short, x).contains(e) <==> short.contains(e) || e == x);
            if list.contains(e) {
                if short.contains(e) {
                    let i = choose|i: int|
                        0 <= i < rest.len() && takes(#[trigger] rest[i], healthy, models, gated)
                            && e == (
                            rank_key(rest[i], consume_first, preferred, models),
                            rest[i].slot,
                        );
                    assert(accounts[i] == rest[i]);
                } else {
                    assert(accounts[accounts.len() - 1] == a);
                }
            }
            if exists|i: int|
                0 <= i < accounts.len() && takes(#[trigger] accounts[i], healthy, models, gated)
                    && e == (
                    rank_key(accounts[i], consume_first, preferred, models),
                    accounts[i].slot,
                ) {
                let i = choose|i: int|
                    0 <= i < accounts.len() && takes(#[trigger] accounts[i], healthy, models, gated)
                        && e == (
                        rank_key(accounts[i], consume_first, preferred, models),
                        accounts[i].slot,
                    );
                if i < rest.len() {
                    assert(rest[i] == accounts[i]);
                    assert(short.contains(e));
                }
            }
        }
    }
}

proof fn lemma_in_rotation(accounts: Seq<AccountView>, start: int, ready_slots: Seq<u32>, n: int)
    requires
        0 <= start,
        0 <= n,
    ensures
        forall|k: int|
            0 <= k < in_rotation(accounts, start, ready_slots, n).len() ==> ready_slots.contains(
                #[trigger] in_rotation(accounts, start, ready_slots, n)[k],
            ),
    decreases n,
{
    if n > 0 {
        lemma_in_rotation(accounts, start, ready_slots, n - 1);
        let rest = in_rotation(accounts, start, ready_slots, n - 1);
        let out = in_rotation(accounts, start, ready_slots, n);
        assert forall|k: int| 0 <= k < out.len() implies ready_slots.contains(#[trigger] out[k]) by {
            if k < rest.len() {
                assert(out[k] == rest[k]);
            }
        }
    }
}

proof fn lemma_resume_at(accounts: Seq<AccountView>)
    ensures
        0 <= resume_at(accounts) <= accounts.len(),
        resume_at(accounts) > 0 ==> accounts[resume_at(accounts) - 1].active,
        forall|i: int|
            0 <= i < resume_at(accounts) - 1 ==> !(#[trigger] accounts[i]).active,
        resume_at(accounts) == 0 ==> forall|i: int|
            0 <= i < accounts.len() ==> !(#[trigger] accounts[i]).active,
    decreases accounts.len(),
{
    if accounts.len() > 0 {
        let rest = accounts.drop_last();
        lemma_resume_at(rest);
        assert forall|i: int| 0 <= i < rest.len() implies rest[i] == #[trigger] accounts[i] by {}
        if resume_at(rest) > 0 {
            assert(accounts[resume_at(rest) - 1] == rest[resume_at(rest) - 1]);
        }
        assert forall|i: int| 0 <= i < resume_at(accounts) - 1 implies !(
        #[trigger] accounts[i]).active by {
            assert(rest[i] == accounts[i]);
            assert(!rest[i].active);
        }
        if resume_at(accounts) == 0 {
            assert forall|i: int| 0 <= i < accounts.len() implies !(#[trigger] accounts[i]).active by {
                if i < rest.len() {
                    assert(!rest[i].active);
                }
            }
        }
    }
}

/// The account that a slot of a rotation was listed for.
proof fn lemma_listed(
    accounts: Seq<AccountView>,
    healthy: Seq<u32>,
    strategy: Strategy,
    preferred: Seq<String>,
    models: Seq<String>,
    k: int,
) -> (i: int)
    requires
        0 <= k < rotation(accounts, healthy, strategy, preferred, models).len(),
    ensures
        0 <= i < accounts.len(),
        accounts[i].slot == rotation(accounts, healthy, strategy, preferred, models)[k],
        landable(accounts[i]),
        strategy is NextAvailable ==> healthy.contains(accounts[i].slot),
        !(strategy is NextAvailable) ==> ({
            let gated = strategy is ConsumeFirst && takes_any(accounts, healthy, models, true);
            let list = ranked(
                accounts,
                healthy,
                strategy is ConsumeFirst,
                gated,
                preferred,
                models,
            );
            &&& takes(accounts[i], healthy, models, gated)
            &&& rotation(accounts, healthy, strategy, preferred, models) == slots_of(list)
            &&& list[k] == (
                rank_key(accounts[i], strategy is ConsumeFirst, preferred, models),
                accounts[i].slot,
            )
        }),
{
    let out = rotation(accounts, healthy, strategy, preferred, models);
    if strategy is NextAvailable {
        lemma_resume_at(accounts);
        lemma_in_rotation(
            accounts,
            resume_at(accounts),
            ready(accounts, healthy),
            accounts.len() as int,
        );
        lemma_ready(accounts, healthy, out[k]);
        choose|i: int|
            0 <= i < accounts.len() && (#[trigger] accounts[i]).slot == out[k] && landable(
                accounts[i],
            )
    } else {
        let gated = strategy is ConsumeFirst && takes_any(accounts, healthy, models, true);
        let consume = strategy is ConsumeFirst;
        let list = ranked(accounts, healthy, consume, gated, preferred, models);
        law_ranked_is_sound(accounts, healthy, consume, gated, preferred, models);
        assert(list.contains(list[k]));
        let i = choose|i: int|
            0 <= i < accounts.len() && takes(#[trigger] accounts[i], healthy, models, gated)
                && list[k] == (rank_key(accounts[i], consume, preferred, models), accounts[i].slot);
        i
    }
}

/// What a rotation of any strategy lists is the slot of an account that is not held, not
/// active, and has a login that can be used: neither missing, nor an API key, nor one
/// that needs a new login, nor one of a kind that cannot be switched to.
pub proof fn law_a_rotation_lists_open_accounts(
    accounts: Seq<AccountView>,
    healthy: Seq<u32>,
    strategy: Strategy,
    preferred: Seq<String>,
    models: Seq<String>,
    n: u32,
)
    requires
        rotation(accounts, healthy, strategy, preferred, models).contains(n),
    ensures
        exists|i: int|
            0 <= i < accounts.len() && (#[trigger] accounts[i]).slot == n && !accounts[i].disabled
                && !accounts[i].active && !(accounts[i].usage_status is NoCredentials) && !(
            accounts[i].usage_status is ApiKey) && !(accounts[i].usage_status is ReloginRequired)
                && !(accounts[i].usage_status is Unsupported),
{
    let out = rotation(accounts, healthy, strategy, preferred, models);
    let k = choose|k: int| 0 <= k < out.len() && out[k] == n;
    let i = lemma_listed(accounts, healthy, strategy, preferred, models, k);
    assert(accounts[i].slot == n);
}

/// An account that is held is out of every rotation; so is the active one, and one that
/// needs a new login.
pub proof fn law_a_held_account_is_out(
    accounts: Seq<AccountView>,
    healthy: Seq<u32>,
    strategy: Strategy,
    preferred: Seq<String>,
    models: Seq<String>,
    i: int,
)
    requires
        distinct_slots(accounts),
        0 <= i < accounts.len(),
        accounts[i].disabled || accounts[i].active || accounts[i].usage_status is ReloginRequired
            || accounts[i].usage_status is NoCredentials || accounts[i].usage_status is ApiKey
            || accounts[i].usage_status is Unsupported,
    ensures
        !rotation(accounts, healthy, strategy, preferred, models).contains(accounts[i].slot),
{
    let n = accounts[i].slot;
    if rotation(accounts, healthy, strategy, preferred, models).contains(n) {
        law_a_rotation_lists_open_accounts(accounts, healthy, strategy, preferred, models, n);
        let j = choose|j: int|
            0 <= j < accounts.len() && (#[trigger] accounts[j]).slot == n && !accounts[j].disabled
                && !accounts[j].active && !(accounts[j].usage_status is NoCredentials) && !(
            accounts[j].usage_status is ApiKey) && !(accounts[j].usage_status is ReloginRequired)
                && !(accounts[j].usage_status is Unsupported);
        if i < j {
            assert(accounts[i].slot != accounts[j].slot);
        }
        if j < i {
            assert(accounts[j].slot != accounts[i].slot);
        }
    }
}

/// The next candidate that a pass reports is neither held nor active, and needs no new
/// login.
pub proof fn law_a_held_account_is_not_next(
    accounts: Seq<AccountView>,
    states: Seq<SlotState>,
    entries: Map<Seq<char>, Entry>,
    models: Seq<String>,
    threshold: i64,
    now: i64,
    i: int,
)
    requires
        views_of(accounts, states, entries, now),
        distinct_slots(accounts),
        0 <= i < accounts.len(),
        accounts[i].disabled || accounts[i].active || accounts[i].usage_status is ReloginRequired
            || accounts[i].usage_status is NoCredentials || accounts[i].usage_status is ApiKey
            || accounts[i].usage_status is Unsupported,
    ensures
        first_healthy(
            states,
            after_active(states),
            entries,
            models,
            threshold,
            states.len() as int,
        ) != Some(accounts[i].slot),
{
    let start = after_active(states);
    let len = states.len() as int;
    let next = first_healthy(states, start, entries, models, threshold, len);
    if next == Some(accounts[i].slot) {
        assert forall|k: int| 0 <= k < states.len() implies (#[trigger] accounts[k]).active
            == states[k].active by {
            assert(is_view(
                accounts[k],
                states[k],
                entry_or_blank(entries, states[k].key@),
                now,
            ));
        }
        lemma_same_start(accounts, states);
        law_next_candidate_is_sound(states, start, entries, models, threshold, len);
        let j = choose|j: int|
            0 <= j < states.len() && (#[trigger] states[j]).slot == next->0 && !states[j].active
                && is_healthy(states[j], entries, models, threshold);
        assert(is_view(
            accounts[j],
            states[j],
            entry_or_blank(entries, states[j].key@),
            now,
        ));
        if i < j {
            assert(accounts[i].slot != accounts[j].slot);
        }
        if j < i {
            assert(accounts[j].slot != accounts[i].slot);
        }
    }
}

/// Whether a list names an account, by its number, its email or its alias.
pub open spec fn is_named(a: AccountView, list: Seq<String>) -> bool {
    exists|k: int|
        0 <= k < list.len() && (lowercase((#[trigger] list[k])@) == lowercase(a.email@) || lowercase(
            list[k]@,
        ) == decimal(a.slot as nat) || (a.alias is Some && lowercase(list[k]@) == lowercase(
            a.alias->0@,
        )))
}

/// An account whose own flag is set stands, in a rotation by headroom or by reset, before
/// every one that neither has the flag nor is named in the list; so does one that the list
/// names by its number, its email or its alias.
pub proof fn law_a_preferred_account_comes_first(
    accounts: Seq<AccountView>,
    healthy: Seq<u32>,
    strategy: Strategy,
    preferred: Seq<String>,
    models: Seq<String>,
    i: int,
    j: int,
    x: int,
    y: int,
)
    requires
        !(strategy is NextAvailable),
        distinct_slots(accounts),
        0 <= i < accounts.len(),
        0 <= j < accounts.len(),
        accounts[i].preferred || is_named(accounts[i], preferred),
        !accounts[j].preferred && !is_named(accounts[j], preferred),
        0 <= x < rotation(accounts, healthy, strategy, preferred, models).len(),
        0 <= y < rotation(accounts, healthy, strategy, preferred, models).len(),
        rotation(accounts, healthy, strategy, preferred, models)[x] == accounts[i].slot,
        rotation(accounts, healthy, strategy, preferred, models)[y] == accounts[j].slot,
    ensures
        x < y,
{
    let consume = strategy is ConsumeFirst;
    let gated = consume && takes_any(accounts, healthy, models, true);
    let list = ranked(accounts, healthy, consume, gated, preferred, models);
    let p = lemma_listed(accounts, healthy, strategy, preferred, models, x);
    let q = lemma_listed(accounts, healthy, strategy, preferred, models, y);
    lemma_distinct(accounts, i, p);
    lemma_distinct(accounts, j, q);
    law_ranked_is_sound(accounts, healthy, consume, gated, preferred, models);
    lemma_prefers(accounts[i], preferred);
    lemma_prefers(accounts[j], preferred);
    assert(list[x].0.less(list[y].0));
    if y < x {
        assert(!list[x].0.less(list[y].0));
    }
}

proof fn lemma_distinct(accounts: Seq<AccountView>, i: int, j: int)
    requires
        distinct_slots(accounts),
        0 <= i < accounts.len(),
        0 <= j < accounts.len(),
        accounts[i].slot == accounts[j].slot,
    ensures
        i == j,
{
    if i < j {
        assert(accounts[i].slot != accounts[j].slot);
    }
    if j < i {
        assert(accounts[j].slot != accounts[i].slot);
    }
}

/// An account is preferred by its own flag, or by a list that names it.
pub proof fn lemma_prefers(a: AccountView, list: Seq<String>)
    ensures
        crate::switch::prefers(a, list) == (a.preferred || is_named(a, list)),
{
    if is_named(a, list) {
        let k = choose|k: int|
            0 <= k < list.len() && (lowercase((#[trigger] list[k])@) == lowercase(a.email@)
                || lowercase(list[k]@) == decimal(a.slot as nat) || (a.alias is Some && lowercase(
                list[k]@,
            ) == lowercase(a.alias->0@)));
        assert(crate::switch::names(a, list[k]@));
    }
    if !a.preferred && crate::switch::prefers(a, list) {
        let k = choose|k: int|
            0 <= k < list.len() && crate::switch::names(a, (#[trigger] list[k])@);
        assert(is_named(a, list));
    }
}

/// The windows that say how much of an account is used: those of a current measurement,
/// or else those of the last one.
pub open spec fn known_windows(a: AccountView) -> Seq<Window> {
    if a.windows@.len() > 0 {
        a.windows@
    } else if a.last_good is Some {
        a.last_good->0.windows@
    } else {
        Seq::empty()
    }
}

/// Of two accounts that are alike in being preferred or not, a rotation by headroom lists
/// the one with more left first, where one that was never measured counts as having all
/// of it left; of two with as much left, the one with the lesser number.
pub proof fn law_best_lists_the_emptier_account_first(
    accounts: Seq<AccountView>,
    healthy: Seq<u32>,
    preferred: Seq<String>,
    models: Seq<String>,
    i: int,
    j: int,
    x: int,
    y: int,
)
    requires
        distinct_slots(accounts),
        0 <= i < accounts.len(),
        0 <= j < accounts.len(),
        (accounts[i].preferred || is_named(accounts[i], preferred)) == (accounts[j].preferred
            || is_named(accounts[j], preferred)),
        0 <= x < y < rotation(accounts, healthy, Strategy::Best, preferred, models).len(),
        rotation(accounts, healthy, Strategy::Best, preferred, models)[x] == accounts[i].slot,
        rotation(accounts, healthy, Strategy::Best, preferred, models)[y] == accounts[j].slot,
    ensures
        ({
            let left_i = match room(known_windows(accounts[i]), models) {
                Some(h) => h,
                None => 100_000_000,
            };
            let left_j = match room(known_windows(accounts[j]), models) {
                Some(h) => h,
                None => 100_000_000,
            };
            &&& left_i >= left_j
            &&& left_i == left_j ==> accounts[i].slot <= accounts[j].slot
        }),
{
    let strategy = Strategy::Best;
    let list = ranked(accounts, healthy, false, false, preferred, models);
    let p = lemma_listed(accounts, healthy, strategy, preferred, models, x);
    let q = lemma_listed(accounts, healthy, strategy, preferred, models, y);
    lemma_distinct(accounts, i, p);
    lemma_distinct(accounts, j, q);
    law_ranked_is_sound(accounts, healthy, false, false, preferred, models);
    lemma_prefers(accounts[i], preferred);
    lemma_prefers(accounts[j], preferred);
    crate::gating::law_room_is_bounded(known_windows(accounts[i]), models);
    crate::gating::law_room_is_bounded(known_windows(accounts[j]), models);
    assert(!list[y].0.less(list[x].0));
}

/// The weekly reset that windows name: that of the first one of seven days.
pub open spec fn is_weekly_reset(windows: Seq<Window>, at: Option<i64>) -> bool {
    if exists|k: int| 0 <= k < windows.len() && (#[trigger] windows[k]).kind is SevenDay {
        exists|k: int|
            0 <= k < windows.len() && (#[trigger] windows[k]).kind is SevenDay && window_reset(
                windows[k],
            ) == at && forall|m: int| 0 <= m < k ==> !((#[trigger] windows[m]).kind is SevenDay)
    } else {
        at is None
    }
}

/// The weekly reset of a list of windows is that of its first window of seven days.
pub proof fn law_weekly_reset_is_the_first(windows: Seq<Window>)
    ensures
        is_weekly_reset(windows, crate::auto_rank::first_seven_day(windows)),
    decreases windows.len(),
{
    let at = crate::auto_rank::first_seven_day(windows);
    if windows.len() > 0 {
        if windows[0].kind is SevenDay {
            assert(0 <= 0 < windows.len() && windows[0].kind is SevenDay);
        } else {
            let rest = windows.drop_first();
            law_weekly_reset_is_the_first(rest);
            if exists|k: int| 0 <= k < rest.len() && (#[trigger] rest[k]).kind is SevenDay {
                let k = choose|k: int|
                    0 <= k < rest.len() && (#[trigger] rest[k]).kind is SevenDay && window_reset(
                        rest[k],
                    ) == at && forall|m: int|
                        0 <= m < k ==> !((#[trigger] rest[m]).kind is SevenDay);
                assert(windows[k + 1] == rest[k]);
                assert forall|m: int| 0 <= m < k + 1 implies !(
                (#[trigger] windows[m]).kind is SevenDay) by {
                    if m > 0 {
                        assert(windows[m] == rest[m - 1]);
                    }
                }
            } else if exists|k: int| 0 <= k < windows.len() && (#[trigger] windows[k]).kind is SevenDay {
                let k = choose|k: int|
                    0 <= k < windows.len() && (#[trigger] windows[k]).kind is SevenDay;
                assert(windows[k] == rest[k - 1]);
            }
        }
    }
}

/// Of two accounts that are alike in being preferred or not, a rotation that consumes
/// first lists the one whose week ends sooner first, and one whose week's end is not known
/// behind every one whose is; of two that end alike, the one with more left.
pub proof fn law_consume_first_lists_the_sooner_reset_first(
    accounts: Seq<AccountView>,
    healthy: Seq<u32>,
    preferred: Seq<String>,
    models: Seq<String>,
    i: int,
    j: int,
    at_i: Option<i64>,
    at_j: Option<i64>,
    x: int,
    y: int,
)
    requires
        distinct_slots(accounts),
        0 <= i < accounts.len(),
        0 <= j < accounts.len(),
        (accounts[i].preferred || is_named(accounts[i], preferred)) == (accounts[j].preferred
            || is_named(accounts[j], preferred)),
        0 <= x < y < rotation(accounts, healthy, Strategy::ConsumeFirst, preferred, models).len(),
        rotation(accounts, healthy, Strategy::ConsumeFirst, preferred, models)[x]
            == accounts[i].slot,
        rotation(accounts, healthy, Strategy::ConsumeFirst, preferred, models)[y]
            == accounts[j].slot,
        is_weekly_reset(known_windows(accounts[i]), at_i),
        is_weekly_reset(known_windows(accounts[j]), at_j),
    ensures
        at_j is Some ==> at_i is Some && at_i->0 <= at_j->0,
        at_i == at_j && room(known_windows(accounts[i]), models) is Some && room(
            known_windows(accounts[j]),
            models,
        ) is Some ==> room(known_windows(accounts[i]), models)->0 >= room(
            known_windows(accounts[j]),
            models,
        )->0,
{
    let strategy = Strategy::ConsumeFirst;
    let gated = takes_any(accounts, healthy, models, true);
    let list = ranked(accounts, healthy, true, gated, preferred, models);
    let p = lemma_listed(accounts, healthy, strategy, preferred, models, x);
    let q = lemma_listed(accounts, healthy, strategy, preferred, models, y);
    lemma_distinct(accounts, i, p);
    lemma_distinct(accounts, j, q);
    law_ranked_is_sound(accounts, healthy, true, gated, preferred, models);
    lemma_prefers(accounts[i], preferred);
    lemma_prefers(accounts[j], preferred);
    crate::gating::law_room_is_bounded(known_windows(accounts[i]), models);
    crate::gating::law_room_is_bounded(known_windows(accounts[j]), models);
    law_weekly_reset_is_the_first(known_windows(accounts[i]));
    law_weekly_reset_is_the_first(known_windows(accounts[j]));
    lemma_weekly_is_one(
        known_windows(accounts[i]),
        at_i,
        crate::auto_rank::first_seven_day(known_windows(accounts[i])),
    );
    lemma_weekly_is_one(
        known_windows(accounts[j]),
        at_j,
        crate::auto_rank::first_seven_day(known_windows(accounts[j])),
    );
    assert(!list[y].0.less(list[x].0));
}

/// Windows name one weekly reset.
pub proof fn lemma_weekly_is_one(windows: Seq<Window>, a: Option<i64>, b: Option<i64>)
    requires
        is_weekly_reset(windows, a),
        is_weekly_reset(windows, b),
    ensures
        a == b,
{
    if exists|k: int| 0 <= k < windows.len() && (#[trigger] windows[k]).kind is SevenDay {
        let k = choose|k: int|
            0 <= k < windows.len() && (#[trigger] windows[k]).kind is SevenDay && window_reset(
                windows[k],
            ) == a && forall|m: int| 0 <= m < k ==> !((#[trigger] windows[m]).kind is SevenDay);
        let l = choose|k: int|
            0 <= k < windows.len() && (#[trigger] windows[k]).kind is SevenDay && window_reset(
                windows[k],
            ) == b && forall|m: int| 0 <= m < k ==> !((#[trigger] windows[m]).kind is SevenDay);
        if k < l {
            assert(!(windows[k].kind is SevenDay));
        }
        if l < k {
            assert(!(windows[l].kind is SevenDay));
        }
    }
}

/// An account that is open and not spent is listed by headroom; by reset, where it is
/// healthy, or where no open account that is not spent is.
pub proof fn law_no_open_account_is_left_out(
    accounts: Seq<AccountView>,
    healthy: Seq<u32>,
    strategy: Strategy,
    preferred: Seq<String>,
    models: Seq<String>,
    i: int,
)
    requires
        0 <= i < accounts.len(),
        !accounts[i].disabled,
        !accounts[i].active,
        accounts[i].usage_status is Okay || accounts[i].usage_status is Stale
            || accounts[i].usage_status is TokenExpired,
        !(strategy is NextAvailable) ==> (room(known_windows(accounts[i]), models) is None || room(
            known_windows(accounts[i]),
            models,
        )->0 > 0),
        strategy is Best || healthy.contains(accounts[i].slot) || (strategy is ConsumeFirst
            && forall|j: int|
            0 <= j < accounts.len() && healthy.contains((#[trigger] accounts[j]).slot)
                ==> accounts[j].disabled || accounts[j].active),
    ensures
        rotation(accounts, healthy, strategy, preferred, models).contains(accounts[i].slot),
{
    let n = accounts[i].slot;
    assert(landable(accounts[i]));
    if strategy is NextAvailable {
        lemma_ready(accounts, healthy, n);
        lemma_resume_at(accounts);
        lemma_goes_round(
            accounts,
            resume_at(accounts),
            ready(accounts, healthy),
            accounts.len() as int,
            i,
        );
    } else {
        let consume = strategy is ConsumeFirst;
        let gated = consume && takes_any(accounts, healthy, models, true);
        if gated && !healthy.contains(n) {
            let j = choose|j: int|
                0 <= j < accounts.len() && takes(#[trigger] accounts[j], healthy, models, true);
            assert(landable(accounts[j]));
        }
        assert(takes(accounts[i], healthy, models, gated));
        let list = ranked(accounts, healthy, consume, gated, preferred, models);
        law_ranked_is_sound(accounts, healthy, consume, gated, preferred, models);
        let e = (rank_key(accounts[i], consume, preferred, models), n);
        assert(list.contains(e));
        let k = choose|k: int| 0 <= k < list.len() && list[k] == e;
        assert(slots_of(list)[k] == n);
    }
}

/// A turn round the accounts comes by each of them.
proof fn lemma_goes_round(
    accounts: Seq<AccountView>,
    start: int,
    ready_slots: Seq<u32>,
    n: int,
    i: int,
)
    requires
        0 <= start <= accounts.len(),
        n == accounts.len(),
        0 <= i < accounts.len(),
        ready_slots.contains(accounts[i].slot),
    ensures
        in_rotation(accounts, start, ready_slots, n).contains(accounts[i].slot),
{
    let len = accounts.len() as int;
    let at = if i >= start {
        i - start
    } else {
        i - start + len
    };
    assert(0 <= at <= len);
    let m = if at == len { 0 } else { at };
    assert((start + m) % len == i) by (nonlinear_arith)
        requires
            0 <= i < len,
            0 <= start <= len,
            m == (if i >= start { i - start } else { i - start + len }) || (m == 0 && (if i
                >= start { i - start } else { i - start + len }) == len),
    ;
    lemma_taken_at(accounts, start, ready_slots, m + 1, n);
}

proof fn lemma_taken_at(
    accounts: Seq<AccountView>,
    start: int,
    ready_slots: Seq<u32>,
    m: int,
    n: int,
)
    requires
        0 < m <= n,
        accounts.len() > 0,
        ready_slots.contains(accounts[(start + m - 1) % accounts.len() as int].slot),
    ensures
        in_rotation(accounts, start, ready_slots, n).contains(
            accounts[(start + m - 1) % accounts.len() as int].slot,
        ),
    decreases n - m,
{
    let slot = accounts[(start + m - 1) % accounts.len() as int].slot;
    let out = in_rotation(accounts, start, ready_slots, n);
    let rest = in_rotation(accounts, start, ready_slots, n - 1);
    if m == n {
        assert(out[out.len() - 1] == slot);
    } else {
        lemma_taken_at(accounts, start, ready_slots, m, n - 1);
        let k = choose|k: int| 0 <= k < rest.len() && rest[k] == slot;
        assert(out[k] == slot);
    }
}

/// A rotation by headroom or by reset lists no account that is known to be at its limit.
pub proof fn law_a_spent_account_is_out(
    accounts: Seq<AccountView>,
    healthy: Seq<u32>,
    strategy: Strategy,
    preferred: Seq<String>,
    models: Seq<String>,
    i: int,
)
    requires
        distinct_slots(accounts),
        !(strategy is NextAvailable),
        0 <= i < accounts.len(),
        room(known_windows(accounts[i]), models) matches Some(h) && h <= 0,
    ensures
        !rotation(accounts, healthy, strategy, preferred, models).contains(accounts[i].slot),
{
    let out = rotation(accounts, healthy, strategy, preferred, models);
    if out.contains(accounts[i].slot) {
        let k = choose|k: int| 0 <= k < out.len() && out[k] == accounts[i].slot;
        let j = lemma_listed(accounts, healthy, strategy, preferred, models, k);
        lemma_distinct(accounts, i, j);
    }
}

/// A rotation to the next available account goes round from behind the first active one:
/// what is listed earlier is come by earlier.
pub proof fn law_next_available_goes_round(
    accounts: Seq<AccountView>,
    healthy: Seq<u32>,
    preferred: Seq<String>,
    models: Seq<String>,
    active: int,
    i: int,
    j: int,
    x: int,
    y: int,
)
    requires
        distinct_slots(accounts),
        0 <= active < accounts.len(),
        accounts[active].active,
        forall|k: int| 0 <= k < active ==> !(#[trigger] accounts[k]).active,
        0 <= i < accounts.len(),
        0 <= j < accounts.len(),
        0 <= x < y < rotation(accounts, healthy, Strategy::NextAvailable, preferred, models).len(),
        rotation(accounts, healthy, Strategy::NextAvailable, preferred, models)[x]
            == accounts[i].slot,
        rotation(accounts, healthy, Strategy::NextAvailable, preferred, models)[y]
            == accounts[j].slot,
    ensures
        active < i < j || (j < active < i) || (i < j < active),
{
    let list = rotation(accounts, healthy, Strategy::NextAvailable, preferred, models);
    lemma_resume_at(accounts);
    let start = resume_at(accounts);
    if start == 0 {
        assert(!accounts[active].active);
    }
    if active < start - 1 {
        assert(!accounts[active].active);
    }
    if start - 1 < active {
        assert(!accounts[start - 1].active);
    }
    let len = accounts.len() as int;
    let ready_slots = ready(accounts, healthy);
    let (a, b) = lemma_round_order(accounts, start, ready_slots, len, x, y);
    lemma_wraps(start, a, len);
    lemma_wraps(start, b, len);
    lemma_distinct(accounts, i, (start + a) % len);
    lemma_distinct(accounts, j, (start + b) % len);
    let p = lemma_listed(accounts, healthy, Strategy::NextAvailable, preferred, models, x);
    let q = lemma_listed(accounts, healthy, Strategy::NextAvailable, preferred, models, y);
    lemma_distinct(accounts, i, p);
    lemma_distinct(accounts, j, q);
}

proof fn lemma_wraps(start: int, a: int, len: int)
    requires
        0 <= a < len,
        0 <= start <= len,
    ensures
        (start + a) % len == if start + a < len {
            start + a
        } else {
            start + a - len
        },
        0 <= (start + a) % len < len,
{
    if start + a < len {
        assert((start + a) % len == start + a) by (nonlinear_arith)
            requires
                0 <= start + a < len,
        ;
    } else if start + a < 2 * len {
        assert((start + a) % len == start + a - len) by (nonlinear_arith)
            requires
                len <= start + a < 2 * len,
        ;
    }
}

/// The steps of a turn at which two of its slots were taken.
proof fn lemma_round_order(
    accounts: Seq<AccountView>,
    start: int,
    ready_slots: Seq<u32>,
    n: int,
    x: int,
    y: int,
) -> (r: (int, int))
    requires
        accounts.len() > 0,
        0 <= start,
        0 <= n,
        0 <= x < y < in_rotation(accounts, start, ready_slots, n).len(),
    ensures
        0 <= r.0 < r.1 < n,
        in_rotation(accounts, start, ready_slots, n)[x] == accounts[(start + r.0)
            % accounts.len() as int].slot,
        in_rotation(accounts, start, ready_slots, n)[y] == accounts[(start + r.1)
            % accounts.len() as int].slot,
    decreases n,
{
    let rest = in_rotation(accounts, start, ready_slots, n - 1);
    if y < rest.len() {
        lemma_round_order(accounts, start, ready_slots, n - 1, x, y)
    } else {
        let a = lemma_round_at(accounts, start, ready_slots, n - 1, x);
        (a, n - 1)
    }
}

proof fn lemma_round_at(
    accounts: Seq<AccountView>,
    start: int,
    ready_slots: Seq<u32>,
    n: int,
    x: int,
) -> (r: int)
    requires
        accounts.len() > 0,
        0 <= start,
        0 <= n,
        0 <= x < in_rotation(accounts, start, ready_slots, n).len(),
    ensures
        0 <= r < n,
        in_rotation(accounts, start, ready_slots, n)[x] == accounts[(start + r)
            % accounts.len() as int].slot,
    decreases n,
{
    let rest = in_rotation(accounts, start, ready_slots, n - 1);
    if x < rest.len() {
        lemma_round_at(accounts, start, ready_slots, n - 1, x)
    } else {
        n - 1
    }
}

} // verus!
