//! Which of an account's windows gate it, and how much room is left in the
//! binding one.

use vstd::prelude::*;

use crate::contract::{Window, WindowKind};
use crate::text::{holds, lower, lowercase, texts};
use crate::units::FULL_PCT;

verus! {

/// Whether a window counts for the whole account.
pub open spec fn account_wide(w: Window) -> bool {
    w.kind is FiveHour || w.kind is SevenDay
}

/// Whether any window counts for the whole account.
pub open spec fn has_account_wide(windows: Seq<Window>) -> bool {
    exists|i: int| 0 <= i < windows.len() && account_wide(#[trigger] windows[i])
}

/// The model names in lower case.
pub open spec fn wanted(models: Seq<String>) -> Seq<Seq<char>> {
    models.map_values(|m: String| lowercase(m@))
}

/// Whether one of an account's windows gates it: those for the whole account
/// always; a named scoped window when its model is wanted, when all are, or
/// when the account has no window for the whole account.
pub open spec fn gates(w: Window, wide: bool, names: Seq<Seq<char>>) -> bool {
    if account_wide(w) {
        true
    } else if w.kind is Scoped {
        w.name matches Some(name) && (!wide || names.contains("all"@) || names.contains(
            lowercase(name@),
        ))
    } else {
        false
    }
}

/// The windows that gate an account, in the order reported.
pub open spec fn gating(windows: Seq<Window>, models: Seq<String>) -> Seq<Window> {
    windows.filter(|w: Window| gates(w, has_account_wide(windows), wanted(models)))
}

/// The highest percentage among windows.
pub open spec fn peak(windows: Seq<Window>) -> Option<int>
    decreases windows.len(),
{
    if windows.len() == 0 {
        None
    } else {
        let w = windows.last();
        match peak(windows.drop_last()) {
            Some(p) => if w.pct > p {
                Some(w.pct as int)
            } else {
                Some(p)
            },
            None => Some(w.pct as int),
        }
    }
}

/// The percentage left before the binding window is full.
pub open spec fn room(windows: Seq<Window>, models: Seq<String>) -> Option<int> {
    match peak(gating(windows, models)) {
        Some(p) => Some(FULL_PCT - p),
        None => None,
    }
}

/// The percentage used of the binding window.
pub open spec fn bound_pct(windows: Seq<Window>, models: Seq<String>) -> Option<int> {
    peak(gating(windows, models))
}

/// The peak is reached by one window and exceeded by none.
pub proof fn law_peak_is_the_maximum(windows: Seq<Window>)
    ensures
        peak(windows) is None <==> windows.len() == 0,
        peak(windows) matches Some(p) ==> (exists|i: int|
            0 <= i < windows.len() && #[trigger] windows[i].pct == p) && (forall|i: int|
            0 <= i < windows.len() ==> #[trigger] windows[i].pct <= p),
    decreases windows.len(),
{
    if windows.len() > 0 {
        let rest = windows.drop_last();
        law_peak_is_the_maximum(rest);
        if rest.len() > 0 {
            let p = peak(rest)->0;
            let i = choose|i: int| 0 <= i < rest.len() && #[trigger] rest[i].pct == p;
            assert(windows[i].pct == p);
            assert forall|j: int| 0 <= j < windows.len() implies #[trigger] windows[j].pct
                <= peak(windows)->0 by {
                if j < rest.len() {
                    assert(rest[j].pct <= p);
                }
            }
        }
        assert(windows.last() == windows[windows.len() - 1]);
    }
}

/// The percentage left lies within what percentages of 64 bits leave.
pub proof fn law_room_is_bounded(windows: Seq<Window>, models: Seq<String>)
    ensures
        room(windows, models) matches Some(h) ==> 100_000_000 - i64::MAX <= h <= 100_000_000
            - i64::MIN,
{
    law_peak_is_the_maximum(gating(windows, models));
}

/// The model names in lower case.
pub(crate) fn lower_all(models: &Vec<String>) -> (r: Vec<String>)
    ensures
        texts(r@) == wanted(models@),
{
    let mut r: Vec<String> = Vec::new();
    let mut i: usize = 0;
    while i < models.len()
        invariant
            i <= models.len(),
            texts(r@) =~= wanted(models@).take(i as int),
        decreases models.len() - i,
    {
        broadcast use crate::text::lemma_texts_push;

        r.push(lower(models[i].as_str()));
        assert(wanted(models@)[i as int] == lowercase(models@[i as int]@));
        i += 1;
    }
    assert(wanted(models@).take(models@.len() as int) =~= wanted(models@));
    r
}

/// Whether any window counts for the whole account.
pub fn any_account_wide(windows: &Vec<Window>) -> (r: bool)
    ensures
        r == has_account_wide(windows@),
{
    let mut i: usize = 0;
    while i < windows.len()
        invariant
            i <= windows.len(),
            forall|j: int| 0 <= j < i ==> !account_wide(#[trigger] windows@[j]),
        decreases windows.len() - i,
    {
        match windows[i].kind {
            WindowKind::FiveHour | WindowKind::SevenDay => {
                assert(account_wide(windows@[i as int]));
                return true;
            },
            _ => {},
        }
        i += 1;
    }
    false
}

/// Every window that gates this account.
///
/// Always the 5-hour and 7-day windows. When `models` is non-empty each named
/// per-model window joins them, matched on its name without regard to case; the
/// name `all` matches every scoped window. Extra-usage credits never gate. An
/// account that reports no account-wide window at all is gated by every named
/// bucket instead.
pub fn relevant<'a>(windows: &'a Vec<Window>, models: &Vec<String>) -> (r: Vec<&'a Window>)
    ensures
        r@.map_values(|w: &Window| *w) == gating(windows@, models@),
{
    let names: Vec<String> = lower_all(models);
    let match_all: bool = holds(&names, "all");
    let wide: bool = any_account_wide(windows);
    let ghost keep = |w: Window| gates(w, has_account_wide(windows@), wanted(models@));
    let mut out: Vec<&'a Window> = Vec::new();
    let mut i: usize = 0;
    proof {
        reveal(Seq::filter);
        assert(windows@.take(0) =~= Seq::<Window>::empty());
        assert(windows@.take(0).filter(keep) =~= Seq::<Window>::empty());
    }
    while i < windows.len()
        invariant
            i <= windows.len(),
            texts(names@) == wanted(models@),
            match_all == wanted(models@).contains("all"@),
            wide == has_account_wide(windows@),
            keep == (|w: Window| gates(w, has_account_wide(windows@), wanted(models@))),
            out@.map_values(|w: &Window| *w) =~= windows@.take(i as int).filter(keep),
        decreases windows.len() - i,
    {
        let w: &'a Window = &windows[i];
        let gate: bool = match w.kind {
            WindowKind::FiveHour | WindowKind::SevenDay => true,
            WindowKind::Scoped => match &w.name {
                Some(name) => !wide || match_all || holds(&names, lower(name.as_str()).as_str()),
                None => false,
            },
            _ => false,
        };
        proof {
            reveal(Seq::filter);
            assert(windows@.take(i + 1).drop_last() =~= windows@.take(i as int));
            assert(windows@.take(i + 1).last() == *w);
            assert(gate == keep(*w));
        }
        if gate {
            out.push(w);
        }
        i += 1;
    }
    assert(windows@.take(windows@.len() as int) =~= windows@);
    out
}

/// The percentage used of the binding window.
pub fn highest(windows: &Vec<Window>, models: &Vec<String>) -> (r: Option<i64>)
    ensures
        r is Some == bound_pct(windows@, models@) is Some,
        r is Some ==> r->0 == bound_pct(windows@, models@)->0,
{
    let list: Vec<&Window> = relevant(windows, models);
    let ghost all = gating(windows@, models@);
    let mut best: Option<i64> = None;
    let mut i: usize = 0;
    while i < list.len()
        invariant
            i <= list.len(),
            list@.map_values(|w: &Window| *w) == all,
            best is Some == peak(all.take(i as int)) is Some,
            best is Some ==> best->0 == peak(all.take(i as int))->0,
        decreases list.len() - i,
    {
        let pct: i64 = list[i].pct;
        proof {
            assert(all.take(i + 1).drop_last() =~= all.take(i as int));
            assert(all[i as int] == *list@[i as int]);
        }
        best = match best {
            Some(p) => if pct > p {
                Some(pct)
            } else {
                Some(p)
            },
            None => Some(pct),
        };
        i += 1;
    }
    assert(all.len() == list@.len());
    assert(all.take(all.len() as int) =~= all);
    best
}

/// The percentage left before the binding window is full: zero or less means
/// that the account is at a limit. `None` when nothing is known, which callers
/// treat as unknown and never as a reason to skip.
pub fn headroom(windows: &Vec<Window>, models: &Vec<String>) -> (r: Option<i128>)
    ensures
        r is Some == room(windows@, models@) is Some,
        r is Some ==> r->0 == room(windows@, models@)->0,
        r matches Some(h) ==> FULL_PCT - i64::MAX <= h <= FULL_PCT - i64::MIN,
{
    match highest(windows, models) {
        Some(p) => Some(FULL_PCT as i128 - p as i128),
        None => None,
    }
}

} // verus!
