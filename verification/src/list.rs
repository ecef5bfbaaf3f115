//! The board as lines of text.

use vstd::prelude::*;
use vstd::string::*;

use crate::auto_rank::binding_window;
use crate::contract::{AccountView, UsageStatus, Window, WindowKind};
use crate::errors::{error_about, is_error, ErrorCode, SwapdError};
use crate::gating::{any_account_wide, gating, has_account_wide, relevant};
use crate::numfmt::{show_whole, whole_text};
use crate::switch::decision_of;
use crate::text::{copy_list, decimal, same, show, texts};

verus! {

/// The providers that a caller names: all of them, or the one. An unknown one is an
/// error and not an empty list.
pub fn drivers_for(filter: Option<&str>, registry: &Vec<String>) -> (r: Result<
    Vec<String>,
    SwapdError,
>)
    ensures
        match filter {
            None => r matches Ok(v) && v@ == registry@,
            Some(id) => if texts(registry@).contains(id@) {
                r matches Ok(v) && texts(v@) == named(texts(registry@), id@) && v@.len() > 0
            } else {
                r matches Err(e) && is_error(
                    e,
                    ErrorCode::InvalidInput,
                    "unknown provider: "@ + id@ + ""@,
                )
            },
        },
{
    let id: &str = match filter {
        Some(id) => id,
        None => {
            return Ok(copy_list(registry));
        },
    };
    let ghost all = texts(registry@);
    let mut v: Vec<String> = Vec::new();
    let mut i: usize = 0;
    assert(all.take(0) =~= Seq::empty());
    assert(texts(v@) =~= Seq::empty());
    while i < registry.len()
        invariant
            i <= registry.len(),
            all == texts(registry@),
            texts(v@) == named(all.take(i as int), id@),
        decreases registry.len() - i,
    {
        broadcast use crate::text::lemma_texts_push;

        assert(all.take(i + 1).drop_last() =~= all.take(i as int));
        assert(all[i as int] == registry@[i as int]@);
        if same(registry[i].as_str(), id) {
            v.push(registry[i].clone());
        }
        i += 1;
    }
    assert(all.take(all.len() as int) =~= all);
    proof {
        lemma_named(all, id@);
        assert(texts(v@).len() == v@.len());
    }
    if v.len() == 0 {
        return Err(error_about(ErrorCode::InvalidInput, "unknown provider: ", id, ""));
    }
    Ok(v)
}

/// The texts of a list that are one text.
pub open spec fn named(list: Seq<Seq<char>>, id: Seq<char>) -> Seq<Seq<char>>
    decreases list.len(),
{
    if list.len() == 0 {
        Seq::empty()
    } else if list.last() == id {
        named(list.drop_last(), id).push(id)
    } else {
        named(list.drop_last(), id)
    }
}

proof fn lemma_named(list: Seq<Seq<char>>, id: Seq<char>)
    ensures
        named(list, id).len() > 0 <==> list.contains(id),
    decreases list.len(),
{
    if list.len() > 0 {
        let rest = list.drop_last();
        lemma_named(rest, id);
        if list.contains(id) && list.last() != id {
            let i = choose|i: int| 0 <= i < list.len() && list[i] == id;
            assert(rest[i] == id);
        }
        if rest.contains(id) {
            let i = choose|i: int| 0 <= i < rest.len() && rest[i] == id;
            assert(list[i] == id);
        }
        if list.last() == id {
            assert(list[list.len() - 1] == id);
        }
    }
}

/// The word for a status.
pub open spec fn status_text(status: UsageStatus) -> Seq<char> {
    match status {
        UsageStatus::Okay => "ok"@,
        UsageStatus::Stale => "stale"@,
        UsageStatus::ReloginRequired => "relogin-required"@,
        UsageStatus::TokenExpired => "token-expired"@,
        UsageStatus::NoCredentials => "no-credentials"@,
        UsageStatus::ApiKey => "api-key"@,
        UsageStatus::Unsupported => "unsupported"@,
    }
}

/// The word for a status.
pub fn status_label(status: UsageStatus) -> (r: &'static str)
    ensures
        r@ == status_text(status),
{
    match status {
        UsageStatus::Okay => "ok",
        UsageStatus::Stale => "stale",
        UsageStatus::ReloginRequired => "relogin-required",
        UsageStatus::TokenExpired => "token-expired",
        UsageStatus::NoCredentials => "no-credentials",
        UsageStatus::ApiKey => "api-key",
        UsageStatus::Unsupported => "unsupported",
    }
}

/// The percentage of the first window of a kind, or a dash.
pub open spec fn pct_column(windows: Seq<Window>, kind: WindowKind) -> Seq<char>
    decreases windows.len(),
{
    if windows.len() == 0 {
        "-"@
    } else if windows[0].kind == kind {
        whole_text(windows[0].pct as int, 1_000_000) + "%"@
    } else {
        pct_column(windows.drop_first(), kind)
    }
}

fn pct(windows: &Vec<Window>, kind: WindowKind) -> (r: String)
    ensures
        r@ == pct_column(windows@, kind),
{
    let mut i: usize = 0;
    assert(windows@.skip(0) =~= windows@);
    while i < windows.len()
        invariant
            i <= windows.len(),
            pct_column(windows@, kind) == pct_column(windows@.skip(i as int), kind),
        decreases windows.len() - i,
    {
        assert(windows@.skip(i as int)[0] == windows@[i as int]);
        assert(windows@.skip(i as int).drop_first() =~= windows@.skip(i + 1));
        if windows[i].kind == kind {
            return show_whole(windows[i].pct as i128, 1_000_000).concat("%");
        }
        i += 1;
    }
    "-".to_owned()
}

/// The columns of a row: the 5-hour and the 7-day window, or the window that binds an
/// account which has neither.
pub open spec fn columns(windows: Seq<Window>) -> Seq<char> {
    if has_account_wide(windows) {
        pct_column(windows, WindowKind::FiveHour) + " / "@ + pct_column(
            windows,
            WindowKind::SevenDay,
        )
    } else {
        match binding_window(gating(windows, Seq::empty())) {
            Some(w) => (match w.name {
                Some(n) => n@,
                None => "binding"@,
            }) + " "@ + whole_text(w.pct as int, 1_000_000) + "%"@,
            None => "- / -"@,
        }
    }
}

fn columns_of(windows: &Vec<Window>) -> (r: String)
    ensures
        r@ == columns(windows@),
{
    if any_account_wide(windows) {
        return pct(windows, WindowKind::FiveHour).concat(" / ").concat(
            pct(windows, WindowKind::SevenDay).as_str(),
        );
    }
    let models: Vec<String> = Vec::new();
    assert(models@ =~= Seq::<String>::empty());
    let list: Vec<&Window> = relevant(windows, &models);
    let ghost all = gating(windows@, models@);
    let mut best: Option<usize> = None;
    let mut i: usize = 0;
    assert(all.take(0) =~= Seq::empty());
    while i < list.len()
        invariant
            i <= list.len(),
            list@.map_values(|w: &Window| *w) == all,
            best is Some == binding_window(all.take(i as int)) is Some,
            best matches Some(b) ==> b < i && binding_window(all.take(i as int)) == Some(
                *list@[b as int],
            ),
        decreases list.len() - i,
    {
        proof {
            assert(all.take(i + 1).drop_last() =~= all.take(i as int));
            assert(all[i as int] == *list@[i as int]);
        }
        match best {
            Some(b) => {
                if list[i].pct > list[b].pct {
                    best = Some(i);
                }
            },
            None => {
                best = Some(i);
            },
        }
        i += 1;
    }
    assert(all.len() == list@.len());
    assert(all.take(all.len() as int) =~= all);
    match best {
        Some(b) => {
            let name: String = match &list[b].name {
                Some(n) => n.clone(),
                None => "binding".to_owned(),
            };
            name.concat(" ").concat(show_whole(list[b].pct as i128, 1_000_000).as_str()).concat("%")
        },
        None => "- / -".to_owned(),
    }
}

/// The utilization columns of one row: from the current windows, or from the last good
/// ones.
pub fn usage_columns(account: &AccountView) -> (r: String)
    ensures
        r@ == columns(decision_of(*account)),
{
    if account.windows.len() > 0 {
        return columns_of(&account.windows);
    }
    match &account.last_good {
        Some(g) => columns_of(&g.windows),
        None => {
            let none: Vec<Window> = Vec::new();
            assert(none@ =~= Seq::<Window>::empty());
            columns_of(&none)
        },
    }
}

/// One line of the board.
pub fn account_line(account: &AccountView) -> (r: String)
    ensures
        r@ == (if account.active {
            "*"@
        } else {
            " "@
        }) + " "@ + decimal(account.slot as nat) + " "@ + (match account.alias {
            Some(a) => a@,
            None => account.email@,
        }) + " "@ + status_text(account.usage_status) + " "@ + columns(decision_of(*account)),
{
    let mark: &str = if account.active {
        "*"
    } else {
        " "
    };
    let label: &str = match &account.alias {
        Some(a) => a.as_str(),
        None => account.email.as_str(),
    };
    mark.to_owned().concat(" ").concat(show(account.slot as u64).as_str()).concat(" ").concat(
        label,
    ).concat(" ").concat(status_label(account.usage_status)).concat(" ").concat(
        usage_columns(account).as_str(),
    )
}

} // verus!
