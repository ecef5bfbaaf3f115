//! What holds of an export and an import: which files are read, what is taken from an
//! account, which slots are written, and which login goes out.

use vstd::prelude::*;

use crate::collect::Credential;
use crate::errors::{ErrorCode, SwapdError};
use crate::export::{credential, entry, envelope_head, export_choice, targets, Choice, EnvelopeHead};
use crate::import::{
    accounts_for, active_slot, apply_rows, check_format, check_slots, decide, decide_all, import_result, row_of,
    valid_email, validate, Entry, Fate, ImportLogin, ImportResult,
};
use crate::json::{member, Json};
use crate::slots::{ProviderSlots, Slot};
use crate::split::{pieces, Sep};
use crate::table::Table;
use crate::text::{lowercase, opt_text, texts, trimmed};

verus! {

/// A file is read where it is not encrypted and is of the one format, or of the first
/// version where it names no format. Any other is refused as bad input.
pub proof fn law_which_files_are_read(envelope: Table<Json>, r: Result<(), SwapdError>, s: String, n: i128)
    requires
        call_ensures(check_format, (&envelope,), r),
    ensures
        member(envelope.items@, "encrypted"@) == Some(Json::Bool(true)) ==> r is Err,
        member(envelope.items@, "encrypted"@) != Some(Json::Bool(true)) && member(
            envelope.items@,
            "format"@,
        ) == Some(Json::Str(s)) ==> (r is Ok <==> s@ == "swapd/1"@),
        member(envelope.items@, "encrypted"@) != Some(Json::Bool(true)) && member(
            envelope.items@,
            "format"@,
        ) is None && member(envelope.items@, "version"@) == Some(Json::Int(n)) ==> (r is Ok <==> n
            == 1),
        member(envelope.items@, "format"@) is None && member(envelope.items@, "version"@) is None
            ==> r is Err,
        r is Err ==> r->Err_0.code == ErrorCode::InvalidInput,
{
}

/// The slot that a file calls active is the number under either of two names, the first of
/// which wins.
pub proof fn law_the_active_slot_of_a_file(items: Table<Json>, r: Option<u32>, n: u32)
    requires
        call_ensures(active_slot, (&items,), r),
    ensures
        member(items.items@, "activeSlot"@) == Some(Json::Int(n as i128)) ==> r == Some(n),
        member(items.items@, "activeSlot"@) is None && member(
            items.items@,
            "activeAccountNumber"@,
        ) == Some(Json::Int(n as i128)) ==> r == Some(n),
        member(items.items@, "activeSlot"@) is None && member(
            items.items@,
            "activeAccountNumber"@,
        ) is None ==> r is None,
{
}

/// A file with one list of accounts is read for every provider; an empty one is refused.
pub proof fn law_a_flat_file_is_read_for_every_provider<'a>(
    envelope: &'a Table<Json>,
    provider: &str,
    flat: Vec<Json>,
    r: Result<(&'a Vec<Json>, Option<u32>), SwapdError>,
)
    requires
        call_ensures(accounts_for, (envelope, provider), r),
        member(envelope.items@, "accounts"@) == Some(Json::List(flat)),
    ensures
        r is Ok <==> flat@.len() > 0,
        r is Ok ==> *r.unwrap().0 == flat,
        r is Err ==> r->Err_0.code == ErrorCode::InvalidInput,
{
}

/// A file by section is read in the first section of the provider: what is answered are the
/// accounts of a section that names it, and no section before that one names it.
pub proof fn law_a_grouped_file_is_read_by_section<'a>(
    envelope: &'a Table<Json>,
    provider: &str,
    list: Vec<Json>,
    r: Result<(&'a Vec<Json>, Option<u32>), SwapdError>,
)
    requires
        call_ensures(accounts_for, (envelope, provider), r),
        member(envelope.items@, "accounts"@) is None,
        member(envelope.items@, "providers"@) == Some(Json::List(list)),
    ensures
        r is Ok ==> exists|i: int|
            0 <= i < list@.len() && names_provider(#[trigger] list@[i], provider@) && (forall|j: int|
                0 <= j < i ==> !names_provider(#[trigger] list@[j], provider@))
                && member(list@[i]->Object_0.items@, "accounts"@) == Some(
                Json::List(*r.unwrap().0),
            ) && r.unwrap().0@.len() > 0,
        (forall|j: int| 0 <= j < list@.len() ==> !names_provider(#[trigger] list@[j], provider@))
            ==> r is Err,
{
    lemma_section(list@, provider@);
}

/// Whether a value is a section that names a provider.
pub open spec fn names_provider(j: Json, provider: Seq<char>) -> bool {
    j matches Json::Object(o) && (member(o.items@, "provider"@) matches Some(Json::Str(s)) && s@
        == provider)
}

proof fn lemma_section(list: Seq<Json>, provider: Seq<char>)
    ensures
        match crate::import::section_for(list, provider) {
            Some(j) => exists|i: int|
                0 <= i < list.len() && #[trigger] list[i] == j && names_provider(list[i], provider)
                    && (forall|k: int| 0 <= k < i ==> !names_provider(#[trigger] list[k], provider)),
            None => forall|k: int|
                0 <= k < list.len() ==> !names_provider(#[trigger] list[k], provider),
        },
    decreases list.len(),
{
    if list.len() > 0 {
        let rest = list.drop_first();
        lemma_section(rest, provider);
        assert(crate::import::is_section(list[0], provider) == names_provider(list[0], provider));
        assert forall|k: int| 1 <= k < list.len() implies #[trigger] list[k] == rest[k - 1] by {}
        if names_provider(list[0], provider) {
            assert(list[0] == list[0]);
        } else {
            match crate::import::section_for(rest, provider) {
                Some(j) => {
                    let i = choose|i: int|
                        0 <= i < rest.len() && #[trigger] rest[i] == j && names_provider(
                            rest[i],
                            provider,
                        ) && (forall|k: int|
                            0 <= k < i ==> !names_provider(#[trigger] rest[k], provider));
                    assert(list[i + 1] == j);
                    assert forall|k: int| 0 <= k < i + 1 implies !names_provider(
                        #[trigger] list[k],
                        provider,
                    ) by {
                        if k > 0 {
                            assert(list[k] == rest[k - 1]);
                        }
                    }
                },
                None => {},
            }
        }
    }
}

/// Whether the at sign of an address stands at a position: it is the only one, something
/// stands before it, and behind it a dot does, but neither first nor last.
pub open spec fn at_sign(email: Seq<char>, k: int) -> bool {
    &&& 0 < k < email.len()
    &&& email[k] == '@'
    &&& forall|j: int| 0 <= j < email.len() && j != k ==> #[trigger] email[j] != '@'
    &&& exists|i: int| k < i < email.len() && #[trigger] email[i] == '.'
    &&& email[k + 1] != '.'
    &&& email[email.len() - 1] != '.'
}

/// What counts as an address: a text with one at sign, with something before it and a dot
/// behind it that is neither first nor last there, without a slash of either kind, a space or
/// a colon.
pub proof fn law_what_counts_as_an_address(email: &str, r: bool)
    requires
        call_ensures(valid_email, (email,), r),
    ensures
        r <==> counts_as_address(email@),
{
    lemma_address(email@);
}

/// Whether a text counts as an address: one at sign that stands right, and none of the
/// characters of paths.
pub open spec fn counts_as_address(s: Seq<char>) -> bool {
    (exists|k: int| #[trigger] at_sign(s, k)) && (forall|i: int|
        0 <= i < s.len() ==> #[trigger] s[i] != '/' && s[i] != '\\' && s[i] != ' ' && s[i] != ':')
}

proof fn lemma_address(s: Seq<char>)
    ensures
        crate::import::is_address(s) <==> counts_as_address(s),
{
    let parts = pieces(s, Sep::Is('@'));
    lemma_parts(s, '@');
    if parts.len() == 2 {
        let k = choose|k: int| #[trigger] is_cut(s, '@', k, parts);
        assert(is_cut(s, '@', k, parts));
        assert forall|i: int| k < i < s.len() implies #[trigger] s[i] == parts[1][i - k - 1] by {}
        if crate::import::is_address(s) {
            let d = choose|d: int| 0 <= d < parts[1].len() && parts[1][d] == '.';
            assert(s[d + k + 1] == '.');
            assert(parts[1][0] == s[k + 1]);
            assert(parts[1].last() == s[s.len() - 1]);
            assert(at_sign(s, k));
            assert forall|i: int| 0 <= i < s.len() implies #[trigger] s[i] != '/' && s[i] != '\\'
                && s[i] != ' ' && s[i] != ':' by {
                assert(s.contains(s[i]));
            }
        } else if exists|j: int| #[trigger] at_sign(s, j) {
            let j = choose|j: int| #[trigger] at_sign(s, j);
            assert(s[k] == '@');
            assert(j == k);
            let i = choose|i: int| k < i < s.len() && #[trigger] s[i] == '.';
            assert(parts[1][i - k - 1] == '.');
            assert(parts[1].contains('.'));
            assert(parts[1][0] == s[k + 1]);
            assert(parts[1].last() == s[s.len() - 1]);
            if forall|i: int|
                0 <= i < s.len() ==> #[trigger] s[i] != '/' && s[i] != '\\' && s[i] != ' ' && s[i]
                    != ':' {
                if s.contains('/') {
                    let i = choose|i: int| 0 <= i < s.len() && s[i] == '/';
                    assert(s[i] != '/');
                }
                if s.contains('\\') {
                    let i = choose|i: int| 0 <= i < s.len() && s[i] == '\\';
                    assert(s[i] != '/');
                }
                if s.contains(' ') {
                    let i = choose|i: int| 0 <= i < s.len() && s[i] == ' ';
                    assert(s[i] != '/');
                }
                if s.contains(':') {
                    let i = choose|i: int| 0 <= i < s.len() && s[i] == ':';
                    assert(s[i] != '/');
                }
            }
        }
    } else if exists|j: int| #[trigger] at_sign(s, j) {
        let j = choose|j: int| #[trigger] at_sign(s, j);
        assert(s[j] == '@');
        lemma_one_cut(s, '@', j);
    }
}

/// Whether a text is cut in two at a position, by the only separator that it has.
pub open spec fn is_cut(s: Seq<char>, c: char, k: int, parts: Seq<Seq<char>>) -> bool {
    &&& 0 <= k < s.len()
    &&& s[k] == c
    &&& forall|j: int| 0 <= j < s.len() && j != k ==> #[trigger] s[j] != c
    &&& parts[0] == s.take(k)
    &&& parts[1] == s.skip(k + 1)
}

proof fn lemma_parts(s: Seq<char>, c: char)
    ensures
        pieces(s, Sep::Is(c)).len() >= 1,
        pieces(s, Sep::Is(c)).len() == 1 ==> pieces(s, Sep::Is(c))[0] == s && (forall|j: int|
            0 <= j < s.len() ==> #[trigger] s[j] != c),
        pieces(s, Sep::Is(c)).len() == 2 ==> exists|k: int| #[trigger]
            is_cut(s, c, k, pieces(s, Sep::Is(c))),
    decreases s.len(),
{
    let sep = Sep::Is(c);
    if s.len() == 0 {
        assert(pieces(s, sep)[0] =~= s);
    } else {
        let rest = s.drop_last();
        let before = pieces(rest, sep);
        lemma_parts(rest, c);
        let parts = pieces(s, sep);
        assert forall|j: int| 0 <= j < rest.len() implies #[trigger] s[j] == rest[j] by {}
        if s.last() == c {
            if parts.len() == 2 {
                let k = s.len() - 1;
                assert(parts[0] =~= s.take(k));
                assert(parts[1] =~= s.skip(k + 1));
                assert(is_cut(s, c, k, parts));
            }
        } else {
            if parts.len() == 1 {
                assert(parts[0] =~= s);
            }
            if parts.len() == 2 {
                let k = choose|k: int| #[trigger] is_cut(rest, c, k, before);
                assert(parts[0] =~= s.take(k));
                assert(parts[1] =~= s.skip(k + 1));
                assert(is_cut(s, c, k, parts));
            }
        }
    }
}

proof fn lemma_one_cut(s: Seq<char>, c: char, k: int)
    requires
        0 <= k < s.len(),
        s[k] == c,
        forall|j: int| 0 <= j < s.len() && j != k ==> #[trigger] s[j] != c,
    ensures
        pieces(s, Sep::Is(c)).len() == 2,
    decreases s.len(),
{
    let sep = Sep::Is(c);
    let rest = s.drop_last();
    lemma_parts(rest, c);
    assert forall|j: int| 0 <= j < rest.len() implies #[trigger] s[j] == rest[j] by {}
    if k == s.len() - 1 {
        lemma_no_cut(rest, c);
    } else {
        assert(s[s.len() - 1] != c);
        lemma_one_cut(rest, c, k);
    }
}

proof fn lemma_no_cut(s: Seq<char>, c: char)
    requires
        forall|j: int| 0 <= j < s.len() ==> #[trigger] s[j] != c,
    ensures
        pieces(s, Sep::Is(c)).len() == 1,
    decreases s.len(),
{
    if s.len() > 0 {
        let rest = s.drop_last();
        assert forall|j: int| 0 <= j < rest.len() implies #[trigger] rest[j] != c by {
            assert(rest[j] == s[j]);
        }
        assert(s[s.len() - 1] != c);
        lemma_no_cut(rest, c);
    }
}

/// The text under a name, trimmed where asked; nothing where it is missing, null or empty.
pub open spec fn label_at(account: Seq<(String, Json)>, name: Seq<char>, trims: bool) -> Option<
    Seq<char>,
> {
    match member(account, name) {
        Some(Json::Str(s)) => {
            let t = if trims {
                trimmed(s@)
            } else {
                s@
            };
            if t.len() == 0 {
                None
            } else {
                Some(t)
            }
        },
        _ => None,
    }
}

/// What is taken from an account of a file: each field from the member of its name. The
/// address, the alias and the icon are trimmed, an empty label is none, and a flag that is
/// missing is off.
pub proof fn law_an_account_is_read_by_its_members(
    object: Table<Json>,
    key_ok: bool,
    r: Result<Entry, SwapdError>,
)
    requires
        crate::json::unique(object.items@),
        call_ensures(validate, (Json::Object(object), key_ok), r),
    ensures
        r matches Ok(e) ==> {
            let a = object.items@;
            &&& member(a, "email"@) matches Some(Json::Str(s)) && e.email@ == trimmed(s@)
            &&& counts_as_address(e.email@)
            &&& member(a, "number"@) matches Some(n) ==> n == Json::Int(e.slot as i128)
            &&& member(a, "number"@) is None ==> member(a, "slot"@) == Some(
                Json::Int(e.slot as i128),
            )
            &&& e.slot >= 1
            &&& member(a, "organizationUuid"@) matches Some(Json::Str(s)) ==> s@
                == e.organization_uuid@
            &&& member(a, "organizationName"@) matches Some(Json::Str(s)) ==> s@
                == e.organization_name@
            &&& opt_text(e.alias) == label_at(a, "alias"@, true)
            &&& opt_text(e.icon) == label_at(a, "icon"@, true)
            &&& opt_text(e.plan) == label_at(a, "plan"@, false)
            &&& opt_text(e.added) == label_at(a, "added"@, false)
            &&& e.disabled == (member(a, "disabled"@) == Some(Json::Bool(true)))
            &&& e.preferred == (member(a, "preferred"@) == Some(Json::Bool(true)))
        },
        r is Err ==> r->Err_0.code == ErrorCode::InvalidInput,
{
    if r is Ok {
        lemma_address(r->Ok_0.email@);
    }
}

/// What is stored for an account of a file: a managed key as it is, trimmed, and only where
/// it is one; else the credential object, with the account that the file carries beside it.
pub proof fn law_a_login_is_taken_as_it_is(
    object: Table<Json>,
    key_ok: bool,
    r: Result<Entry, SwapdError>,
    c: Table<Json>,
    k: Seq<char>,
)
    requires
        crate::json::unique(object.items@),
        call_ensures(validate, (Json::Object(object), key_ok), r),
        r is Ok,
    ensures
        member(object.items@, "credentials"@) matches Some(Json::Str(s)) ==> key_ok && (
        r->Ok_0.login matches ImportLogin::Key(x) && x@ == trimmed(s@)),
        member(object.items@, "credentials"@) == Some(Json::Object(c)) && (k != "oauthAccount"@
            || member(object.items@, "config"@) is None) ==> (r->Ok_0.login matches ImportLogin::Object(
            o,
        ) && member(o.items@, k) == member(c.items@, k)),
        member(object.items@, "credentials"@) is Some,
{
}

/// A file is refused exactly where two of its accounts name one slot.
pub proof fn law_no_slot_is_named_twice(entries: Vec<Entry>, r: Result<(), SwapdError>)
    requires
        call_ensures(check_slots, (&entries,), r),
    ensures
        r is Ok <==> forall|i: int, j: int|
            0 <= i < j < entries@.len() ==> (#[trigger] entries@[i]).slot != (
            #[trigger] entries@[j]).slot,
{
    lemma_twice(entries@);
}

proof fn lemma_twice(entries: Seq<Entry>)
    ensures
        crate::import::named_twice(entries) is None <==> forall|i: int, j: int|
            0 <= i < j < entries.len() ==> (#[trigger] entries[i]).slot != (
            #[trigger] entries[j]).slot,
    decreases entries.len(),
{
    if entries.len() > 0 {
        let rest = entries.drop_last();
        let last = entries.last();
        lemma_twice(rest);
        lemma_last_on(rest, last.slot);
        assert forall|i: int| 0 <= i < rest.len() implies #[trigger] rest[i] == entries[i] by {}
        if crate::import::named_twice(entries) is None {
            assert forall|i: int, j: int| 0 <= i < j < entries.len() implies (
            #[trigger] entries[i]).slot != (#[trigger] entries[j]).slot by {
                assert(rest[i].slot == entries[i].slot);
                if j < rest.len() {
                    assert(rest[j].slot == entries[j].slot);
                }
            }
        } else if forall|i: int, j: int|
            0 <= i < j < entries.len() ==> (#[trigger] entries[i]).slot != (
            #[trigger] entries[j]).slot {
            assert forall|i: int, j: int| 0 <= i < j < rest.len() implies (
            #[trigger] rest[i]).slot != (#[trigger] rest[j]).slot by {
                assert(entries[i].slot != entries[j].slot);
            }
            let i = choose|i: int| 0 <= i < rest.len() && (#[trigger] rest[i]).slot == last.slot;
            assert(entries[i].slot != entries[entries.len() - 1].slot);
        }
    }
}

proof fn lemma_last_on(entries: Seq<Entry>, slot: u32)
    ensures
        crate::import::last_on(entries, slot) is Some <==> exists|i: int|
            0 <= i < entries.len() && (#[trigger] entries[i]).slot == slot,
    decreases entries.len(),
{
    if entries.len() > 0 {
        let rest = entries.drop_last();
        lemma_last_on(rest, slot);
        if entries.last().slot == slot {
            assert(entries[entries.len() - 1].slot == slot);
        } else if exists|i: int| 0 <= i < entries.len() && (#[trigger] entries[i]).slot == slot {
            let i = choose|i: int| 0 <= i < entries.len() && (#[trigger] entries[i]).slot == slot;
            assert(rest[i].slot == slot);
        } else if exists|i: int| 0 <= i < rest.len() && (#[trigger] rest[i]).slot == slot {
            let i = choose|i: int| 0 <= i < rest.len() && (#[trigger] rest[i]).slot == slot;
            assert(entries[i].slot == slot);
        }
    }
}

/// Whether a row is the account of an entry: its address without regard to case, and its
/// organization where the entry names one.
pub open spec fn is_the_account(e: Entry, s: Slot) -> bool {
    lowercase(s.email@) == lowercase(e.email@) && (e.organization_uuid@.len() > 0
        ==> s.organization_uuid@ == e.organization_uuid@)
}

/// Whether a row carries the labels and choices of an entry.
pub open spec fn has_the_labels(e: Entry, s: Slot) -> bool {
    opt_text(e.alias) == opt_text(s.alias) && opt_text(e.icon) == opt_text(s.icon) && e.disabled
        == s.disabled && e.preferred == s.preferred
}

/// What becomes of an account of a file. A free slot takes it, and so does any where it is
/// forced. A slot that another account holds refuses it. A slot that holds the account takes
/// the login only where that is newer, else the labels where they differ, else nothing.
pub proof fn law_what_becomes_of_an_account(
    e: Entry,
    slots: ProviderSlots,
    newer: bool,
    force: bool,
    r: Result<Fate, SwapdError>,
)
    requires
        slots.wf(),
        call_ensures(decide, (&e, &slots, newer, force), r),
    ensures
        !slots.slots@.contains_key(e.slot) ==> r == Ok::<Fate, SwapdError>(Fate::New),
        force ==> r == Ok::<Fate, SwapdError>(Fate::New),
        slots.slots@.contains_key(e.slot) && !force ==> {
            let s = slots.slots@[e.slot];
            &&& r is Err <==> !is_the_account(e, s)
            &&& r is Ok ==> (r->Ok_0 is Refresh <==> newer)
            &&& r is Ok && !newer ==> (r->Ok_0 is Update <==> !has_the_labels(e, s))
            &&& r is Ok && !newer ==> (r->Ok_0 is Skip <==> has_the_labels(e, s))
        },
        r is Err ==> r->Err_0.code == ErrorCode::InvalidInput,
{
}

/// The accounts of a file are judged each by itself; one refusal refuses the file, and
/// without force no account of another is ever replaced.
pub proof fn law_a_file_is_taken_whole_or_not(
    entries: Vec<Entry>,
    slots: ProviderSlots,
    newer: Vec<bool>,
    force: bool,
    r: Result<Vec<Fate>, SwapdError>,
)
    requires
        slots.wf(),
        newer@.len() == entries@.len(),
        call_ensures(decide_all, (&entries, &slots, &newer, force), r),
    ensures
        r is Ok <==> force || (forall|i: int|
            0 <= i < entries@.len() && slots.slots@.contains_key((#[trigger] entries@[i]).slot)
                ==> is_the_account(entries@[i], slots.slots@[entries@[i].slot])),
        r is Ok ==> r->Ok_0@.len() == entries@.len(),
        r is Ok ==> forall|i: int|
            0 <= i < entries@.len() ==> {
                let there = slots.slots@.contains_key((#[trigger] entries@[i]).slot) && !force;
                &&& r->Ok_0@[i] is New <==> !there
                &&& there ==> (r->Ok_0@[i] is Refresh <==> newer@[i])
                &&& there && !newer@[i] ==> (r->Ok_0@[i] is Skip <==> has_the_labels(
                    entries@[i],
                    slots.slots@[entries@[i].slot],
                ))
            },
{
    lemma_fates(entries@, slots.slots@, newer@, force);
}

proof fn lemma_fates(entries: Seq<Entry>, slots: Map<u32, Slot>, newer: Seq<bool>, force: bool)
    ensures
        crate::import::fates_of(entries, slots, newer, force) is Ok <==> (forall|i: int|
            0 <= i < entries.len() ==> crate::import::fate_of(
                #[trigger] entries[i],
                slots,
                newer[i],
                force,
            ) is Ok),
        crate::import::fates_of(entries, slots, newer, force) matches Ok(f) ==> f.len()
            == entries.len() && (forall|i: int|
            0 <= i < entries.len() ==> crate::import::fate_of(
                #[trigger] entries[i],
                slots,
                newer[i],
                force,
            ) == Ok::<Fate, Seq<char>>(f[i])),
    decreases entries.len(),
{
    if entries.len() > 0 {
        let rest = entries.drop_last();
        lemma_fates(rest, slots, newer, force);
        assert forall|i: int| 0 <= i < rest.len() implies #[trigger] rest[i] == entries[i] by {}
        let last = entries[entries.len() - 1];
        if crate::import::fates_of(entries, slots, newer, force) is Ok {
            assert forall|i: int| 0 <= i < entries.len() implies crate::import::fate_of(
                #[trigger] entries[i],
                slots,
                newer[i],
                force,
            ) is Ok && crate::import::fate_of(entries[i], slots, newer[i], force) == Ok::<
                Fate,
                Seq<char>,
            >(crate::import::fates_of(entries, slots, newer, force)->Ok_0[i]) by {
                if i < rest.len() {
                    assert(rest[i] == entries[i]);
                }
            }
        } else if forall|i: int|
            0 <= i < entries.len() ==> crate::import::fate_of(
                #[trigger] entries[i],
                slots,
                newer[i],
                force,
            ) is Ok {
            assert(crate::import::fate_of(last, slots, newer[entries.len() - 1], force) is Ok);
            assert forall|i: int| 0 <= i < rest.len() implies crate::import::fate_of(
                #[trigger] rest[i],
                slots,
                newer[i],
                force,
            ) is Ok by {
                assert(entries[i] == rest[i]);
            }
        }
    }
}

/// The row that is written. Every one takes the labels and choices of the file. One whose
/// login stays keeps its address, organization, plan, date and fingerprint; any other takes
/// them from the file, with the fingerprint of the login that is stored.
pub proof fn law_a_row_is_written_for_an_account(
    e: Entry,
    fate: Fate,
    occupant: Option<&Slot>,
    fingerprint: &str,
    r: Slot,
)
    requires
        fate is Update ==> occupant is Some,
        call_ensures(row_of, (&e, fate, occupant, fingerprint), r),
    ensures
        r.alias == e.alias && r.icon == e.icon,
        r.disabled == e.disabled && r.preferred == e.preferred,
        fate is Update ==> r.email == occupant->0.email && r.organization_uuid
            == occupant->0.organization_uuid && r.organization_name
            == occupant->0.organization_name && r.plan == occupant->0.plan && r.added
            == occupant->0.added && r.auto_ignite == occupant->0.auto_ignite && r.fingerprint
            == occupant->0.fingerprint,
        !(fate is Update) ==> r.email == e.email && r.organization_uuid == e.organization_uuid
            && r.organization_name == e.organization_name && r.plan == e.plan && r.added == e.added
            && !r.auto_ignite && opt_text(r.fingerprint) == Some(fingerprint@),
{
}

/// What is reported of an import: each account under what became of it, and nowhere else
/// where the file names no slot twice.
pub proof fn law_an_import_reports_what_became_of_it(
    entries: Vec<Entry>,
    fates: Vec<Fate>,
    active: Option<u32>,
    r: ImportResult,
    i: int,
)
    requires
        entries@.len() == fates@.len(),
        call_ensures(import_result, (&entries, &fates, active), r),
        forall|a: int, b: int|
            0 <= a < b < entries@.len() ==> (#[trigger] entries@[a]).slot != (
            #[trigger] entries@[b]).slot,
        0 <= i < entries@.len(),
    ensures
        r.imported@.contains(entries@[i].slot) <==> fates@[i] is New,
        r.refreshed@.contains(entries@[i].slot) <==> fates@[i] is Refresh,
        r.updated@.contains(entries@[i].slot) <==> fates@[i] is Update,
        (exists|j: int| 0 <= j < r.skipped@.len() && (#[trigger] r.skipped@[j]).slot
            == entries@[i].slot) <==> fates@[i] is Skip,
        r.active_slot == active,
{
    lemma_with_fate(entries@, fates@, Fate::New, i);
    lemma_with_fate(entries@, fates@, Fate::Refresh, i);
    lemma_with_fate(entries@, fates@, Fate::Update, i);
    lemma_entries_with(entries@, fates@, Fate::Skip, i);
    let skipped = crate::import::entries_with(entries@, fates@, Fate::Skip);
    if fates@[i] is Skip {
        let j = choose|j: int| 0 <= j < skipped.len() && #[trigger] skipped[j] == entries@[i];
        assert(r.skipped@[j].slot == entries@[i].slot);
    }
    if exists|j: int|
        0 <= j < r.skipped@.len() && (#[trigger] r.skipped@[j]).slot == entries@[i].slot {
        let j = choose|j: int|
            0 <= j < r.skipped@.len() && (#[trigger] r.skipped@[j]).slot == entries@[i].slot;
        assert(skipped[j].slot == entries@[i].slot);
    }
}

proof fn lemma_with_fate(entries: Seq<Entry>, fates: Seq<Fate>, fate: Fate, i: int)
    requires
        fates.len() <= entries.len(),
        forall|a: int, b: int|
            0 <= a < b < entries.len() ==> (#[trigger] entries[a]).slot != (
            #[trigger] entries[b]).slot,
        0 <= i < entries.len(),
    ensures
        crate::import::with_fate(entries, fates, fate).contains(entries[i].slot) <==> i
            < fates.len() && fates[i] == fate,
    decreases fates.len(),
{
    if fates.len() > 0 {
        let rest = fates.drop_last();
        let out = crate::import::with_fate(entries, fates, fate);
        let before = crate::import::with_fate(entries, rest, fate);
        let last = fates.len() - 1;
        lemma_with_fate(entries, rest, fate, i);
        assert(entries[last].slot == entries[i].slot <==> last == i);
        if before.contains(entries[i].slot) {
            let k = choose|k: int| 0 <= k < before.len() && before[k] == entries[i].slot;
            assert(out[k] == entries[i].slot);
        }
        if out.contains(entries[i].slot) {
            let k = choose|k: int| 0 <= k < out.len() && out[k] == entries[i].slot;
            if k < before.len() {
                assert(before[k] == entries[i].slot);
            }
        }
        if fates.last() == fate && last == i {
            assert(out[before.len() as int] == entries[i].slot);
        }
    }
}

proof fn lemma_entries_with(entries: Seq<Entry>, fates: Seq<Fate>, fate: Fate, i: int)
    requires
        fates.len() <= entries.len(),
        forall|a: int, b: int|
            0 <= a < b < entries.len() ==> (#[trigger] entries[a]).slot != (
            #[trigger] entries[b]).slot,
        0 <= i < entries.len(),
    ensures
        i < fates.len() && fates[i] == fate ==> exists|k: int|
            0 <= k < crate::import::entries_with(entries, fates, fate).len()
                && #[trigger] crate::import::entries_with(entries, fates, fate)[k] == entries[i],
        forall|k: int|
            0 <= k < crate::import::entries_with(entries, fates, fate).len() && (
            #[trigger] crate::import::entries_with(entries, fates, fate)[k]).slot
                == entries[i].slot ==> i < fates.len() && fates[i] == fate,
    decreases fates.len(),
{
    if fates.len() > 0 {
        let rest = fates.drop_last();
        let out = crate::import::entries_with(entries, fates, fate);
        let before = crate::import::entries_with(entries, rest, fate);
        let last = fates.len() - 1;
        lemma_entries_with(entries, rest, fate, i);
        assert(entries[last].slot == entries[i].slot <==> last == i);
        if i < rest.len() && fates[i] == fate {
            let k = choose|k: int| 0 <= k < before.len() && #[trigger] before[k] == entries[i];
            assert(out[k] == entries[i]);
        }
        if fates.last() == fate && last == i {
            assert(out[before.len() as int] == entries[i]);
        }
        assert forall|k: int|
            0 <= k < out.len() && (#[trigger] out[k]).slot == entries[i].slot implies i
            < fates.len() && fates[i] == fate by {
            if k < before.len() {
                assert(before[k].slot == entries[i].slot);
            }
        }
    }
}

/// Whether a login is the account of a row: by the address without regard to case and the
/// organization where it says whose it is, else by the fingerprint.
pub open spec fn is_login_of(l: Credential, s: Slot) -> bool {
    &&& l.identity is Some ==> lowercase(l.identity->0.email@) == lowercase(s.email@)
        && l.identity->0.organization_uuid@ == s.organization_uuid@
    &&& l.identity is None ==> opt_text(s.fingerprint) == Some(l.fingerprint@)
}

/// The live login goes out for the active slot alone, and only where it is that of the
/// account that the slot claims to hold; where it is not, something is said.
pub proof fn law_the_live_login_goes_out_for_its_own_slot(
    slot: u32,
    meta: Slot,
    active: bool,
    live: Result<Credential, String>,
    r: (bool, Option<String>),
)
    requires
        call_ensures(credential, (slot, &meta, active, &live), r),
    ensures
        r.0 <==> active && live is Ok && is_login_of(live->Ok_0, meta),
        r.1 is Some <==> active && !r.0,
{
}

/// What an export does with a slot: the live login goes out where it is taken, else the
/// stored one. A slot with neither is an error where it was named, else it is left out. The
/// configuration goes out with the live login only, and only where it is asked for.
pub proof fn law_a_slot_is_exported_with_a_login(
    slot: u32,
    meta: Slot,
    from_live: bool,
    warning: Option<String>,
    stored: bool,
    named: bool,
    full: bool,
    r: Result<Choice, SwapdError>,
)
    requires
        call_ensures(export_choice, (slot, &meta, from_live, warning, stored, named, full), r),
    ensures
        r is Err <==> !from_live && !stored && named,
        r is Ok ==> (r->Ok_0.source is Live <==> from_live),
        r is Ok ==> (r->Ok_0.source is Stored <==> !from_live && stored),
        r is Ok ==> (r->Ok_0.config <==> from_live && full),
        r is Ok && warning is Some ==> r->Ok_0.warnings@.len() > 0 && r->Ok_0.warnings@[0]@
            == warning->0@,
        r is Ok ==> r->Ok_0.warnings@.len() == (if warning is Some {
            1int
        } else {
            0int
        }) + (if r->Ok_0.source is Nowhere {
            1int
        } else {
            0int
        }),
{
    if r is Ok {
        let w = r->Ok_0.warnings@;
        assert(texts(w).len() == w.len());
        let said = opt_text(warning);
        let none = Seq::<Option<Seq<char>>>::empty();
        assert(seq![said].drop_last() =~= none);
        assert(crate::export::present(none) =~= Seq::empty());
        assert(crate::export::present(seq![said]) == match said {
            Some(t) => Seq::<Seq<char>>::empty().push(t),
            None => Seq::<Seq<char>>::empty(),
        });
        let last = Some(crate::export::missing_text(slot, meta) + "; skipped"@);
        assert(seq![said, last].drop_last() =~= seq![said]);
        assert(crate::export::present(seq![said, last]) == crate::export::present(seq![said]).push(
            last->0,
        ));
        if warning is Some {
            assert(texts(w)[0] == w[0]@);
            assert(texts(w)[0] == warning->0@);
        }
    }
}

/// Which slots are exported: the one that is named, where it exists; without a name each
/// that exists, and no other, and each once where the rotation names none twice.
pub proof fn law_which_slots_are_exported(
    table: ProviderSlots,
    provider: &str,
    slot: Option<u32>,
    r: Result<Vec<u32>, SwapdError>,
    n: u32,
)
    requires
        table.wf(),
        call_ensures(targets, (&table, provider, slot), r),
    ensures
        slot is Some ==> (r is Ok <==> table.slots@.contains_key(slot->0)),
        slot is Some && r is Ok ==> r->Ok_0@ == seq![slot->0],
        slot is None ==> (r is Ok <==> table.slots.items@.len() > 0),
        slot is None && r is Ok && table.slots@.contains_key(n) ==> r->Ok_0@.contains(n),
        slot is None && r is Ok && r->Ok_0@.contains(n) ==> table.slots@.contains_key(n),
        slot is None && r is Ok && table.order@.no_duplicates() ==> r->Ok_0@.no_duplicates(),
{
    if slot is Some && table.slots@.contains_key(slot->0) {
        let i = table.slots.lemma_position(slot->0);
    }
    if slot is None && r is Ok {
        crate::collect::law_rotation_names_every_slot(table);
    }
}

/// The entry that goes out: each member holds the field of its name.
pub proof fn law_an_entry_holds_the_account(
    slot: u32,
    meta: Slot,
    bytes: &str,
    api_key: bool,
    parsed: Option<Json>,
    r: Result<Vec<(String, Json)>, SwapdError>,
)
    requires
        call_ensures(entry, (slot, &meta, bytes, api_key, parsed), r),
    ensures
        r is Ok <==> api_key || (parsed is Some && parsed->0 is Object),
        r is Ok ==> {
            let f = r->Ok_0@;
            &&& member(f, "slot"@) == Some(Json::Int(slot as i128))
            &&& member(f, "email"@) matches Some(Json::Str(s)) && s@ == meta.email@
            &&& member(f, "organizationUuid"@) matches Some(Json::Str(s)) && s@
                == meta.organization_uuid@
            &&& member(f, "organizationName"@) matches Some(Json::Str(s)) && s@
                == meta.organization_name@
            &&& meta.alias is Some ==> (member(f, "alias"@) matches Some(Json::Str(s)) && s@
                == meta.alias->0@)
            &&& meta.alias is None ==> member(f, "alias"@) == Some(Json::Null)
            &&& meta.icon is Some ==> (member(f, "icon"@) matches Some(Json::Str(s)) && s@
                == meta.icon->0@)
            &&& meta.plan is Some ==> (member(f, "plan"@) matches Some(Json::Str(s)) && s@
                == meta.plan->0@)
            &&& member(f, "disabled"@) == Some(Json::Bool(meta.disabled))
            &&& member(f, "preferred"@) == Some(Json::Bool(meta.preferred))
            &&& api_key ==> (member(f, "credentials"@) matches Some(Json::Str(s)) && s@ == trimmed(
                bytes@,
            ))
            &&& !api_key ==> member(f, "credentials"@) == Some(parsed->0)
        },
{
    if r is Ok {
        let f = r->Ok_0@;
        crate::export::lemma_entry_names_differ();
        reveal_with_fuel(member, 12);
    }
}

/// The head of an export: its format, the provider, and the active slot where that is
/// exported too. There is none where nothing is.
pub proof fn law_an_export_says_what_it_is(
    provider: &str,
    active: Option<u32>,
    exported: Vec<u32>,
    now: i64,
    r: Result<EnvelopeHead, SwapdError>,
)
    requires
        call_ensures(envelope_head, (provider, active, &exported, now), r),
    ensures
        r is Ok <==> exported@.len() > 0,
        r is Ok ==> r->Ok_0.format@ == "swapd/1"@ && r->Ok_0.provider@ == provider@,
        r is Ok && active is Some && exported@.contains(active->0) ==> r->Ok_0.active_slot
            == active,
        r is Ok && r->Ok_0.active_slot is Some ==> r->Ok_0.active_slot == active
            && exported@.contains(r->Ok_0.active_slot->0),
{
}

/// What an import writes, where the file names no slot twice. A slot that it does not name
/// stays as it is, and so does one whose account is skipped. One that takes labels alone
/// keeps its account. Every slot that was written is in the rotation, in which the slots
/// that were there keep their places and a new one comes behind them. The active slot stays.
pub proof fn law_what_an_import_writes(
    entries: Vec<Entry>,
    fates: Vec<Fate>,
    prints: Vec<String>,
    landed: usize,
    i: int,
    n: u32,
)
    requires
        landed <= entries@.len(),
        landed <= fates@.len(),
        landed <= prints@.len(),
        forall|a: int, b: int|
            0 <= a < b < entries@.len() ==> (#[trigger] entries@[a]).slot != (
            #[trigger] entries@[b]).slot,
        0 <= i < landed,
        forall|a: int| 0 <= a < landed ==> (#[trigger] entries@[a]).slot != n,
    ensures
        forall|s: &mut ProviderSlots, r: bool|
            s.wf() && (forall|a: int|
                0 <= a < landed && (#[trigger] fates@[a]) is Update ==> s.slots@.contains_key(
                    entries@[a].slot,
                )) && #[trigger] call_ensures(
                apply_rows,
                (s, &entries, &fates, &prints, landed),
                r,
            ) ==> {
                let e = entries@[i];
                &&& final(s).slots@.contains_key(n) <==> s.slots@.contains_key(n)
                &&& s.slots@.contains_key(n) ==> final(s).slots@[n] == s.slots@[n]
                &&& fates@[i] is Skip && s.slots@.contains_key(e.slot) ==> final(s).slots@[e.slot]
                    == s.slots@[e.slot]
                &&& !(fates@[i] is Skip) ==> final(s).slots@.contains_key(e.slot)
                    && final(s).order@.contains(e.slot) && final(s).slots@[e.slot].alias == e.alias
                    && final(s).slots@[e.slot].disabled == e.disabled
                &&& fates@[i] is Update ==> final(s).slots@[e.slot].email
                    == s.slots@[e.slot].email && final(s).slots@[e.slot].fingerprint
                    == s.slots@[e.slot].fingerprint
                &&& fates@[i] is New || fates@[i] is Refresh ==> final(s).slots@[e.slot].email
                    == e.email && final(s).slots@[e.slot].fingerprint == Some(prints@[i])
                &&& final(s).order@.len() >= s.order@.len() && final(s).order@.take(
                    s.order@.len() as int,
                ) == s.order@
                &&& final(s).order@.contains(n) <==> s.order@.contains(n)
                &&& final(s).active_slot == s.active_slot
                &&& r <==> exists|a: int| 0 <= a < landed && !((#[trigger] fates@[a]) is Skip)
            },
{
    assert forall|s: &mut ProviderSlots, r: bool|
        s.wf() && (forall|a: int|
            0 <= a < landed && (#[trigger] fates@[a]) is Update ==> s.slots@.contains_key(
                entries@[a].slot,
            )) && #[trigger] call_ensures(
            apply_rows,
            (s, &entries, &fates, &prints, landed),
            r,
        ) implies {
        let e = entries@[i];
        &&& final(s).slots@.contains_key(n) <==> s.slots@.contains_key(n)
        &&& s.slots@.contains_key(n) ==> final(s).slots@[n] == s.slots@[n]
        &&& fates@[i] is Skip && s.slots@.contains_key(e.slot) ==> final(s).slots@[e.slot]
            == s.slots@[e.slot]
        &&& !(fates@[i] is Skip) ==> final(s).slots@.contains_key(e.slot)
            && final(s).order@.contains(e.slot) && final(s).slots@[e.slot].alias == e.alias
            && final(s).slots@[e.slot].disabled == e.disabled
        &&& fates@[i] is Update ==> final(s).slots@[e.slot].email == s.slots@[e.slot].email
            && final(s).slots@[e.slot].fingerprint == s.slots@[e.slot].fingerprint
        &&& fates@[i] is New || fates@[i] is Refresh ==> final(s).slots@[e.slot].email == e.email
            && final(s).slots@[e.slot].fingerprint == Some(prints@[i])
        &&& final(s).order@.len() >= s.order@.len() && final(s).order@.take(s.order@.len() as int)
            == s.order@
        &&& final(s).order@.contains(n) <==> s.order@.contains(n)
    } by {
        crate::import::law_import_leaves_other_slots(
            s.slots@,
            entries@,
            fates@,
            prints@,
            landed as int,
            n,
        );
        crate::import::law_every_account_that_landed_has_its_row(
            s.slots@,
            entries@,
            fates@,
            prints@,
            landed as int,
            i,
        );
        lemma_imported_order(s.order@, entries@, fates@, landed as int, i, n);
        assert(s.slots@.contains_key(entries@[i].slot) || !(fates@[i] is Update));
    }
}

proof fn lemma_imported_order(
    order: Seq<u32>,
    entries: Seq<Entry>,
    fates: Seq<Fate>,
    landed: int,
    i: int,
    n: u32,
)
    requires
        0 <= landed <= entries.len(),
        landed <= fates.len(),
        forall|a: int| 0 <= a < landed ==> (#[trigger] entries[a]).slot != n,
    ensures
        ({
            let out = crate::import::imported_order(order, entries, fates, landed);
            &&& out.len() >= order.len() && out.take(order.len() as int) == order
            &&& 0 <= i < landed && !(fates[i] is Skip) ==> out.contains(entries[i].slot)
            &&& out.contains(n) <==> order.contains(n)
        }),
    decreases landed,
{
    let out = crate::import::imported_order(order, entries, fates, landed);
    if landed <= 0 {
        assert(out.take(order.len() as int) =~= order);
    } else {
        lemma_imported_order(order, entries, fates, landed - 1, i, n);
        let rest = crate::import::imported_order(order, entries, fates, landed - 1);
        let last = entries[landed - 1].slot;
        assert(last != n);
        assert(out == rest || out == rest.push(last));
        if out == rest.push(last) && out != rest {
            assert(out.take(order.len() as int) =~= rest.take(order.len() as int));
            assert(out[rest.len() as int] == last);
            if rest.contains(n) {
                let k = choose|k: int| 0 <= k < rest.len() && rest[k] == n;
                assert(out[k] == n);
            }
            if out.contains(n) {
                let k = choose|k: int| 0 <= k < out.len() && out[k] == n;
                assert(rest[k] == n);
            }
            if 0 <= i < landed - 1 && !(fates[i] is Skip) {
                let k = choose|k: int| 0 <= k < rest.len() && rest[k] == entries[i].slot;
                assert(out[k] == entries[i].slot);
            }
        }
    }
}

} // verus!
