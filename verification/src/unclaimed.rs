//! The logins that a switch put by, since no slot owned them.

use vstd::prelude::*;
use vstd::string::*;

use crate::errors::{error_about, is_error, ErrorCode, SwapdError};
use crate::switch::{stash_id, stash_id_text, stash_key, stash_second, stash_text};
use crate::table::Table;
use crate::timefmt::{format_seconds, stamp_of_seconds};
use crate::units::MICRO;

verus! {

/// One login that was put by.
#[derive(Debug)]
pub struct Entry {
    pub provider: String,
    /// Unix seconds.
    pub stashed_at: u64,
    /// Empty for a login that names nobody.
    pub email: String,
    pub fingerprint: String,
    pub reason: String,
    /// Where the bytes are.
    pub secret_key: String,
}

/// The logins that were put by, by their id.
#[derive(Debug)]
pub struct Manifest {
    pub entries: Table<Entry>,
}

/// Unix seconds as a signed number, the way they wrap.
pub open spec fn signed_seconds(seconds: u64) -> i64 {
    if seconds <= i64::MAX {
        seconds as i64
    } else {
        (seconds - 0x1_0000_0000_0000_0000) as i64
    }
}

/// When a login was put by, in RFC 3339 with a `Z`; empty outside the years 0 to 9999.
pub fn format_stashed_at(seconds: u64) -> (r: String)
    ensures
        r@ == stamp_of_seconds(signed_seconds(seconds)),
        r@.len() > 0 ==> r@.last() == 'Z',
{
    let signed: i64 = if seconds <= 0x7fff_ffff_ffff_ffff {
        seconds as i64
    } else {
        (seconds as i128 - 0x1_0000_0000_0000_0000) as i64
    };
    format_seconds(signed)
}

/// The entry of a login that a switch puts by, and its id. The id, the key and the
/// moment are made of the same second, so they never disagree.
pub fn stash_entry(provider: &str, now: i64, email: &str, fingerprint: &str) -> (r: (String, Entry))
    ensures
        r.0@ == stash_id_text(now, fingerprint@),
        r.1.provider@ == provider@,
        r.1.stashed_at == stash_second(now),
        r.1.email@ == email@,
        r.1.fingerprint@ == fingerprint@,
        r.1.reason@ == "switch: live login matched no slot"@,
        r.1.secret_key@ == stash_text(provider@, now, fingerprint@),
{
    let second: u64 = if now < 0 {
        0
    } else {
        (now / MICRO) as u64
    };
    (
        stash_id(now, fingerprint),
        Entry {
            provider: provider.to_owned(),
            stashed_at: second,
            email: email.to_owned(),
            fingerprint: fingerprint.to_owned(),
            reason: "switch: live login matched no slot".to_owned(),
            secret_key: stash_key(provider, now, fingerprint),
        },
    )
}

impl Manifest {
    /// The entries are well-formed.
    pub open spec fn wf(&self) -> bool {
        self.entries.wf()
    }

    /// Nothing.
    pub fn new() -> (r: Manifest)
        ensures
            r.wf(),
            r.entries@ == Map::<Seq<char>, Entry>::empty(),
    {
        Manifest { entries: Table::new() }
    }

    /// Adds an entry, in place of one with that id.
    pub fn record(&mut self, id: String, entry: Entry)
        requires
            old(self).wf(),
        ensures
            final(self).wf(),
            final(self).entries@ == old(self).entries@.insert(id@, entry),
    {
        self.entries.insert(id, entry);
    }

    /// Where the bytes of an entry are, which go first when it is purged.
    pub fn secret_key(&self, id: &str) -> (r: Result<String, SwapdError>)
        requires
            self.wf(),
        ensures
            if self.entries@.contains_key(id@) {
                r == Ok::<String, SwapdError>(self.entries@[id@].secret_key)
            } else {
                r matches Err(e) && is_error(
                    e,
                    ErrorCode::InvalidInput,
                    "no unclaimed entry "@ + id@ + ""@,
                )
            },
    {
        match self.entries.get(id) {
            Some(e) => Ok(e.secret_key.clone()),
            None => Err(error_about(ErrorCode::InvalidInput, "no unclaimed entry ", id, "")),
        }
    }

    /// Takes an entry out.
    pub fn purge(&mut self, id: &str) -> (r: Result<Entry, SwapdError>)
        requires
            old(self).wf(),
        ensures
            final(self).wf(),
            if old(self).entries@.contains_key(id@) {
                &&& r == Ok::<Entry, SwapdError>(old(self).entries@[id@])
                &&& final(self).entries@ == old(self).entries@.remove(id@)
            } else {
                &&& r matches Err(e) && is_error(
                    e,
                    ErrorCode::InvalidInput,
                    "no unclaimed entry "@ + id@ + ""@,
                )
                &&& final(self).entries@ == old(self).entries@
            },
    {
        let ghost was = self.entries@;
        match self.entries.remove(id) {
            Some(e) => Ok(e),
            None => {
                assert(was.remove(id@) =~= was);
                Err(error_about(ErrorCode::InvalidInput, "no unclaimed entry ", id, ""))
            },
        }
    }
}

/// What was recorded is read back, and gone once it is purged.
pub proof fn law_recorded_entries_are_read_back(entries: Map<Seq<char>, Entry>, id: Seq<char>, entry: Entry)
    ensures
        entries.insert(id, entry)[id] == entry,
        !entries.insert(id, entry).remove(id).contains_key(id),
        !entries.contains_key(id) ==> entries.insert(id, entry).remove(id) == entries,
{
    if !entries.contains_key(id) {
        assert(entries.insert(id, entry).remove(id) =~= entries);
    }
}

/// One row of the list.
#[derive(Debug)]
pub struct UnclaimedRow {
    pub id: String,
    pub provider: String,
    pub stashed_at: String,
    pub email: String,
    pub reason: String,
}

/// The list.
#[derive(Debug)]
pub struct UnclaimedOutput {
    pub schema_version: u32,
    pub entries: Vec<UnclaimedRow>,
}

/// What was purged.
#[derive(Debug)]
pub struct PurgeOutput {
    pub schema_version: u32,
    pub purged: String,
}

/// Whether a row shows an entry.
pub open spec fn is_row(r: UnclaimedRow, id: String, e: Entry) -> bool {
    &&& r.id == id
    &&& r.provider == e.provider
    &&& r.stashed_at@ == stamp_of_seconds(signed_seconds(e.stashed_at))
    &&& r.email == e.email
    &&& r.reason == e.reason
}

/// The row of an entry.
pub fn row(id: &String, e: &Entry) -> (r: UnclaimedRow)
    ensures
        is_row(r, *id, *e),
{
    UnclaimedRow {
        id: id.clone(),
        provider: e.provider.clone(),
        stashed_at: format_stashed_at(e.stashed_at),
        email: e.email.clone(),
        reason: e.reason.clone(),
    }
}

/// The list of what was put by, in the order of the ids.
pub fn list(manifest: &Manifest) -> (r: UnclaimedOutput)
    ensures
        r.schema_version == 1,
        r.entries@.len() == manifest.entries.items@.len(),
        forall|i: int|
            0 <= i < r.entries@.len() ==> is_row(
                #[trigger] r.entries@[i],
                manifest.entries.items@[i].0,
                manifest.entries.items@[i].1,
            ),
{
    let mut entries: Vec<UnclaimedRow> = Vec::new();
    let mut i: usize = 0;
    while i < manifest.entries.items.len()
        invariant
            i <= manifest.entries.items@.len(),
            entries@.len() == i,
            forall|k: int|
                0 <= k < i ==> is_row(
                    #[trigger] entries@[k],
                    manifest.entries.items@[k].0,
                    manifest.entries.items@[k].1,
                ),
        decreases manifest.entries.items.len() - i,
    {
        entries.push(row(&manifest.entries.items[i].0, &manifest.entries.items[i].1));
        i += 1;
    }
    UnclaimedOutput { schema_version: 1, entries }
}

/// One row as a line.
pub fn human_line(e: &UnclaimedRow) -> (r: String)
    ensures
        r@ == e.id@ + "  "@ + e.provider@ + "  "@ + (if e.email@.len() == 0 {
            "(no identity)"@
        } else {
            e.email@
        }) + "  "@ + e.stashed_at@ + "  "@ + e.reason@,
{
    let email: &str = if e.email.as_str().is_empty() {
        "(no identity)"
    } else {
        e.email.as_str()
    };
    e.id.clone().concat("  ").concat(e.provider.as_str()).concat("  ").concat(email).concat(
        "  ",
    ).concat(e.stashed_at.as_str()).concat("  ").concat(e.reason.as_str())
}

} // verus!
