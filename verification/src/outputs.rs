//! What the verbs answer, for programs and for people.

use vstd::prelude::*;
use vstd::string::*;

use crate::compact::{Compacted, Move};
use crate::history::{newest, read, SlotRef, SwitchRecord};
use crate::import::{ImportResult, Skipped};
use crate::switch::SwitchResult;
use crate::text::{decimal, show};

verus! {

/// The version of every answer.
pub const SCHEMA_VERSION: u32 = 1;

/// What a switch or a rotation answers.
#[derive(Debug)]
pub struct SwitchOutput {
    pub schema_version: u32,
    pub switched: bool,
    pub reason: Option<String>,
    pub from: Option<SlotRef>,
    pub to: Option<SlotRef>,
    pub warnings: Vec<String>,
}

/// The answer of a switch.
pub fn view(result: SwitchResult) -> (r: SwitchOutput)
    ensures
        r == (SwitchOutput {
            schema_version: SCHEMA_VERSION,
            switched: result.switched,
            reason: result.reason,
            from: result.from,
            to: Some(result.to),
            warnings: result.warnings,
        }),
{
    SwitchOutput {
        schema_version: SCHEMA_VERSION,
        switched: result.switched,
        reason: result.reason,
        from: result.from,
        to: Some(result.to),
        warnings: result.warnings,
    }
}

/// The slot that a rotation takes, or its answer where there is none.
pub fn rotation_target(ranked: &Vec<u32>) -> (r: Result<u32, SwitchOutput>)
    ensures
        ranked@.len() > 0 ==> r == Ok::<u32, SwitchOutput>(ranked@[0]),
        ranked@.len() == 0 ==> (r matches Err(o) && !o.switched && (o.reason matches Some(why)
            && why@ == "no-candidate"@) && o.from is None && o.to is None && o.warnings@.len() == 0
            && o.schema_version == SCHEMA_VERSION),
{
    if ranked.len() > 0 {
        return Ok(ranked[0]);
    }
    Err(
        SwitchOutput {
            schema_version: SCHEMA_VERSION,
            switched: false,
            reason: Some("no-candidate".to_owned()),
            from: None,
            to: None,
            warnings: Vec::new(),
        },
    )
}

/// The answer of a switch, as a line.
pub open spec fn switch_text(out: SwitchOutput) -> Seq<char> {
    match (out.switched, out.to) {
        (true, Some(to)) => "switched to slot "@ + (match to.slot {
            Some(n) => decimal(n as nat),
            None => ""@,
        }) + " ("@ + to.email@ + ")"@,
        _ => "no switch: "@ + (match out.reason {
            Some(why) => why@,
            None => "nothing to do"@,
        }),
    }
}

/// The answer of a switch, as a line.
pub fn switch_line(out: &SwitchOutput) -> (r: String)
    ensures
        r@ == switch_text(*out),
{
    match (out.switched, &out.to) {
        (true, Some(to)) => {
            let slot: String = match to.slot {
                Some(n) => show(n as u64),
                None => "".to_owned(),
            };
            "switched to slot ".to_owned().concat(slot.as_str()).concat(" (").concat(
                to.email.as_str(),
            ).concat(")")
        },
        _ => {
            let why: &str = match &out.reason {
                Some(why) => why.as_str(),
                None => "nothing to do",
            };
            "no switch: ".to_owned().concat(why)
        },
    }
}

/// What the log answers.
#[derive(Debug)]
pub struct HistoryOutput {
    pub schema_version: u32,
    pub switches: Vec<SwitchRecord>,
}

/// The answer of the log: the newest records.
pub fn history_output(records: &Vec<SwitchRecord>, limit: Option<usize>) -> (r: HistoryOutput)
    ensures
        r.schema_version == SCHEMA_VERSION,
        r.switches@ == newest(records@, limit),
{
    HistoryOutput { schema_version: SCHEMA_VERSION, switches: read(records, limit) }
}

/// A record of the log, as a line.
pub open spec fn record_text(record: SwitchRecord) -> Seq<char> {
    record.ts@ + " "@ + (match record.from {
        Some(f) => match f.slot {
            Some(n) => decimal(n as nat) + " ("@ + f.email@ + ")"@,
            None => "unmanaged ("@ + f.email@ + ")"@,
        },
        None => "-"@,
    }) + " -> "@ + (match record.to.slot {
        Some(n) => decimal(n as nat) + " ("@ + record.to.email@ + ")"@,
        None => record.to.email@,
    }) + " ("@ + record.trigger@ + ")"@
}

/// A record of the log, as a line.
pub fn record_line(record: &SwitchRecord) -> (r: String)
    ensures
        r@ == record_text(*record),
{
    let from: String = match &record.from {
        Some(f) => match f.slot {
            Some(n) => show(n as u64).concat(" (").concat(f.email.as_str()).concat(")"),
            None => "unmanaged (".to_owned().concat(f.email.as_str()).concat(")"),
        },
        None => "-".to_owned(),
    };
    let to: String = match record.to.slot {
        Some(n) => show(n as u64).concat(" (").concat(record.to.email.as_str()).concat(")"),
        None => record.to.email.clone(),
    };
    record.ts.clone().concat(" ").concat(from.as_str()).concat(" -> ").concat(to.as_str()).concat(
        " (",
    ).concat(record.trigger.as_str()).concat(")")
}

/// What an import answers.
#[derive(Debug)]
pub struct ImportOutput {
    pub schema_version: u32,
    pub imported: Vec<u32>,
    pub refreshed: Vec<u32>,
    pub skipped: Vec<SkippedView>,
    /// The slot that the file called active.
    pub active_slot: Option<u32>,
}

/// An account that an import left alone.
#[derive(Debug)]
pub struct SkippedView {
    pub slot: u32,
    pub email: String,
    pub reason: String,
}

/// Whether views are those of accounts that were left alone.
pub open spec fn views_skipped(views: Seq<SkippedView>, skipped: Seq<Skipped>) -> bool {
    views.len() == skipped.len() && forall|i: int|
        0 <= i < views.len() ==> #[trigger] views[i] == (SkippedView {
            slot: skipped[i].slot,
            email: skipped[i].email,
            reason: skipped[i].reason,
        })
}

/// The answer of an import.
pub fn import_view(result: ImportResult) -> (r: ImportOutput)
    ensures
        r.schema_version == SCHEMA_VERSION,
        r.imported == result.imported,
        r.refreshed == result.refreshed,
        r.active_slot == result.active_slot,
        views_skipped(r.skipped@, result.skipped@),
{
    let mut skipped: Vec<SkippedView> = Vec::new();
    let mut i: usize = 0;
    while i < result.skipped.len()
        invariant
            i <= result.skipped@.len(),
            views_skipped(skipped@, result.skipped@.take(i as int)),
        decreases result.skipped.len() - i,
    {
        skipped.push(
            SkippedView {
                slot: result.skipped[i].slot,
                email: result.skipped[i].email.clone(),
                reason: result.skipped[i].reason.clone(),
            },
        );
        i += 1;
    }
    assert(result.skipped@.take(result.skipped@.len() as int) =~= result.skipped@);
    ImportOutput {
        schema_version: SCHEMA_VERSION,
        imported: result.imported,
        refreshed: result.refreshed,
        skipped,
        active_slot: result.active_slot,
    }
}

/// What a renumbering answers.
#[derive(Debug)]
pub struct CompactOutput {
    pub schema_version: u32,
    pub ok: bool,
    pub compacted: Compacted,
}

/// What a removal answers.
#[derive(Debug)]
pub struct RemoveOutput {
    pub schema_version: u32,
    pub ok: bool,
    pub slot: u32,
    pub email: String,
    pub compacted: Compacted,
}

/// The answer of a renumbering.
pub fn compact_output(compacted: Compacted) -> (r: CompactOutput)
    ensures
        r == (CompactOutput { schema_version: SCHEMA_VERSION, ok: true, compacted }),
{
    CompactOutput { schema_version: SCHEMA_VERSION, ok: true, compacted }
}

/// The answer of a removal.
pub fn remove_output(slot: u32, email: String, compacted: Compacted) -> (r: RemoveOutput)
    ensures
        r == (RemoveOutput { schema_version: SCHEMA_VERSION, ok: true, slot, email, compacted }),
{
    RemoveOutput { schema_version: SCHEMA_VERSION, ok: true, slot, email, compacted }
}

/// A move, as a line.
pub fn move_line(m: Move) -> (r: String)
    ensures
        r@ == "slot "@ + decimal(m.from as nat) + " is now slot "@ + decimal(m.to as nat),
{
    "slot ".to_owned().concat(show(m.from as u64).as_str()).concat(" is now slot ").concat(
        show(m.to as u64).as_str(),
    )
}

} // verus!
