//! The log of switches, newest last.

use vstd::prelude::*;


verus! {

/// One end of a switch: the slot and the account that was on it. A login that no
/// slot claims has no number.
#[derive(Debug)]
pub struct SlotRef {
    pub slot: Option<u32>,
    pub email: String,
}

impl Clone for SlotRef {
    fn clone(&self) -> (r: SlotRef)
        ensures
            r == *self,
    {
        SlotRef { slot: self.slot, email: self.email.clone() }
    }
}

impl SlotRef {
    /// An account on a slot.
    pub fn numbered(slot: u32, email: String) -> (r: SlotRef)
        ensures
            r == (SlotRef { slot: Some(slot), email }),
    {
        SlotRef { slot: Some(slot), email }
    }

    /// An account that no slot claims.
    pub fn unmanaged(email: String) -> (r: SlotRef)
        ensures
            r == (SlotRef { slot: None, email }),
    {
        SlotRef { slot: None, email }
    }
}

/// One switch.
#[derive(Debug)]
pub struct SwitchRecord {
    /// RFC 3339, in UTC.
    pub ts: String,
    pub from: Option<SlotRef>,
    pub to: SlotRef,
    /// What asked for the switch.
    pub trigger: String,
}

impl Clone for SwitchRecord {
    fn clone(&self) -> (r: SwitchRecord)
        ensures
            r == *self,
    {
        SwitchRecord {
            ts: self.ts.clone(),
            from: match &self.from {
                Some(f) => Some(f.clone()),
                None => None,
            },
            to: self.to.clone(),
            trigger: self.trigger.clone(),
        }
    }
}

/// The last `limit` records, or all of them.
pub open spec fn newest(records: Seq<SwitchRecord>, limit: Option<usize>) -> Seq<SwitchRecord> {
    match limit {
        Some(n) => if records.len() > n {
            records.skip(records.len() - n)
        } else {
            records
        },
        None => records,
    }
}

/// The log newest last, at most `limit` records: the last ones.
pub fn read(records: &Vec<SwitchRecord>, limit: Option<usize>) -> (r: Vec<SwitchRecord>)
    ensures
        r@ == newest(records@, limit),
{
    let from: usize = match limit {
        Some(n) => if records.len() > n {
            records.len() - n
        } else {
            0
        },
        None => 0,
    };
    let mut r: Vec<SwitchRecord> = Vec::new();
    let mut i: usize = from;
    while i < records.len()
        invariant
            from <= i <= records.len(),
            r@ == records@.subrange(from as int, i as int),
        decreases records.len() - i,
    {
        r.push(records[i].clone());
        assert(r@ =~= records@.subrange(from as int, i + 1));
        i += 1;
    }
    assert(records@.subrange(from as int, records@.len() as int) =~= newest(records@, limit));
    r
}

/// A limited log is a tail of the whole one, and no longer than the limit.
pub proof fn law_limit_keeps_the_newest(records: Seq<SwitchRecord>, n: usize)
    ensures
        newest(records, Some(n)).len() <= n,
        newest(records, Some(n)).len() == n || newest(records, Some(n)) == records,
        records.len() > 0 && n > 0 ==> newest(records, Some(n)).last() == records.last(),
        newest(records, None) == records,
{
}

} // verus!
