//! The course of one tick from its decision to its end: which target is tried, when the
//! pick is measured again, and what is reported.

use vstd::prelude::*;

use crate::auto::{Decision, Step, TickOutcome};
use crate::auto_rank::Snapshot;
use crate::auto_report::{ended, ends, exhausted_event, hold_event, reports, reports_exhausted};
use crate::auto_tick::{Attempt, Move, Tried};
use crate::events::Event;

verus! {

/// A tick on its way.
#[derive(Debug)]
pub struct Course {
    /// The attempts of the decision that is being carried out.
    pub attempt: Option<Attempt>,
    /// Whether the pick was measured again.
    pub remeasured: bool,
    /// Whether that was tried in vain, rather than not at all.
    pub failed: bool,
}

/// What a tick does next.
#[derive(Debug)]
pub enum CourseStep {
    /// Switch to a slot.
    Switch(u32),
    /// Measure a slot again, and decide again.
    Remeasure(u32),
    /// It ends, with a report.
    End(Event, TickOutcome),
}

impl Course {
    /// The attempts know whether the pick was measured again.
    pub open spec fn wf(&self) -> bool {
        self.attempt matches Some(a) ==> a.remeasured == self.remeasured
    }

    /// A tick that has done nothing.
    pub fn new() -> (r: Course)
        ensures
            r.wf(),
            r.attempt is None,
            !r.remeasured,
            !r.failed,
    {
        Course { attempt: None, remeasured: false, failed: false }
    }

    /// Takes a decision in: one to do nothing ends the tick with its report, any other is
    /// carried out.
    pub fn take(&mut self, d: &Decision) -> (r: Option<(Event, TickOutcome)>)
        ensures
            final(self).wf(),
            final(self).remeasured == old(self).remeasured,
            final(self).failed == old(self).failed,
            match d.step {
                Step::Hold(reason, outcome) => r matches Some(x) && reports(
                    x.0,
                    reason,
                    d.api_keys@,
                ) && x.1 == outcome && final(self).attempt is None,
                Step::AllExhausted(earliest) => r matches Some(x) && reports_exhausted(
                    x.0,
                    earliest,
                ) && x.1 is Blocked && final(self).attempt is None,
                Step::Try(trigger) => r is None && (final(self).attempt matches Some(a)
                    && a.trigger == trigger && a.ordered@ == d.ordered@ && a.at == 0
                    && !a.transient && a.unsupported is None),
            },
    {
        self.attempt = None;
        match d.step {
            Step::Hold(reason, outcome) => Some((hold_event(reason, &d.api_keys), outcome)),
            Step::AllExhausted(earliest) => Some((exhausted_event(earliest), TickOutcome::Blocked)),
            Step::Try(trigger) => {
                let mut ordered: Vec<u32> = Vec::new();
                let mut i: usize = 0;
                while i < d.ordered.len()
                    invariant
                        i <= d.ordered.len(),
                        ordered@ =~= d.ordered@.take(i as int),
                    decreases d.ordered.len() - i,
                {
                    ordered.push(d.ordered[i]);
                    i += 1;
                }
                assert(d.ordered@.take(d.ordered@.len() as int) =~= d.ordered@);
                self.attempt = Some(Attempt::new(trigger, ordered, self.remeasured));
                None
            },
        }
    }

    /// Whether a step is the next one of a tick.
    pub open spec fn goes_to(self, step: CourseStep, snap: Snapshot) -> bool {
        let next = self.attempt->0.next_move(snap);
        match step {
            CourseStep::Switch(slot) => next == Move::Switch(slot),
            CourseStep::Remeasure(slot) => next == Move::Remeasure(slot),
            CourseStep::End(e, outcome) => ends(
                e,
                outcome,
                next,
                self.attempt->0.unsupported,
                self.failed,
            ),
        }
    }

    /// What the tick does next.
    pub fn next(&self, snap: &Snapshot) -> (r: CourseStep)
        requires
            snap.wf(),
            self.attempt is Some,
        ensures
            self.goes_to(r, *snap),
    {
        let a: &Attempt = self.attempt.as_ref().unwrap();
        let next: Move = a.next(snap);
        match next {
            Move::Remeasure(slot) => CourseStep::Remeasure(slot),
            Move::Switch(slot) => CourseStep::Switch(slot),
            _ => {
                let x: (Event, TickOutcome) = ended(next, &a.unsupported, self.failed).unwrap();
                CourseStep::End(x.0, x.1)
            },
        }
    }

    /// Takes in what came of an attempt: how the tick ends, or `None` where it goes on.
    pub fn tried(&mut self, outcome: Tried) -> (r: Option<TickOutcome>)
        requires
            old(self).wf(),
            old(self).attempt matches Some(a) && a.at < a.ordered@.len(),
        ensures
            final(self).wf(),
            final(self).remeasured == old(self).remeasured,
            final(self).failed == old(self).failed,
            r == (match outcome {
                Tried::Switched => Some(TickOutcome::Switched),
                Tried::AlreadyActive => Some(TickOutcome::NoAction),
                Tried::Fault => Some(TickOutcome::Error),
                _ => None,
            }),
            r is Some ==> final(self).attempt == old(self).attempt,
            r is None ==> final(self).attempt == Some(
                Attempt {
                    at: (old(self).attempt->0.at + 1) as usize,
                    transient: old(self).attempt->0.transient || outcome is Transient,
                    unsupported: match outcome {
                        Tried::Unsupported(m) => Some(m),
                        _ => old(self).attempt->0.unsupported,
                    },
                    ..old(self).attempt->0
                },
            ),
    {
        let mut a: Attempt = self.attempt.take().unwrap();
        let r: Option<TickOutcome> = a.tried(outcome);
        self.attempt = Some(a);
        r
    }

    /// Takes in that the pick was measured again; `claimed` says whether the measuring
    /// was made here, rather than left to another or to a backoff.
    pub fn measured_again(&mut self, claimed: bool)
        ensures
            final(self).wf(),
            final(self).attempt is None,
            final(self).remeasured,
            final(self).failed == claimed,
    {
        self.attempt = None;
        self.remeasured = true;
        self.failed = claimed;
    }
}

/// A tick measures a pick again at most once.
pub proof fn law_a_pick_is_measured_again_once(c: Course, step: CourseStep, snap: Snapshot)
    requires
        c.wf(),
        c.attempt is Some,
        c.remeasured,
        c.goes_to(step, snap),
    ensures
        !(step is Remeasure),
{
}

} // verus!
