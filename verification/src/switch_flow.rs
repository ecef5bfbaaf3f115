//! The course of a switch, from a target that was found fit to a login that is live.
//!
//! The steps that reach outside (renewing, storing, writing) are made elsewhere; what
//! comes of each is handed back here, and the next step follows from it.

use vstd::prelude::*;
use vstd::string::*;

use crate::errors::{is_error, ErrorCode, SwapdError};
use crate::history::SlotRef;
use crate::switch::{Freshen, SwitchResult};
use crate::switch_perform::{
    anyway_text, dead_text, denied_text, landed, refresh_if_stale, unlogged_text, unrecorded_text,
    write_failed, Outgoing, Renewal,
};
use crate::text::decimal;

verus! {

/// A step of a switch.
#[derive(Clone, Copy, Debug, PartialEq, Eq, Structural)]
pub enum SwitchStep {
    /// Renew the target's login, and store the successor.
    Renew,
    /// Read the live login under the lock, and put it where it survives.
    Preserve,
    /// Write the target's login over the live one.
    Write,
    /// Write the login back that was live before.
    Restore,
    /// Record the target as the active slot.
    Record,
    /// Log the switch.
    Log,
}

/// What came of a step.
#[derive(Debug)]
pub enum SwitchEvent {
    /// The target was renewed, or not.
    Renewal(Renewal),
    /// The live login survives; `None` where there was none.
    Kept(Option<Outgoing>),
    Done,
    /// It failed; why.
    Failed(String),
}

/// A switch on its way.
#[derive(Debug)]
pub struct SwitchFlow {
    pub target: u32,
    pub freshen: Freshen,
    pub to: SlotRef,
    pub step: SwitchStep,
    /// Where the login came from that was live before, if one was.
    pub from: Option<SlotRef>,
    pub warnings: Vec<String>,
    /// Whether the renewed login lands, rather than the stored one.
    pub renewed: bool,
    /// Why the live store could not be written.
    pub write_error: Option<String>,
    /// Why the landing could not be recorded.
    pub unrecorded: Option<String>,
}

/// How a switch goes on.
#[derive(Debug)]
pub enum SwitchNext {
    /// It goes on with its next step.
    Go(SwitchFlow),
    /// The target is live.
    Landed(SwitchResult),
    /// It failed, for this reason.
    Failed(SwapdError),
    /// It failed: the error of the step that could not be made stands, which is the
    /// write where a write was undone.
    Stopped,
}

/// Whether an event can come of a step.
pub open spec fn can_follow(step: SwitchStep, event: SwitchEvent) -> bool {
    match step {
        SwitchStep::Renew => event is Renewal,
        SwitchStep::Preserve => event is Kept || event is Failed,
        _ => event is Done || event is Failed,
    }
}

/// Whether warnings are `before` with one more text behind them.
pub open spec fn one_more(after: Seq<String>, before: Seq<String>, text: Seq<char>) -> bool {
    after.len() == before.len() + 1 && after.drop_last() == before && after.last()@ == text
}

/// Whether `next` is how a switch goes on when a renewal came out so.
pub open spec fn after_renewal(f: SwitchFlow, renewal: Renewal, next: SwitchNext) -> bool {
    match renewal {
        Renewal::NotNeeded | Renewal::Renewed => next matches SwitchNext::Go(g) && g == (
        SwitchFlow {
            step: SwitchStep::Preserve,
            renewed: renewal is Renewed,
            warnings: g.warnings,
            ..f
        }) && g.warnings@ == f.warnings@,
        Renewal::Dead => next matches SwitchNext::Failed(e) && is_error(
            e,
            ErrorCode::TokenDead,
            dead_text(f.target),
        ),
        Renewal::Failed(why) => if f.freshen.required {
            next matches SwitchNext::Failed(e) && is_error(
                e,
                ErrorCode::RefreshDenied,
                denied_text(f.target, f.freshen, why@),
            )
        } else {
            next matches SwitchNext::Go(g) && g == (SwitchFlow {
                step: SwitchStep::Preserve,
                renewed: false,
                warnings: g.warnings,
                ..f
            }) && one_more(
                g.warnings@,
                f.warnings@,
                anyway_text(f.target, why@),
            )
        },
    }
}

/// Whether `next` is how a switch goes on when the live login was kept.
pub open spec fn after_keeping(
    f: SwitchFlow,
    kept: Option<Outgoing>,
    next: SwitchNext,
) -> bool {
    next matches SwitchNext::Go(g) && g == (SwitchFlow {
        step: SwitchStep::Write,
        from: g.from,
        warnings: g.warnings,
        ..f
    }) && match kept {
        None => g.from is None && g.warnings == f.warnings,
        Some(out) => g.from == Some(out.from) && match out.warning {
            Some(w) => g.warnings@ == f.warnings@.push(w),
            None => g.warnings == f.warnings,
        },
    }
}

/// Whether `r` is the result of a switch that landed with this much left unsaid.
pub open spec fn lands(r: SwitchResult, f: SwitchFlow, unlogged: Option<String>) -> bool {
    let first = f.warnings@.len() as int;
    let more = (if f.unrecorded is Some {
        1int
    } else {
        0
    }) + (if unlogged is Some {
        1int
    } else {
        0
    });
    &&& r.switched
    &&& r.reason is None
    &&& r.from == f.from
    &&& r.to == f.to
    &&& r.warnings@.len() == first + more
    &&& r.warnings@.take(first) == f.warnings@
    &&& f.unrecorded matches Some(why) ==> r.warnings@[first]@ == unrecorded_text(f.target, why@)
    &&& unlogged matches Some(why) ==> r.warnings@.last()@ == unlogged_text(why@)
}

/// Whether `next` is how a switch goes on.
pub open spec fn goes_on(f: SwitchFlow, event: SwitchEvent, next: SwitchNext) -> bool {
    match (f.step, event) {
        (SwitchStep::Renew, SwitchEvent::Renewal(renewal)) => after_renewal(f, renewal, next),
        (SwitchStep::Preserve, SwitchEvent::Kept(kept)) => after_keeping(f, kept, next),
        (SwitchStep::Preserve, SwitchEvent::Failed(_)) => next is Stopped,
        (SwitchStep::Write, SwitchEvent::Done) => next == SwitchNext::Go(
            SwitchFlow { step: SwitchStep::Record, ..f },
        ),
        (SwitchStep::Write, SwitchEvent::Failed(why)) => if f.from is Some {
            next == SwitchNext::Go(
                SwitchFlow { step: SwitchStep::Restore, write_error: Some(why), ..f },
            )
        } else {
            next is Stopped
        },
        (SwitchStep::Restore, SwitchEvent::Done) => next is Stopped,
        (SwitchStep::Restore, SwitchEvent::Failed(again)) => next matches SwitchNext::Failed(e)
            && is_error(
            e,
            ErrorCode::Io,
            "switch to slot "@ + decimal(f.target as nat) + (" failed ("@ + (match f.write_error {
                Some(why) => why@,
                None => ""@,
            }) + ") and the previous live login could not be restored ("@ + again@
                + "); it is preserved in swapd's store"@),
        ),
        (SwitchStep::Record, SwitchEvent::Done) => next == SwitchNext::Go(
            SwitchFlow { step: SwitchStep::Log, ..f },
        ),
        (SwitchStep::Record, SwitchEvent::Failed(why)) => next == SwitchNext::Go(
            SwitchFlow { step: SwitchStep::Log, unrecorded: Some(why), ..f },
        ),
        (SwitchStep::Log, SwitchEvent::Done) => next matches SwitchNext::Landed(r) && lands(
            r,
            f,
            None,
        ),
        (SwitchStep::Log, SwitchEvent::Failed(why)) => next matches SwitchNext::Landed(r) && lands(
            r,
            f,
            Some(why),
        ),
        _ => true,
    }
}

impl SwitchFlow {
    /// A switch to a target that was found fit and is not live yet: it starts with a
    /// renewal where the target's login goes stale.
    pub fn new(target: u32, to: SlotRef, freshen: Freshen, stale: bool) -> (r: SwitchFlow)
        ensures
            r.target == target,
            r.to == to,
            r.freshen == freshen,
            r.step == if stale {
                SwitchStep::Renew
            } else {
                SwitchStep::Preserve
            },
            r.from is None,
            r.warnings@.len() == 0,
            !r.renewed,
            r.write_error is None,
            r.unrecorded is None,
    {
        SwitchFlow {
            target,
            freshen,
            to,
            step: if stale {
                SwitchStep::Renew
            } else {
                SwitchStep::Preserve
            },
            from: None,
            warnings: Vec::new(),
            renewed: false,
            write_error: None,
            unrecorded: None,
        }
    }

    fn to_step(self, step: SwitchStep) -> (r: SwitchNext)
        ensures
            r == SwitchNext::Go(SwitchFlow { step, ..self }),
    {
        let mut f: SwitchFlow = self;
        f.step = step;
        SwitchNext::Go(f)
    }

    fn renewed_so(self, renewal: Renewal) -> (r: SwitchNext)
        ensures
            after_renewal(self, renewal, r),
    {
        let mut f: SwitchFlow = self;
        let mut warnings: Vec<String> = f.warnings;
        match refresh_if_stale(f.target, f.freshen, renewal, &mut warnings) {
            Err(e) => SwitchNext::Failed(e),
            Ok(renewed) => {
                f.warnings = warnings;
                f.renewed = renewed;
                f.step = SwitchStep::Preserve;
                SwitchNext::Go(f)
            },
        }
    }

    fn kept(self, kept: Option<Outgoing>) -> (r: SwitchNext)
        ensures
            after_keeping(self, kept, r),
    {
        let mut f: SwitchFlow = self;
        f.step = SwitchStep::Write;
        f.from = None;
        if let Some(out) = kept {
            f.from = Some(out.from);
            if let Some(w) = out.warning {
                f.warnings.push(w);
            }
        }
        SwitchNext::Go(f)
    }

    fn broken(self, again: String) -> (r: SwitchNext)
        requires
            self.step is Restore,
        ensures
            goes_on(self, SwitchEvent::Failed(again), r),
    {
        let why: &str = match &self.write_error {
            Some(w) => w.as_str(),
            None => "",
        };
        match write_failed(self.target, why, &Some(again)) {
            Some(e) => SwitchNext::Failed(e),
            None => SwitchNext::Stopped,
        }
    }

    /// Takes in what came of a step.
    ///
    /// The live store is written only once the outgoing login survives elsewhere. A
    /// write that failed is undone. Once the target is live, nothing that fails makes
    /// the switch fail: it is said as a warning.
    pub fn advance(self, event: SwitchEvent) -> (r: SwitchNext)
        requires
            can_follow(self.step, event),
        ensures
            goes_on(self, event, r),
    {
        match event {
            SwitchEvent::Renewal(renewal) => self.renewed_so(renewal),
            SwitchEvent::Kept(kept) => self.kept(kept),
            SwitchEvent::Done => match self.step {
                SwitchStep::Write => self.to_step(SwitchStep::Record),
                SwitchStep::Record => self.to_step(SwitchStep::Log),
                SwitchStep::Log => SwitchNext::Landed(
                    landed(self.target, self.from, self.to, self.warnings, &self.unrecorded, &None),
                ),
                _ => SwitchNext::Stopped,
            },
            SwitchEvent::Failed(why) => match self.step {
                SwitchStep::Write => {
                    if self.from.is_none() {
                        return SwitchNext::Stopped;
                    }
                    let mut f: SwitchFlow = self;
                    f.write_error = Some(why);
                    f.to_step(SwitchStep::Restore)
                },
                SwitchStep::Restore => self.broken(why),
                SwitchStep::Record => {
                    let mut f: SwitchFlow = self;
                    f.unrecorded = Some(why);
                    f.to_step(SwitchStep::Log)
                },
                SwitchStep::Log => SwitchNext::Landed(
                    landed(
                        self.target,
                        self.from,
                        self.to,
                        self.warnings,
                        &self.unrecorded,
                        &Some(why),
                    ),
                ),
                _ => SwitchNext::Stopped,
            },
        }
    }
}

/// The live store is written only where the login that was live survives elsewhere, or
/// where there was none.
pub proof fn law_nothing_is_overwritten_before_it_is_kept(
    f: SwitchFlow,
    event: SwitchEvent,
    next: SwitchNext,
)
    requires
        can_follow(f.step, event),
        goes_on(f, event, next),
        next matches SwitchNext::Go(g) && g.step is Write,
    ensures
        f.step is Preserve,
        event is Kept,
{
}

/// A write that failed is undone wherever a login was live, and a switch whose write
/// was undone never counts as landed.
pub proof fn law_a_failed_write_is_undone(f: SwitchFlow, event: SwitchEvent, next: SwitchNext)
    requires
        can_follow(f.step, event),
        goes_on(f, event, next),
    ensures
        f.step is Write && event is Failed && f.from is Some ==> (next matches SwitchNext::Go(g)
            && g.step is Restore),
        f.step is Restore ==> next is Stopped || next is Failed,
{
}

/// Once the target is live the switch lands, whatever fails.
pub proof fn law_what_is_live_has_landed(f: SwitchFlow, event: SwitchEvent, next: SwitchNext)
    requires
        can_follow(f.step, event),
        goes_on(f, event, next),
        f.step is Record || f.step is Log,
    ensures
        next is Go || next is Landed,
        next matches SwitchNext::Go(g) ==> g.step is Log,
{
}

/// How far a switch has come.
pub open spec fn progress(step: SwitchStep) -> int {
    match step {
        SwitchStep::Renew => 0,
        SwitchStep::Preserve => 1,
        SwitchStep::Write => 2,
        SwitchStep::Restore => 3,
        SwitchStep::Record => 4,
        SwitchStep::Log => 5,
    }
}

/// A switch goes forward only, so it ends, and writes its target at most once.
pub proof fn law_a_switch_goes_forward(f: SwitchFlow, event: SwitchEvent, next: SwitchNext)
    requires
        can_follow(f.step, event),
        goes_on(f, event, next),
    ensures
        next matches SwitchNext::Go(g) ==> progress(g.step) > progress(f.step) && g.target
            == f.target && g.to == f.to && g.freshen == f.freshen,
{
}

} // verus!
