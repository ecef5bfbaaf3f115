//! One account's fetch, step by step: measure, and renew the login at most once.

use vstd::prelude::*;
use vstd::string::*;

use crate::collect::Credential;
use crate::contract::UsageStatus;
use crate::text::{begins, same, starts_with};
use crate::usage_store::permanent;

verus! {

/// What a provider's driver can fail with. A delay is in microseconds.
#[derive(Debug)]
pub enum DriverError {
    Throttled { retry_after: Option<i64> },
    NeedsRefresh,
    Http(String),
    Io(String),
    Locked(String),
    KeychainUnavailable,
    TokenDead,
    NoLogin,
    NotInstalled,
    Unsupported(String),
    Invalid(String),
}

/// The kind of failure that a driver error is recorded as.
pub open spec fn kind_of(err: DriverError) -> Seq<char> {
    match err {
        DriverError::Throttled { .. } => "http-429"@,
        DriverError::NeedsRefresh => "http-401"@,
        DriverError::Http(message) => if begins(message@, "usage: "@) {
            message@.skip("usage: "@.len() as int)
        } else {
            message@
        },
        DriverError::Io(_) => "io"@,
        DriverError::Locked(_) => "locked"@,
        DriverError::KeychainUnavailable => "keychain-unavailable"@,
        DriverError::TokenDead => "token-dead"@,
        DriverError::NoLogin => "no-credentials"@,
        DriverError::NotInstalled => "not-installed"@,
        DriverError::Unsupported(_) => "unsupported"@,
        DriverError::Invalid(_) => "invalid"@,
    }
}

/// The delay that a driver error asks for.
pub open spec fn delay_of(err: DriverError) -> Option<i64> {
    match err {
        DriverError::Throttled { retry_after } => retry_after,
        _ => None,
    }
}

/// The kind of failure that a driver error is recorded as, and the delay that the
/// server asked for.
pub fn failure_kind(err: &DriverError) -> (r: (String, Option<i64>))
    ensures
        r.0@ == kind_of(*err),
        r.1 == delay_of(*err),
{
    match err {
        DriverError::Throttled { retry_after } => ("http-429".to_owned(), *retry_after),
        DriverError::NeedsRefresh => ("http-401".to_owned(), None),
        DriverError::Http(message) => {
            let prefix: &str = "usage: ";
            if starts_with(message.as_str(), prefix) {
                let n: usize = prefix.unicode_len();
                let m: usize = message.as_str().unicode_len();
                assert(message@.subrange(n as int, m as int) =~= message@.skip(n as int));
                (message.as_str().substring_char(n, m).to_owned(), None)
            } else {
                (message.clone(), None)
            }
        },
        DriverError::Io(_) => ("io".to_owned(), None),
        DriverError::Locked(_) => ("locked".to_owned(), None),
        DriverError::KeychainUnavailable => ("keychain-unavailable".to_owned(), None),
        DriverError::TokenDead => ("token-dead".to_owned(), None),
        DriverError::NoLogin => ("no-credentials".to_owned(), None),
        DriverError::NotInstalled => ("not-installed".to_owned(), None),
        DriverError::Unsupported(_) => ("unsupported".to_owned(), None),
        DriverError::Invalid(_) => ("invalid".to_owned(), None),
    }
}

/// What a fetch does next.
#[derive(Clone, Copy, Debug, PartialEq, Eq, Structural)]
pub enum FetchStep {
    /// Write the slot's login over the older live one.
    Heal,
    /// Ask for the usage.
    Ask,
    /// Renew the login.
    Renew,
    /// Store the renewed login, and write it live for the active slot.
    Persist,
    /// Ask for the usage with the renewed login.
    AskAgain,
}

/// What came of a step.
#[derive(Debug)]
pub enum FetchEvent {
    /// The live store was written, or not.
    Written(bool),
    /// The usage was measured.
    Measured,
    /// The usage was not measured.
    Failed(DriverError),
    /// The login was renewed.
    Renewed,
    /// The refresh token was rejected.
    RenewDead,
    /// Another process was renewing.
    RenewContended,
    /// The login was not renewed for another reason.
    RenewFailed,
}

/// What is recorded of a fetch.
#[derive(Debug)]
pub enum Record {
    Success,
    /// A failure; `strike` where the login that was sent is condemned.
    Failure { kind: String, retry_after: Option<i64>, strike: bool },
    /// Nothing: the claim is given back.
    Release,
}

/// How a fetch goes on.
#[derive(Debug)]
pub enum FetchNext {
    Go(FetchStep),
    /// It ends with a record, and a mark on the account.
    Done(Record, Option<UsageStatus>),
}

/// Whether a step can have led to an event.
pub open spec fn fits(step: FetchStep, event: FetchEvent) -> bool {
    match step {
        FetchStep::Heal | FetchStep::Persist => event is Written,
        FetchStep::Ask | FetchStep::AskAgain => event is Measured || event is Failed,
        FetchStep::Renew => event is Renewed || event is RenewDead || event is RenewContended
            || event is RenewFailed,
    }
}

/// Whether a fetch ends with a failure of a kind and a mark.
pub open spec fn fails(
    next: FetchNext,
    kind: Seq<char>,
    retry_after: Option<i64>,
    strike: bool,
    mark: Option<UsageStatus>,
) -> bool {
    next matches FetchNext::Done(record, m) && m == mark && (record matches Record::Failure {
        kind: k,
        retry_after: d,
        strike: s,
    } && k@ == kind && d == retry_after && s == strike)
}

/// Whether `next` is how a fetch goes on.
pub open spec fn follows(
    step: FetchStep,
    event: FetchEvent,
    active: bool,
    keychain_down: bool,
    shadow: bool,
    next: FetchNext,
) -> bool {
    match (step, event) {
        (FetchStep::Heal, FetchEvent::Written(ok)) => if ok {
            next == FetchNext::Go(FetchStep::Ask)
        } else {
            fails(next, "write-live"@, None, false, Some(UsageStatus::TokenExpired))
        },
        (FetchStep::Persist, FetchEvent::Written(ok)) => if ok {
            next == FetchNext::Go(FetchStep::AskAgain)
        } else {
            fails(next, "write-live"@, None, false, Some(UsageStatus::TokenExpired))
        },
        (FetchStep::Ask, FetchEvent::Failed(e)) => if e is NeedsRefresh {
            if shadow {
                fails(next, "http-401"@, None, false, Some(UsageStatus::TokenExpired))
            } else if keychain_down {
                fails(next, "keychain-unavailable"@, None, false, Some(UsageStatus::Stale))
            } else {
                next == FetchNext::Go(FetchStep::Renew)
            }
        } else {
            fails(next, kind_of(e), delay_of(e), false, None)
        },
        (FetchStep::AskAgain, FetchEvent::Failed(e)) => fails(
            next,
            kind_of(e),
            delay_of(e),
            false,
            None,
        ),
        (FetchStep::Ask, FetchEvent::Measured) | (FetchStep::AskAgain, FetchEvent::Measured) => next
            == FetchNext::Done(Record::Success, None),
        (FetchStep::Renew, FetchEvent::Renewed) => next == FetchNext::Go(FetchStep::Persist),
        (FetchStep::Renew, FetchEvent::RenewDead) => fails(
            next,
            "invalid_grant"@,
            None,
            true,
            Some(UsageStatus::ReloginRequired),
        ),
        (FetchStep::Renew, FetchEvent::RenewContended) => next == FetchNext::Done(
            Record::Release,
            Some(UsageStatus::Stale),
        ),
        (FetchStep::Renew, FetchEvent::RenewFailed) => fails(
            next,
            "refresh"@,
            None,
            false,
            if active {
                Some(UsageStatus::TokenExpired)
            } else {
                None
            },
        ),
        _ => true,
    }
}

/// The first step of a fetch: an older live login is healed before it is used, but not
/// in shadow.
pub fn first_step(heal_live: bool, shadow: bool) -> (r: FetchStep)
    ensures
        r == if heal_live && !shadow {
            FetchStep::Heal
        } else {
            FetchStep::Ask
        },
{
    if heal_live && !shadow {
        FetchStep::Heal
    } else {
        FetchStep::Ask
    }
}

fn failing(kind: String, retry_after: Option<i64>, strike: bool, mark: Option<UsageStatus>) -> (r:
    FetchNext)
    ensures
        fails(r, kind@, retry_after, strike, mark),
{
    FetchNext::Done(Record::Failure { kind, retry_after, strike }, mark)
}

/// How a fetch goes on.
///
/// A refresh token serves once, so the renewed login is stored before it is used,
/// and a login is renewed at most once in a pass: a second demand is recorded as the
/// failure that it is. No token is spent while the live store cannot be read, nor in
/// shadow, while another tool owns the logins. A live store that cannot be written is
/// one account's problem.
pub fn fetch_step(
    step: FetchStep,
    event: &FetchEvent,
    active: bool,
    keychain_down: bool,
    shadow: bool,
) -> (r: FetchNext)
    requires
        fits(step, *event),
    ensures
        follows(step, *event, active, keychain_down, shadow, r),
{
    match event {
        FetchEvent::Written(ok) => {
            if !*ok {
                return failing("write-live".to_owned(), None, false, Some(UsageStatus::TokenExpired));
            }
            match step {
                FetchStep::Heal => FetchNext::Go(FetchStep::Ask),
                _ => FetchNext::Go(FetchStep::AskAgain),
            }
        },
        FetchEvent::Measured => FetchNext::Done(Record::Success, None),
        FetchEvent::Failed(e) => {
            let renew: bool = match (step, e) {
                (FetchStep::Ask, DriverError::NeedsRefresh) => true,
                _ => false,
            };
            if renew {
                if shadow {
                    return failing(
                        "http-401".to_owned(),
                        None,
                        false,
                        Some(UsageStatus::TokenExpired),
                    );
                }
                if keychain_down {
                    return failing(
                        "keychain-unavailable".to_owned(),
                        None,
                        false,
                        Some(UsageStatus::Stale),
                    );
                }
                return FetchNext::Go(FetchStep::Renew);
            }
            let (kind, retry_after): (String, Option<i64>) = failure_kind(e);
            failing(kind, retry_after, false, None)
        },
        FetchEvent::Renewed => FetchNext::Go(FetchStep::Persist),
        FetchEvent::RenewDead => failing(
            "invalid_grant".to_owned(),
            None,
            true,
            Some(UsageStatus::ReloginRequired),
        ),
        FetchEvent::RenewContended => FetchNext::Done(Record::Release, Some(UsageStatus::Stale)),
        FetchEvent::RenewFailed => failing(
            "refresh".to_owned(),
            None,
            false,
            if active {
                Some(UsageStatus::TokenExpired)
            } else {
                None
            },
        ),
    }
}

/// Whether a renewed login may be written live: its slot is the active one, and the
/// live store still holds the login that it succeeds.
pub open spec fn may_go_live(active: bool, live: Option<Credential>, used: Credential) -> bool {
    active && (live matches Some(l) && l.fingerprint@ == used.fingerprint@)
}

/// Whether a renewed login is written live, given what the live store holds by then. A
/// switch may have landed while the renewal was under way, and it stands.
pub fn goes_live(active: bool, live: &Option<Credential>, used: &Credential) -> (r: bool)
    ensures
        r == may_go_live(active, *live, *used),
{
    match live {
        Some(l) => active && same(l.fingerprint.as_str(), used.fingerprint.as_str()),
        None => false,
    }
}

/// A login that another switch put into the live store is never written over by the
/// renewal of an account that was live before.
pub proof fn law_a_landed_switch_is_not_reverted(active: bool, live: Credential, used: Credential)
    requires
        live.fingerprint@ != used.fingerprint@,
    ensures
        !may_go_live(active, Some(live), used),
{
}

/// How far a fetch has come.
pub open spec fn progress(step: FetchStep) -> int {
    match step {
        FetchStep::Heal => 0,
        FetchStep::Ask => 1,
        FetchStep::Renew => 2,
        FetchStep::Persist => 3,
        FetchStep::AskAgain => 4,
    }
}

/// A fetch goes forward only, so it ends, and renews a login at most once.
pub proof fn law_a_fetch_goes_forward(
    step: FetchStep,
    event: FetchEvent,
    active: bool,
    keychain_down: bool,
    shadow: bool,
    next: FetchNext,
)
    requires
        fits(step, event),
        follows(step, event, active, keychain_down, shadow, next),
    ensures
        next matches FetchNext::Go(s) ==> progress(s) > progress(step),
{
}

/// A login is struck only when its refresh token was rejected, and then the record
/// is one that condemns it.
pub proof fn law_only_a_rejected_token_is_struck(
    step: FetchStep,
    event: FetchEvent,
    active: bool,
    keychain_down: bool,
    shadow: bool,
    next: FetchNext,
)
    requires
        fits(step, event),
        follows(step, event, active, keychain_down, shadow, next),
        next matches FetchNext::Done(record, _) && (record matches Record::Failure { strike, .. }
            && strike),
    ensures
        event is RenewDead,
        next matches FetchNext::Done(record, mark) && mark == Some(UsageStatus::ReloginRequired) && (
        record matches Record::Failure { kind, .. } && permanent(kind@)),
{
}

/// While the live store cannot be read, no login is renewed.
pub proof fn law_no_renewal_without_the_live_store(
    step: FetchStep,
    event: FetchEvent,
    active: bool,
    shadow: bool,
    next: FetchNext,
)
    requires
        fits(step, event),
        follows(step, event, active, true, shadow, next),
    ensures
        next != FetchNext::Go(FetchStep::Renew),
{
}

/// In shadow no login is renewed, stored or written live.
pub proof fn law_shadow_touches_no_login(
    step: FetchStep,
    event: FetchEvent,
    active: bool,
    keychain_down: bool,
    next: FetchNext,
)
    requires
        step is Ask,
        fits(step, event),
        follows(step, event, active, keychain_down, true, next),
    ensures
        next is Done,
{
}

} // verus!
