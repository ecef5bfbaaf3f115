//! Names of files, and what is read from small ones.

use vstd::prelude::*;
use vstd::string::*;

use crate::text::{decimal, hex, opt_text, show, show_hex, trim, trimmed};
use crate::usage_store::random_u64;

verus! {

/// The name of the lock beside a file.
pub fn lock_name(file_name: &str) -> (r: String)
    ensures
        r@ == file_name@ + ".lock"@,
{
    file_name.to_owned().concat(".lock")
}

/// The name of the file that is written first, and then takes a file's place.
pub open spec fn tmp_text(file_name: Seq<char>, n: u64) -> Seq<char> {
    "."@ + file_name + ".tmp."@ + decimal(n as nat)
}

/// The name of the file that is written first, and then takes a file's place: hidden, and
/// another each time but by chance.
pub fn tmp_name(file_name: &str) -> (r: String)
    ensures
        exists|n: u64| r@ == #[trigger] tmp_text(file_name@, n),
{
    let n: u64 = random_u64();
    let r: String = ".".to_owned().concat(file_name).concat(".tmp.").concat(show(n).as_str());
    assert(r@ == tmp_text(file_name@, n));
    r
}

/// Two different numbers make different names.
pub proof fn law_tmp_names_differ(file_name: Seq<char>, a: u64, b: u64)
    requires
        tmp_text(file_name, a) == tmp_text(file_name, b),
    ensures
        a == b,
{
    let n = ("."@ + file_name + ".tmp."@).len() as int;
    assert(tmp_text(file_name, a).skip(n) =~= decimal(a as nat));
    assert(tmp_text(file_name, b).skip(n) =~= decimal(b as nat));
    crate::text::law_decimal_is_injective(a as nat, b as nat);
}

/// What is written to wake a sleeping loop.
pub open spec fn nonce_text(n: u64) -> Seq<char> {
    hex(n as nat, 16) + "\n"@
}

/// What is written to wake a sleeping loop: another each time but by chance.
pub fn nonce() -> (r: String)
    ensures
        exists|n: u64| r@ == #[trigger] nonce_text(n),
{
    let n: u64 = random_u64();
    let r: String = show_hex(n).concat("\n");
    assert(r@ == nonce_text(n));
    r
}

/// One that looks at a file again and again, and tells when it has changed.
#[derive(Debug)]
pub struct Watcher {
    pub last: Vec<u8>,
}

impl Watcher {
    /// The first look tells nothing.
    pub fn new(first: Vec<u8>) -> (r: Watcher)
        ensures
            r.last@ == first@,
    {
        Watcher { last: first }
    }

    /// Whether the file has changed since the last look.
    pub fn look(&mut self, current: Vec<u8>) -> (r: bool)
        ensures
            r == (old(self).last@ != current@),
            final(self).last@ == current@,
    {
        let mut same: bool = self.last.len() == current.len();
        let mut i: usize = 0;
        while same && i < current.len()
            invariant
                i <= current@.len(),
                self.last@ == old(self).last@,
                same ==> self.last@.len() == current@.len(),
                same ==> forall|k: int| 0 <= k < i ==> self.last@[k] == current@[k],
                !same ==> self.last@ != current@,
            decreases current.len() - i,
        {
            if self.last[i] != current[i] {
                same = false;
            }
            i += 1;
        }
        assert(same ==> self.last@ =~= current@);
        self.last = current;
        !same
    }
}

/// What was found about a lock.
#[derive(Debug)]
pub struct LockProbe {
    pub held: bool,
    pub note: Option<String>,
}

/// What was found about a lock: whether it is held, and the note that its file holds,
/// unless that is blank. A lock whose file is not there is not held.
pub fn lock_probe(held: Option<bool>, content: Option<&str>) -> (r: LockProbe)
    ensures
        r.held == (held == Some(true)),
        opt_text(r.note) == (match (held, content) {
            (Some(_), Some(s)) => if trimmed(s@).len() == 0 {
                None
            } else {
                Some(trimmed(s@))
            },
            _ => None,
        }),
{
    match held {
        None => LockProbe { held: false, note: None },
        Some(h) => {
            let note: Option<String> = match content {
                Some(s) => {
                    let t: String = trim(s);
                    if t.as_str().is_empty() {
                        None
                    } else {
                        Some(t)
                    }
                },
                None => None,
            };
            LockProbe { held: h, note }
        },
    }
}

/// What ends the sleep of a loop, or comes of looking for more that would have.
#[derive(Clone, Copy, Debug, PartialEq, Eq, Structural)]
pub enum WakeEvent {
    /// The time is up.
    TimedOut,
    /// A call to look now.
    Woken,
    /// No further call is waiting.
    Empty,
    /// Nobody can call any more.
    Gone,
}

/// What a loop does after an event.
#[derive(Clone, Copy, Debug, PartialEq, Eq, Structural)]
pub enum WakeAction {
    /// Look at everything anew.
    Tick,
    /// Take one more call off the queue, without waiting.
    Drain,
    Stop,
}

/// What a loop does after an event: however many calls are waiting, they are taken off
/// first, and then there is one tick, since it looks at everything anyway.
pub fn wake_step(event: WakeEvent) -> (r: WakeAction)
    ensures
        r == (match event {
            WakeEvent::TimedOut | WakeEvent::Empty => WakeAction::Tick,
            WakeEvent::Woken => WakeAction::Drain,
            WakeEvent::Gone => WakeAction::Stop,
        }),
{
    match event {
        WakeEvent::TimedOut => WakeAction::Tick,
        WakeEvent::Empty => WakeAction::Tick,
        WakeEvent::Woken => WakeAction::Drain,
        WakeEvent::Gone => WakeAction::Stop,
    }
}

} // verus!
