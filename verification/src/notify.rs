//! What is shown of the configured notification channels: no secret, only enough to
//! recognise it.

use vstd::prelude::*;
use vstd::string::*;

use crate::split::{behind, behind_first, head, head_of, Sep};
use crate::text::{chars_of, opt_text, part_of, trim, trimmed};

verus! {

/// What is shown of the channels.
#[derive(Debug)]
pub struct NotifyOutput {
    pub schema_version: u32,
    pub slack_webhook_url: Option<String>,
    pub telegram_bot_token: Option<String>,
    pub telegram_chat_id: Option<String>,
}

/// The host of a value in the form of an address.
pub open spec fn host_of(secret: Seq<char>) -> Option<Seq<char>> {
    match behind_first(secret, "://"@) {
        Some(rest) => {
            let h = head_of(rest, Sep::HostEnd);
            if h.len() == 0 {
                None
            } else {
                Some(h)
            }
        },
        None => None,
    }
}

/// The host of a value in the form of an address.
pub fn host(secret: &str) -> (r: Option<String>)
    ensures
        opt_text(r) == host_of(secret@),
{
    match behind(secret, "://") {
        Some(rest) => {
            let h: String = head(rest.as_str(), Sep::HostEnd);
            if h.as_str().is_empty() {
                None
            } else {
                Some(h)
            }
        },
        None => None,
    }
}

/// The last four characters of a text.
pub open spec fn last_four(s: Seq<char>) -> Seq<char> {
    if s.len() > 4 {
        s.skip(s.len() - 4)
    } else {
        s
    }
}

/// What is shown of a secret: the host, where it has one, and the last four
/// characters.
pub open spec fn mask(secret: Seq<char>) -> Option<Seq<char>> {
    let s = trimmed(secret);
    if s.len() == 0 {
        None
    } else {
        match host_of(s) {
            Some(h) => Some(h + "…"@ + last_four(s)),
            None => Some("…"@ + last_four(s)),
        }
    }
}

/// What is shown of a secret; nothing of an empty one, which is how an unset channel
/// reads.
pub fn masked(secret: &str) -> (r: Option<String>)
    ensures
        opt_text(r) == mask(secret@),
{
    let s: String = trim(secret);
    if s.as_str().is_empty() {
        return None;
    }
    let chars: Vec<char> = chars_of(s.as_str());
    let n: usize = chars.len();
    let from: usize = if n > 4 {
        n - 4
    } else {
        0
    };
    let tail: String = part_of(&chars, from, n);
    assert(chars@.subrange(from as int, n as int) =~= last_four(s@));
    match host(s.as_str()) {
        Some(h) => Some(h.concat("…").concat(tail.as_str())),
        None => Some("…".to_owned().concat(tail.as_str())),
    }
}

/// What is shown of a secret beside its host and the ellipsis is its end, four characters
/// of it at the most.
pub proof fn law_mask_shows_little(secret: Seq<char>)
    ensures
        mask(secret) is None <==> trimmed(secret).len() == 0,
        mask(secret) matches Some(m) ==> ({
            let s = trimmed(secret);
            let tail = last_four(s);
            let shown = match host_of(s) {
                Some(h) => h,
                None => Seq::empty(),
            };
            &&& m == shown + "…"@ + tail
            &&& tail.len() <= 4
            &&& tail.len() <= s.len() && tail == s.skip(s.len() - tail.len())
        }),
{
    let s = trimmed(secret);
    if s.len() <= 4 {
        assert(s.skip(0) =~= s);
    }
    if s.len() > 0 && host_of(s) is None {
        assert(mask(secret)->0 =~= Seq::<char>::empty() + "…"@ + last_four(s));
    }
}

/// What is shown of three channels.
pub fn notify_output(
    slack_webhook_url: Option<&str>,
    telegram_bot_token: Option<&str>,
    telegram_chat_id: Option<&str>,
) -> (r: NotifyOutput)
    ensures
        r.schema_version == 1,
        opt_text(r.slack_webhook_url) == opt_mask(slack_webhook_url),
        opt_text(r.telegram_bot_token) == opt_mask(telegram_bot_token),
        opt_text(r.telegram_chat_id) == opt_mask(telegram_chat_id),
{
    NotifyOutput {
        schema_version: 1,
        slack_webhook_url: match slack_webhook_url {
            Some(s) => masked(s),
            None => None,
        },
        telegram_bot_token: match telegram_bot_token {
            Some(s) => masked(s),
            None => None,
        },
        telegram_chat_id: match telegram_chat_id {
            Some(s) => masked(s),
            None => None,
        },
    }
}

/// What is shown of an optional secret.
pub open spec fn opt_mask(secret: Option<&str>) -> Option<Seq<char>> {
    match secret {
        Some(s) => mask(s@),
        None => None,
    }
}

} // verus!
