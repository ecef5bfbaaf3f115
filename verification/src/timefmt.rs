//! Instants as RFC 3339 text and back.

use time::format_description::well_known::Rfc3339;
use time::OffsetDateTime;
use vstd::prelude::*;

use crate::text::opt_str;
use crate::units::{clip, clipped, MICRO};

verus! {

/// The Unix seconds that `time` reads from an RFC 3339 text.
pub uninterp spec fn rfc3339_seconds(text: Seq<char>) -> Option<i64>;

/// The RFC 3339 text that `time` writes for Unix seconds, in UTC.
pub uninterp spec fn rfc3339_text(seconds: i64) -> Option<Seq<char>>;

/// `time::OffsetDateTime::parse` with the well-known RFC 3339 format, as Unix
/// seconds: a fraction of a second is dropped. The result is only named.
#[verifier::external_body]
fn read_rfc3339(text: &str) -> (r: Option<i64>)
    ensures
        r == rfc3339_seconds(text@),
{
    match OffsetDateTime::parse(text, &Rfc3339) {
        Ok(at) => Some(at.unix_timestamp()),
        Err(_) => None,
    }
}

/// `time::OffsetDateTime::format` with the well-known RFC 3339 format, of Unix
/// seconds in UTC. The text is named; it has twenty characters, the last of them a
/// `Z`. It exists for the years 0 to 9999, and reading it gives the same seconds
/// back.
#[verifier::external_body]
fn write_rfc3339(seconds: i64) -> (r: Option<String>)
    ensures
        crate::text::opt_text(r) == rfc3339_text(seconds),
        r is Some <==> -62_167_219_200 <= seconds <= 253_402_300_799,
        r matches Some(s) ==> s@.len() == 20 && s@.last() == 'Z' && rfc3339_seconds(s@) == Some(
            seconds,
        ),
{
    let at = OffsetDateTime::from_unix_timestamp(seconds).ok()?;
    at.format(&Rfc3339).ok()
}

/// The instant of an optional RFC 3339 text.
pub open spec fn reset_instant(text: Option<Seq<char>>) -> Option<i64> {
    match text {
        Some(s) => if s.len() == 0 {
            None
        } else {
            match rfc3339_seconds(s) {
                Some(t) => Some(clip(t * MICRO)),
                None => None,
            }
        },
        None => None,
    }
}

/// An RFC 3339 `resets_at` as an instant, `None` when absent or unparseable.
pub fn parse_reset_ts(resets_at: Option<&str>) -> (r: Option<i64>)
    ensures
        r == reset_instant(opt_str(resets_at)),
{
    match resets_at {
        Some(raw) => {
            if raw.is_empty() {
                return None;
            }
            match read_rfc3339(raw) {
                Some(t) => Some(clipped(t as i128 * 1_000_000)),
                None => None,
            }
        },
        None => None,
    }
}

/// The whole seconds of an instant, with the fraction dropped.
pub open spec fn whole_seconds(at: i64) -> i64 {
    if at >= 0 {
        (at as int / MICRO as int) as i64
    } else {
        (-(-at as int / MICRO as int)) as i64
    }
}

/// The RFC 3339 text of an instant, to the second, in UTC; `None` outside the
/// years 0 to 9999.
pub fn format_ts(at: i64) -> (r: Option<String>)
    ensures
        crate::text::opt_text(r) == rfc3339_text(whole_seconds(at)),
        r is Some <==> -62_167_219_201 * MICRO < at < 253_402_300_800 * MICRO,
        r matches Some(s) ==> s@.len() == 20 && rfc3339_seconds(s@) == Some(whole_seconds(at)),
        r matches Some(s) ==> (at as int % MICRO as int == 0 ==> reset_instant(Some(s@)) == Some(
            at,
        )),
{
    let seconds: i64 = at / MICRO;
    assert(seconds == whole_seconds(at));
    let r: Option<String> = write_rfc3339(seconds);
    proof {
        if r is Some && at as int % MICRO as int == 0 {
            law_format_is_read_back(at, r->0@);
        }
    }
    r
}

/// The RFC 3339 text of an instant, empty outside the years 0 to 9999.
pub open spec fn stamp(at: i64) -> Seq<char> {
    match rfc3339_text(whole_seconds(at)) {
        Some(s) => s,
        None => Seq::empty(),
    }
}

/// The RFC 3339 text of an instant, empty outside the years 0 to 9999.
pub fn format_or_empty(at: i64) -> (r: String)
    ensures
        r@ == stamp(at),
{
    match format_ts(at) {
        Some(s) => s,
        None => String::new(),
    }
}

/// The RFC 3339 text of Unix seconds, empty outside the years 0 to 9999.
pub open spec fn stamp_of_seconds(seconds: i64) -> Seq<char> {
    match rfc3339_text(seconds) {
        Some(s) => s,
        None => Seq::empty(),
    }
}

/// The RFC 3339 text of Unix seconds, empty outside the years 0 to 9999.
pub fn format_seconds(seconds: i64) -> (r: String)
    ensures
        r@ == stamp_of_seconds(seconds),
        r@.len() > 0 ==> r@.last() == 'Z',
{
    match write_rfc3339(seconds) {
        Some(s) => s,
        None => String::new(),
    }
}

/// An instant on a whole second, between the years 0 and 9999, is read back as
/// itself from the text that is written for it.
pub proof fn law_format_is_read_back(at: i64, text: Seq<char>)
    requires
        at as int % MICRO as int == 0,
        rfc3339_seconds(text) == Some(whole_seconds(at)),
        text.len() > 0,
    ensures
        reset_instant(Some(text)) == Some(at),
{
    if at < 0 {
        assert(-(-at as int / MICRO as int) * MICRO == at);
    }
}

} // verus!
