//! The browser's answer to a sign-in: what the redirect carries, and what it is
//! answered.

use vstd::prelude::*;
use vstd::string::*;

use crate::errors::{error_about, is_error, ErrorCode, SwapdError};
use crate::split::{head, head_of, parted, split_once, split_words, words, Sep};
use crate::text::{chars_of, decimal, opt_text, same, show, spell, texts};

verus! {

/// How long a browser is given, in seconds.
pub const DEFAULT_TIMEOUT_S: u64 = 300;

/// The longest request line that is read, in bytes.
pub const MAX_REQUEST_LINE: u64 = 8192;

/// What a caller of a browser sign-in asks for.
#[derive(Debug)]
pub struct AddOauthOpts {
    pub slot: Option<u32>,
    pub alias: Option<String>,
    pub force: bool,
    pub timeout_s: u64,
}

/// What is to be opened, and where the answer will land.
#[derive(Debug)]
pub struct OauthUrlOutput {
    pub schema_version: u32,
    pub url: String,
    pub port: u16,
}

/// The text that `String::from_utf8_lossy` makes of bytes.
pub uninterp spec fn lossy_text(bytes: Seq<u8>) -> Seq<char>;

/// `String::from_utf8_lossy`: the text that the bytes encode where they are valid
/// UTF-8. What takes the place of bytes that are not is only named.
#[verifier::external_body]
fn lossy(bytes: &Vec<u8>) -> (r: String)
    ensures
        r@ == lossy_text(bytes@),
        vstd::utf8::valid_utf8(bytes@) ==> r@ == vstd::utf8::decode_utf8(bytes@),
{
    String::from_utf8_lossy(bytes).into_owned()
}

/// The value of a hexadecimal digit.
pub open spec fn hex_value(b: u8) -> Option<u8> {
    if 48 <= b <= 57 {
        Some((b - 48) as u8)
    } else if 65 <= b <= 70 {
        Some((b - 55) as u8)
    } else if 97 <= b <= 102 {
        Some((b - 87) as u8)
    } else {
        None
    }
}

/// The byte that two characters behind a percent sign stand for: two hexadecimal
/// digits, or one behind a plus sign.
pub open spec fn escaped(a: u8, b: u8) -> Option<u8> {
    match (hex_value(a), hex_value(b)) {
        (Some(x), Some(y)) => Some((16 * x + y) as u8),
        (None, Some(y)) => if a == 43 {
            Some(y)
        } else {
            None
        },
        _ => None,
    }
}

/// The bytes that an encoded value stands for: a plus sign is a space, and a percent
/// sign with two digits behind it is a byte; one without is kept.
pub open spec fn decoded(bytes: Seq<u8>) -> Seq<u8>
    decreases bytes.len(),
{
    if bytes.len() == 0 {
        Seq::empty()
    } else if bytes[0] == 43 {
        seq![32u8] + decoded(bytes.skip(1))
    } else if bytes[0] == 37 && bytes.len() > 2 && escaped(bytes[1], bytes[2]) is Some {
        seq![escaped(bytes[1], bytes[2])->0] + decoded(bytes.skip(3))
    } else {
        seq![bytes[0]] + decoded(bytes.skip(1))
    }
}

fn hex_digit_value(b: u8) -> (r: Option<u8>)
    ensures
        r == hex_value(b),
        r matches Some(v) ==> v < 16,
{
    if 48 <= b && b <= 57 {
        Some(b - 48)
    } else if 65 <= b && b <= 70 {
        Some(b - 55)
    } else if 97 <= b && b <= 102 {
        Some(b - 87)
    } else {
        None
    }
}

/// Whether bytes hold no escape.
pub open spec fn plain(bytes: Seq<u8>) -> bool {
    forall|i: int| 0 <= i < bytes.len() ==> bytes[i] != 37 && bytes[i] != 43
}

/// Bytes without an escape stand for themselves.
proof fn lemma_plain_is_decoded_as_itself(bytes: Seq<u8>)
    requires
        plain(bytes),
    ensures
        decoded(bytes) == bytes,
    decreases bytes.len(),
{
    if bytes.len() > 0 {
        lemma_plain_is_decoded_as_itself(bytes.skip(1));
    }
    assert(decoded(bytes) =~= bytes);
}

/// An encoded value, decoded. Where the bytes that it stands for are valid UTF-8 it is
/// the text that they encode, so a value without an escape is itself.
pub fn urldecode(value: &str) -> (r: String)
    ensures
        r@ == lossy_text(decoded(value.spec_bytes())),
        vstd::utf8::valid_utf8(decoded(value.spec_bytes())) ==> r@ == vstd::utf8::decode_utf8(
            decoded(value.spec_bytes()),
        ),
        plain(value.spec_bytes()) ==> r@ == value@,
{
    broadcast use {vstd::utf8::encode_utf8_valid_utf8, vstd::utf8::encode_utf8_decode_utf8};

    let bytes: &[u8] = value.as_bytes();
    let ghost all = value.spec_bytes();
    let n: usize = bytes.len();
    let mut out: Vec<u8> = Vec::new();
    let mut i: usize = 0;
    assert(all.skip(0) =~= all);
    assert(out@ + decoded(all) =~= decoded(all));
    while i < n
        invariant
            i <= n,
            n == all.len(),
            bytes@ == all,
            out@ + decoded(all.skip(i as int)) == decoded(all),
        decreases n - i,
    {
        let ghost rest = all.skip(i as int);
        let b: u8 = bytes[i];
        assert(rest[0] == b);
        assert(rest.skip(1) =~= all.skip(i + 1));
        if b == 43 {
            out.push(32);
            i += 1;
            assert(out@ + decoded(all.skip(i as int)) =~= decoded(all));
        } else if b == 37 && n - i > 2 {
            let x: Option<u8> = hex_digit_value(bytes[i + 1]);
            let y: Option<u8> = hex_digit_value(bytes[i + 2]);
            assert(rest[1] == bytes@[i + 1] && rest[2] == bytes@[i + 2]);
            assert(rest.skip(3) =~= all.skip(i + 3));
            let byte: Option<u8> = match (x, y) {
                (Some(x), Some(y)) => Some(16 * x + y),
                (None, Some(y)) => if bytes[i + 1] == 43 {
                    Some(y)
                } else {
                    None
                },
                _ => None,
            };
            match byte {
                Some(v) => {
                    out.push(v);
                    i += 3;
                    assert(out@ + decoded(all.skip(i as int)) =~= decoded(all));
                },
                None => {
                    out.push(37);
                    i += 1;
                    assert(out@ + decoded(all.skip(i as int)) =~= decoded(all));
                },
            }
        } else {
            out.push(b);
            i += 1;
            assert(out@ + decoded(all.skip(i as int)) =~= decoded(all));
        }
    }
    assert(out@ =~= decoded(all)) by {
        assert(decoded(all.skip(n as int)) =~= Seq::empty());
    }
    proof {
        if plain(all) {
            lemma_plain_is_decoded_as_itself(all);
        }
    }
    lossy(&out)
}

/// The text that an encoded text stands for.
pub open spec fn decoded_text(s: Seq<char>) -> Seq<char> {
    lossy_text(decoded(vstd::utf8::encode_utf8(s)))
}

/// The name and the value of a part of a query.
pub open spec fn pair_of(part: Seq<char>) -> (Seq<char>, Seq<char>) {
    match parted(part, Sep::Is('=')) {
        Some(p) => (decoded_text(p.0), decoded_text(p.1)),
        None => (decoded_text(part), Seq::empty()),
    }
}

/// The names and values of a query.
pub open spec fn pairs_of(query: Seq<char>) -> Seq<(Seq<char>, Seq<char>)> {
    words(query, Sep::Is('&')).map_values(|part: Seq<char>| pair_of(part))
}

/// The texts of a list of pairs.
pub open spec fn pair_texts(list: Seq<(String, String)>) -> Seq<(Seq<char>, Seq<char>)> {
    list.map_values(|p: (String, String)| (p.0@, p.1@))
}

/// A query as pairs, decoded.
pub fn parse_query(query: &str) -> (r: Vec<(String, String)>)
    ensures
        pair_texts(r@) == pairs_of(query@),
{
    let parts: Vec<String> = split_words(query, Sep::Is('&'));
    let ghost goal = pairs_of(query@);
    let mut r: Vec<(String, String)> = Vec::new();
    let mut i: usize = 0;
    while i < parts.len()
        invariant
            i <= parts.len(),
            texts(parts@) == words(query@, Sep::Is('&')),
            goal == pairs_of(query@),
            r@.len() == i,
            forall|k: int| 0 <= k < i ==> pair_texts(r@)[k] == #[trigger] goal[k],
        decreases parts.len() - i,
    {
        let part: &str = parts[i].as_str();
        assert(texts(parts@)[i as int] == part@);
        assert(goal[i as int] == pair_of(part@));
        let pair: (String, String) = match split_once(part, Sep::Is('=')) {
            Some(p) => (urldecode(p.0.as_str()), urldecode(p.1.as_str())),
            None => (urldecode(part), String::new()),
        };
        let ghost was = r@;
        r.push(pair);
        assert forall|k: int| 0 <= k < i + 1 implies pair_texts(r@)[k] == #[trigger] goal[k] by {
            if k < i {
                assert(pair_texts(was)[k] == goal[k]);
            }
        }
        i += 1;
    }
    assert(goal.len() == texts(parts@).len());
    assert(pair_texts(r@) =~= goal);
    r
}

/// The value of the first pair with a name.
pub open spec fn value_of(pairs: Seq<(Seq<char>, Seq<char>)>, key: Seq<char>) -> Option<Seq<char>>
    decreases pairs.len(),
{
    if pairs.len() == 0 {
        None
    } else if pairs[0].0 == key {
        Some(pairs[0].1)
    } else {
        value_of(pairs.drop_first(), key)
    }
}

/// The value of the first pair with a name.
pub fn find_value(pairs: &Vec<(String, String)>, key: &str) -> (r: Option<String>)
    ensures
        opt_text(r) == value_of(pair_texts(pairs@), key@),
{
    let ghost all = pair_texts(pairs@);
    let mut i: usize = 0;
    assert(all.skip(0) =~= all);
    while i < pairs.len()
        invariant
            i <= pairs.len(),
            all == pair_texts(pairs@),
            value_of(all, key@) == value_of(all.skip(i as int), key@),
        decreases pairs.len() - i,
    {
        assert(all.skip(i as int)[0] == (pairs@[i as int].0@, pairs@[i as int].1@));
        assert(all.skip(i as int).drop_first() =~= all.skip(i + 1));
        if same(pairs[i].0.as_str(), key) {
            return Some(pairs[i].1.clone());
        }
        i += 1;
    }
    None
}

/// Whether a character is printable ASCII.
pub open spec fn printable(c: char) -> bool {
    32 <= c as u32 <= 126
}

/// The printable characters of a text.
pub open spec fn printed(s: Seq<char>) -> Seq<char>
    decreases s.len(),
{
    if s.len() == 0 {
        Seq::empty()
    } else if printable(s.last()) {
        printed(s.drop_last()).push(s.last())
    } else {
        printed(s.drop_last())
    }
}

/// The first characters of a text.
pub open spec fn at_most_chars(s: Seq<char>, n: int) -> Seq<char> {
    if s.len() > n {
        s.take(n)
    } else {
        s
    }
}

proof fn lemma_printed_prefix(s: Seq<char>, n: int)
    requires
        0 <= n <= s.len(),
    ensures
        printed(s.take(n)).len() <= printed(s).len(),
        printed(s).take(printed(s.take(n)).len() as int) == printed(s.take(n)),
    decreases s.len() - n,
{
    if n == s.len() {
        assert(s.take(n) =~= s);
        assert(printed(s).take(printed(s).len() as int) =~= printed(s));
    } else {
        lemma_printed_prefix(s, n + 1);
        assert(s.take(n + 1).drop_last() =~= s.take(n));
        let a = printed(s.take(n));
        let b = printed(s.take(n + 1));
        assert(b == a || b == a.push(s[n]));
        assert(b.take(a.len() as int) =~= a);
        assert(printed(s).take(a.len() as int) =~= printed(s).take(b.len() as int).take(
            a.len() as int,
        ));
    }
}

/// A value of a query on its way into a message: its first eighty printable
/// characters.
pub fn sanitize(value: &str) -> (r: String)
    ensures
        r@ == at_most_chars(printed(value@), 80),
        r@.len() <= 80,
        forall|i: int| 0 <= i < r@.len() ==> printable(#[trigger] r@[i]),
{
    let chars: Vec<char> = chars_of(value);
    let mut out: Vec<char> = Vec::new();
    let mut i: usize = 0;
    assert(value@.take(0) =~= Seq::empty());
    while i < chars.len()
        invariant
            i <= chars.len(),
            chars@ == value@,
            out@ == printed(value@.take(i as int)),
            out@.len() < 80 || out@.len() == 0,
            forall|k: int| 0 <= k < out@.len() ==> printable(#[trigger] out@[k]),
        decreases chars.len() - i,
    {
        assert(value@.take(i + 1).drop_last() =~= value@.take(i as int));
        let code: u32 = chars[i] as u32;
        if 32 <= code && code <= 126 {
            out.push(chars[i]);
            if out.len() == 80 {
                proof {
                    lemma_printed_prefix(value@, i + 1);
                    assert(printed(value@).take(80) =~= out@);
                    if printed(value@).len() == 80 {
                        assert(printed(value@).take(80) =~= printed(value@));
                    }
                }
                return spell(&out);
            }
        }
        i += 1;
    }
    assert(value@.take(value@.len() as int) =~= value@);
    spell(&out)
}

/// What a request is answered, and what it means for the sign-in.
#[derive(Debug)]
pub struct Answer {
    pub status: &'static str,
    pub body: &'static str,
    pub meaning: Meaning,
}

/// What a request means for a sign-in.
#[derive(Debug)]
pub enum Meaning {
    /// It was not the redirect; the wait goes on.
    Ignored,
    /// It carried the code.
    Code(String),
    /// The provider refused.
    Refused(SwapdError),
}

/// The target of a request line: its second word.
pub open spec fn target_of(line: Seq<char>) -> Option<Seq<char>> {
    let w = words(line, Sep::Space);
    if w.len() > 1 {
        Some(w[1])
    } else {
        None
    }
}

/// The query of a target.
pub open spec fn query_of(target: Seq<char>) -> Seq<char> {
    match parted(target, Sep::Is('?')) {
        Some(p) => p.1,
        None => ""@,
    }
}

/// Whether an answer says something, and the wait goes on.
pub open spec fn ignores(a: Answer, status: Seq<char>, body: Seq<char>) -> bool {
    a.status@ == status && a.body@ == body && a.meaning is Ignored
}

/// Whether `a` is the answer to a request.
pub open spec fn answers(a: Answer, line: Seq<char>, state: Seq<char>) -> bool {
    match target_of(line) {
        None => ignores(a, "400 Bad Request"@, "Bad request."@),
        Some(target) => if head_of(target, Sep::Is('?')) != "/callback"@ {
            ignores(a, "404 Not Found"@, "Not found."@)
        } else {
            let pairs = pairs_of(query_of(target));
            match value_of(pairs, "error"@) {
                Some(error) => a.status@ == "200 OK"@ && a.body@
                    == "Sign-in failed. You can close this window."@ && (
                a.meaning matches Meaning::Refused(e) && is_error(
                    e,
                    ErrorCode::InvalidInput,
                    "the sign-in was refused ("@ + at_most_chars(printed(error), 80) + ")"@,
                )),
                None => if value_of(pairs, "state"@) != Some(state) {
                    ignores(a, "400 Bad Request"@, "Not this sign-in."@)
                } else {
                    match value_of(pairs, "code"@) {
                        Some(code) => if code.len() == 0 {
                            ignores(a, "400 Bad Request"@, "No code."@)
                        } else {
                            a.status@ == "200 OK"@ && a.body@
                                == "Signed in. You can close this window."@ && (
                            a.meaning matches Meaning::Code(c) && c@ == code)
                        },
                        None => ignores(a, "400 Bad Request"@, "No code."@),
                    }
                },
            }
        },
    }
}

/// The answer to a request line, for the sign-in with a state.
///
/// Only the redirect to the callback counts. An error of the provider ends the
/// sign-in; of the query nothing but the provider's own word reaches the message, and
/// that cleaned. A redirect with another state belongs to another sign-in.
pub fn serve(line: &str, state: &str) -> (a: Answer)
    ensures
        answers(a, line@, state@),
{
    let parts: Vec<String> = split_words(line, Sep::Space);
    assert(parts@.len() == texts(parts@).len());
    if parts.len() < 2 {
        return Answer {
            status: "400 Bad Request",
            body: "Bad request.",
            meaning: Meaning::Ignored,
        };
    }
    let target: &str = parts[1].as_str();
    assert(texts(parts@)[1] == target@);
    let path: String = head(target, Sep::Is('?'));
    if !same(path.as_str(), "/callback") {
        return Answer { status: "404 Not Found", body: "Not found.", meaning: Meaning::Ignored };
    }
    let query: String = match split_once(target, Sep::Is('?')) {
        Some(p) => p.1,
        None => "".to_owned(),
    };
    let pairs: Vec<(String, String)> = parse_query(query.as_str());
    if let Some(error) = find_value(&pairs, "error") {
        return Answer {
            status: "200 OK",
            body: "Sign-in failed. You can close this window.",
            meaning: Meaning::Refused(
                error_about(
                    ErrorCode::InvalidInput,
                    "the sign-in was refused (",
                    sanitize(error.as_str()).as_str(),
                    ")",
                ),
            ),
        };
    }
    let ours: bool = match find_value(&pairs, "state") {
        Some(s) => same(s.as_str(), state),
        None => false,
    };
    if !ours {
        return Answer {
            status: "400 Bad Request",
            body: "Not this sign-in.",
            meaning: Meaning::Ignored,
        };
    }
    match find_value(&pairs, "code") {
        Some(code) => if code.as_str().is_empty() {
            Answer { status: "400 Bad Request", body: "No code.", meaning: Meaning::Ignored }
        } else {
            Answer {
                status: "200 OK",
                body: "Signed in. You can close this window.",
                meaning: Meaning::Code(code),
            }
        },
        None => Answer {
            status: "400 Bad Request",
            body: "No code.",
            meaning: Meaning::Ignored,
        },
    }
}

/// The page of an answer.
pub open spec fn page(body: Seq<char>) -> Seq<char> {
    "<!doctype html><meta charset=utf-8><p>"@ + body + "</p>"@
}

/// The bytes on the wire of an answer: one line of HTML, and the connection closed.
pub fn respond(status: &str, body: &str) -> (r: String)
    ensures
        r@ == "HTTP/1.1 "@ + status@
            + "\r\nContent-Type: text/html; charset=utf-8\r\nContent-Length: "@ + decimal(
            vstd::utf8::encode_utf8(page(body@)).len(),
        ) + "\r\nConnection: close\r\n\r\n"@ + page(body@),
{
    let html: String = "<!doctype html><meta charset=utf-8><p>".to_owned().concat(body).concat(
        "</p>",
    );
    let n: usize = html.as_str().as_bytes().len();
    "HTTP/1.1 ".to_owned().concat(status).concat(
        "\r\nContent-Type: text/html; charset=utf-8\r\nContent-Length: ",
    ).concat(show(n as u64).as_str()).concat("\r\nConnection: close\r\n\r\n").concat(html.as_str())
}

/// A code is taken only from a redirect that carries the state of this sign-in.
pub proof fn law_only_this_sign_in_is_answered(a: Answer, line: Seq<char>, state: Seq<char>)
    requires
        answers(a, line, state),
        a.meaning is Code,
    ensures
        target_of(line) matches Some(target) && head_of(target, Sep::Is('?')) == "/callback"@
            && value_of(pairs_of(query_of(target)), "state"@) == Some(state) && value_of(
            pairs_of(query_of(target)),
            "error"@,
        ) is None,
{
}

/// Checks that a provider has a browser sign-in.
pub fn check_sign_in(provider: &str, can: bool) -> (r: Result<(), SwapdError>)
    ensures
        can ==> r is Ok,
        !can ==> (r matches Err(e) && is_error(
            e,
            ErrorCode::Unsupported,
            provider@ + " has no browser sign-in"@,
        )),
{
    if can {
        return Ok(());
    }
    Err(SwapdError::new(ErrorCode::Unsupported, provider.to_owned().concat(" has no browser sign-in")))
}

} // verus!
