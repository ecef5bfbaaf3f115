//! What holds of a sign-in in the browser: how a query is read, and which request answers
//! it.

use vstd::prelude::*;

use crate::oauth::{
    decoded, find_value, parse_query, query_of, sanitize, serve, target_of, Answer,
    Meaning,
};
use crate::split::{head_of, Sep};
use crate::text::opt_text;

verus! {

/// The character for the value of a hexadecimal digit, in either case.
pub open spec fn hex_char(v: int, upper: bool) -> u8 {
    if v < 10 {
        (48 + v) as u8
    } else if upper {
        (55 + v) as u8
    } else {
        (87 + v) as u8
    }
}

/// A percent sign and two hexadecimal digits stand for the byte that the digits spell, a
/// plus sign for a space, and any other byte for itself.
pub proof fn law_an_escape_stands_for_its_byte(
    high: int,
    low: int,
    upper: bool,
    lower: bool,
    b: u8,
    rest: Seq<u8>,
)
    requires
        0 <= high < 16,
        0 <= low < 16,
        b != 37,
        b != 43,
    ensures
        decoded(seq![37u8, hex_char(high, upper), hex_char(low, lower)] + rest) == seq![
            (16 * high + low) as u8,
        ] + decoded(rest),
        decoded(seq![43u8] + rest) == seq![32u8] + decoded(rest),
        decoded(seq![b] + rest) == seq![b] + decoded(rest),
        decoded(Seq::<u8>::empty()) == Seq::<u8>::empty(),
{
    let a = seq![37u8, hex_char(high, upper), hex_char(low, lower)] + rest;
    assert(a[0] == 37 && a[1] == hex_char(high, upper) && a[2] == hex_char(low, lower));
    assert(a.skip(3) =~= rest);
    let p = seq![43u8] + rest;
    assert(p[0] == 43);
    assert(p.skip(1) =~= rest);
    let q = seq![b] + rest;
    assert(q[0] == b);
    assert(q.skip(1) =~= rest);
}

/// The value of a name is that of the first pair that has it.
pub proof fn law_the_first_value_of_a_name_counts(
    pairs: Vec<(String, String)>,
    key: &str,
    r: Option<String>,
    i: int,
)
    requires
        call_ensures(find_value, (&pairs, key), r),
    ensures
        0 <= i < pairs@.len() && pairs@[i].0@ == key@ && (forall|k: int|
            0 <= k < i ==> (#[trigger] pairs@[k]).0@ != key@) ==> r is Some && r->0@ == pairs@[i].1@,
        (forall|k: int| 0 <= k < pairs@.len() ==> (#[trigger] pairs@[k]).0@ != key@) ==> r is None,
{
    let all = crate::oauth::pair_texts(pairs@);
    assert(all.len() == pairs@.len());
    assert forall|k: int| 0 <= k < all.len() implies #[trigger] all[k] == (
        pairs@[k].0@,
        pairs@[k].1@,
    ) by {}
    lemma_value_of(all, key@, i);
    if forall|k: int| 0 <= k < pairs@.len() ==> (#[trigger] pairs@[k]).0@ != key@ {
        assert forall|k: int| 0 <= k < all.len() implies (#[trigger] all[k]).0 != key@ by {
            assert(pairs@[k].0@ != key@);
        }
    }
    if 0 <= i < pairs@.len() && pairs@[i].0@ == key@ && (forall|k: int|
        0 <= k < i ==> (#[trigger] pairs@[k]).0@ != key@) {
        assert forall|k: int| 0 <= k < i implies (#[trigger] all[k]).0 != key@ by {
            assert(pairs@[k].0@ != key@);
        }
    }
}

proof fn lemma_value_of(pairs: Seq<(Seq<char>, Seq<char>)>, key: Seq<char>, i: int)
    ensures
        0 <= i < pairs.len() && pairs[i].0 == key && (forall|k: int|
            0 <= k < i ==> (#[trigger] pairs[k]).0 != key) ==> crate::oauth::value_of(pairs, key)
            == Some(pairs[i].1),
        (forall|k: int| 0 <= k < pairs.len() ==> (#[trigger] pairs[k]).0 != key)
            ==> crate::oauth::value_of(pairs, key) is None,
    decreases pairs.len(),
{
    if pairs.len() > 0 {
        let rest = pairs.drop_first();
        lemma_value_of(rest, key, i - 1);
        assert forall|k: int| 0 <= k < rest.len() implies #[trigger] rest[k] == pairs[k + 1] by {}
        if forall|k: int| 0 <= k < pairs.len() ==> (#[trigger] pairs[k]).0 != key {
            assert(pairs[0].0 != key);
            assert forall|k: int| 0 <= k < rest.len() implies (#[trigger] rest[k]).0 != key by {
                assert(pairs[k + 1].0 != key);
            }
        }
        if i > 0 && forall|k: int| 0 <= k < i ==> (#[trigger] pairs[k]).0 != key {
            assert(pairs[0].0 != key);
            assert forall|k: int| 0 <= k < i - 1 && k < rest.len() implies (#[trigger] rest[k]).0
                != key by {
                assert(pairs[k + 1].0 != key);
            }
        }
    }
}

/// Of a query only printable characters reach a message, eighty at the most; a short value of
/// such characters reaches it as it is.
pub proof fn law_only_printable_characters_reach_a_message(value: &str, r: String)
    requires
        call_ensures(sanitize, (value,), r),
    ensures
        r@.len() <= 80,
        forall|i: int| 0 <= i < r@.len() ==> 32 <= (#[trigger] r@[i]) as u32 <= 126,
        value@.len() <= 80 && (forall|i: int|
            0 <= i < value@.len() ==> 32 <= (#[trigger] value@[i]) as u32 <= 126) ==> r@ == value@,
{
    assert forall|i: int| 0 <= i < r@.len() implies 32 <= (#[trigger] r@[i]) as u32 <= 126 by {
        assert(crate::oauth::printable(r@[i]));
    }
    if forall|i: int| 0 <= i < value@.len() ==> 32 <= (#[trigger] value@[i]) as u32 <= 126 {
        lemma_printed(value@);
    }
}

proof fn lemma_printed(s: Seq<char>)
    requires
        forall|i: int| 0 <= i < s.len() ==> 32 <= (#[trigger] s[i]) as u32 <= 126,
    ensures
        crate::oauth::printed(s) == s,
    decreases s.len(),
{
    if s.len() > 0 {
        let short = s.drop_last();
        assert forall|i: int| 0 <= i < short.len() implies 32 <= (#[trigger] short[i]) as u32
            <= 126 by {
            assert(short[i] == s[i]);
        }
        lemma_printed(short);
        assert(s.last() == s[s.len() - 1]);
        assert(short.push(s.last()) =~= s);
    } else {
        assert(crate::oauth::printed(s) =~= s);
    }
}

/// Which request answers a sign-in: the redirect to the callback alone. One with an error
/// ends it. One with a code is taken only where it carries the state of this sign-in, and
/// the code is not empty; every other is ignored.
pub proof fn law_which_request_answers_a_sign_in(
    line: &str,
    state: &str,
    a: Answer,
    query: &str,
    pairs: Vec<(String, String)>,
    error: Option<String>,
    theirs: Option<String>,
    code: Option<String>,
)
    requires
        call_ensures(serve, (line, state), a),
        target_of(line@) is Some ==> query@ == query_of(target_of(line@)->0),
        call_ensures(parse_query, (query,), pairs),
        call_ensures(find_value, (&pairs, "error"), error),
        call_ensures(find_value, (&pairs, "state"), theirs),
        call_ensures(find_value, (&pairs, "code"), code),
    ensures
        ({
            let here = target_of(line@) is Some && head_of(target_of(line@)->0, Sep::Is('?'))
                == "/callback"@;
            &&& !here ==> a.meaning is Ignored
            &&& here ==> (a.meaning is Refused <==> error is Some)
            &&& here && error is None ==> (a.meaning is Code <==> theirs is Some && theirs->0@
                == state@ && code is Some && code->0@.len() > 0)
            &&& a.meaning matches Meaning::Code(c) ==> code is Some && c@ == code->0@
        }),
{
    assert(opt_text(error) == match error {
        Some(s) => Some(s@),
        None => None,
    });
    assert(opt_text(theirs) == match theirs {
        Some(s) => Some(s@),
        None => None,
    });
    assert(opt_text(code) == match code {
        Some(s) => Some(s@),
        None => None,
    });
}

} // verus!
