//! Texts taken apart at separators.

use vstd::prelude::*;
use vstd::string::*;

use crate::text::{chars_of, is_ascii_text, is_space, part_of, same, space, spell, stands_at, texts};

verus! {

/// What separates.
#[derive(Clone, Copy, Debug, PartialEq, Eq, Structural)]
pub enum Sep {
    /// One character.
    Is(char),
    /// White space.
    Space,
    /// What ends the host of an address.
    HostEnd,
}

impl Sep {
    /// Whether a character separates.
    pub open spec fn at(self, c: char) -> bool {
        match self {
            Sep::Is(x) => c == x,
            Sep::Space => is_space(c),
            Sep::HostEnd => c == '/' || c == '?' || c == '#',
        }
    }

    /// Whether a character separates.
    pub fn separates(self, c: char) -> (r: bool)
        ensures
            r == self.at(c),
    {
        match self {
            Sep::Is(x) => c == x,
            Sep::Space => space(c),
            Sep::HostEnd => c == '/' || c == '?' || c == '#',
        }
    }
}

/// The pieces between separators; one more than there are separators.
pub open spec fn pieces(s: Seq<char>, sep: Sep) -> Seq<Seq<char>>
    decreases s.len(),
{
    if s.len() == 0 {
        seq![Seq::empty()]
    } else {
        let rest = pieces(s.drop_last(), sep);
        if sep.at(s.last()) {
            rest.push(Seq::empty())
        } else {
            rest.update(rest.len() - 1, rest.last().push(s.last()))
        }
    }
}

/// The pieces between separators.
pub fn split(s: &str, sep: Sep) -> (r: Vec<String>)
    ensures
        texts(r@) == pieces(s@, sep),
        r@.len() > 0,
{
    broadcast use crate::text::lemma_texts_push;

    let chars: Vec<char> = chars_of(s);
    let mut out: Vec<String> = Vec::new();
    let mut current: Vec<char> = Vec::new();
    let mut i: usize = 0;
    assert(s@.take(0) =~= Seq::empty());
    assert(texts(out@).push(current@) =~= pieces(s@.take(0), sep));
    while i < chars.len()
        invariant
            i <= chars.len(),
            chars@ == s@,
            texts(out@).push(current@) == pieces(s@.take(i as int), sep),
        decreases chars.len() - i,
    {
        broadcast use crate::text::lemma_texts_push;

        let ghost rest = pieces(s@.take(i as int), sep);
        let ghost done = texts(out@);
        proof {
            assert(s@.take(i + 1).drop_last() =~= s@.take(i as int));
            assert(rest.last() == current@);
        }
        if sep.separates(chars[i]) {
            out.push(spell(&current));
            current = Vec::new();
            assert(texts(out@).push(current@) =~= pieces(s@.take(i + 1), sep));
        } else {
            current.push(chars[i]);
            assert(texts(out@).push(current@) =~= pieces(s@.take(i + 1), sep));
        }
        i += 1;
    }
    assert(s@.take(s@.len() as int) =~= s@);
    out.push(spell(&current));
    out
}

/// The pieces of an ASCII text are ASCII.
pub proof fn lemma_ascii_pieces(s: Seq<char>, sep: Sep)
    requires
        is_ascii_text(s),
    ensures
        pieces(s, sep).len() > 0,
        forall|i: int| 0 <= i < pieces(s, sep).len() ==> is_ascii_text(#[trigger] pieces(s, sep)[i]),
    decreases s.len(),
{
    if s.len() > 0 {
        lemma_ascii_pieces(s.drop_last(), sep);
        let rest = pieces(s.drop_last(), sep);
        let out = pieces(s, sep);
        assert forall|i: int| 0 <= i < out.len() implies is_ascii_text(#[trigger] out[i]) by {
            if i < rest.len() - 1 {
                assert(out[i] == rest[i]);
            } else {
                assert(is_ascii_text(rest[rest.len() - 1]));
            }
        }
    }
}

/// The pieces that are not empty.
pub open spec fn words(s: Seq<char>, sep: Sep) -> Seq<Seq<char>> {
    nonempty(pieces(s, sep))
}

/// Texts that are not empty.
pub open spec fn nonempty(list: Seq<Seq<char>>) -> Seq<Seq<char>>
    decreases list.len(),
{
    if list.len() == 0 {
        Seq::empty()
    } else if list.last().len() == 0 {
        nonempty(list.drop_last())
    } else {
        nonempty(list.drop_last()).push(list.last())
    }
}

/// The pieces that are not empty.
pub fn split_words(s: &str, sep: Sep) -> (r: Vec<String>)
    ensures
        texts(r@) == words(s@, sep),
{
    let parts: Vec<String> = split(s, sep);
    let ghost all = texts(parts@);
    let mut r: Vec<String> = Vec::new();
    let mut i: usize = 0;
    assert(all.take(0) =~= Seq::empty());
    assert(texts(r@) =~= Seq::empty());
    while i < parts.len()
        invariant
            i <= parts.len(),
            all == texts(parts@),
            texts(r@) == nonempty(all.take(i as int)),
        decreases parts.len() - i,
    {
        broadcast use crate::text::lemma_texts_push;

        assert(all.take(i + 1).drop_last() =~= all.take(i as int));
        assert(all[i as int] == parts@[i as int]@);
        if !parts[i].as_str().is_empty() {
            r.push(parts[i].clone());
        }
        i += 1;
    }
    assert(all.take(all.len() as int) =~= all);
    r
}

/// The position of the first separator.
pub open spec fn first_at(s: Seq<char>, sep: Sep) -> Option<int>
    decreases s.len(),
{
    if s.len() == 0 {
        None
    } else {
        match first_at(s.drop_last(), sep) {
            Some(i) => Some(i),
            None => if sep.at(s.last()) {
                Some(s.len() - 1)
            } else {
                None
            },
        }
    }
}

proof fn lemma_first_at_stays(s: Seq<char>, sep: Sep, n: int)
    requires
        0 <= n <= s.len(),
        first_at(s.take(n), sep) is Some,
    ensures
        first_at(s, sep) == first_at(s.take(n), sep),
    decreases s.len() - n,
{
    if n == s.len() {
        assert(s.take(n) =~= s);
    } else {
        assert(s.take(n + 1).drop_last() =~= s.take(n));
        lemma_first_at_stays(s, sep, n + 1);
    }
}

/// A text taken apart at the first separator.
pub open spec fn parted(s: Seq<char>, sep: Sep) -> Option<(Seq<char>, Seq<char>)> {
    match first_at(s, sep) {
        Some(i) => Some((s.take(i), s.skip(i + 1))),
        None => None,
    }
}

/// A text taken apart at the first separator.
pub fn split_once(s: &str, sep: Sep) -> (r: Option<(String, String)>)
    ensures
        r is Some == parted(s@, sep) is Some,
        r matches Some(p) ==> parted(s@, sep) == Some((p.0@, p.1@)),
{
    let chars: Vec<char> = chars_of(s);
    let mut i: usize = 0;
    assert(s@.take(0) =~= Seq::empty());
    while i < chars.len()
        invariant
            i <= chars.len(),
            chars@ == s@,
            first_at(s@.take(i as int), sep) is None,
        decreases chars.len() - i,
    {
        assert(s@.take(i + 1).drop_last() =~= s@.take(i as int));
        if sep.separates(chars[i]) {
            proof {
                lemma_first_at_stays(s@, sep, i + 1);
                assert(chars@.subrange(0, i as int) =~= s@.take(i as int));
                assert(chars@.subrange(i + 1, chars@.len() as int) =~= s@.skip(i + 1));
            }
            return Some((part_of(&chars, 0, i), part_of(&chars, i + 1, chars.len())));
        }
        i += 1;
    }
    assert(s@.take(s@.len() as int) =~= s@);
    None
}

/// What stands before the first separator, or the whole text.
pub open spec fn head_of(s: Seq<char>, sep: Sep) -> Seq<char> {
    match first_at(s, sep) {
        Some(i) => s.take(i),
        None => s,
    }
}

/// What stands before the first separator, or the whole text.
pub fn head(s: &str, sep: Sep) -> (r: String)
    ensures
        r@ == head_of(s@, sep),
{
    match split_once(s, sep) {
        Some(p) => p.0,
        None => s.to_owned(),
    }
}

/// What stands behind the first place where `p` stands.
pub open spec fn behind_first(s: Seq<char>, p: Seq<char>) -> Option<Seq<char>> {
    if exists|i: int| stands_at(s, p, i) {
        let i = choose|i: int|
            stands_at(s, p, i) && forall|j: int| 0 <= j < i ==> !#[trigger] stands_at(s, p, j);
        Some(s.skip(i + p.len()))
    } else {
        None
    }
}

/// What stands behind the first place where a text stands in another.
pub fn behind(s: &str, p: &str) -> (r: Option<String>)
    ensures
        crate::text::opt_text(r) == behind_first(s@, p@),
{
    let chars: Vec<char> = chars_of(s);
    let m: usize = chars.len();
    let n: usize = p.unicode_len();
    let mut i: usize = 0;
    while n <= m && i <= m - n
        invariant
            m == chars@.len(),
            chars@ == s@,
            n == p@.len(),
            n <= m ==> i <= m - n + 1,
            forall|j: int| 0 <= j < i ==> !#[trigger] stands_at(s@, p@, j),
        decreases m + 1 - i,
    {
        let here: String = part_of(&chars, i, i + n);
        if same(here.as_str(), p) {
            assert(stands_at(s@, p@, i as int));
            proof {
                let k = choose|k: int|
                    stands_at(s@, p@, k) && forall|j: int|
                        0 <= j < k ==> !#[trigger] stands_at(s@, p@, j);
                assert(k == i) by {
                    if k < i {
                        assert(stands_at(s@, p@, k));
                    }
                }
                assert(chars@.subrange(i + n, m as int) =~= s@.skip(i + n));
            }
            return Some(part_of(&chars, i + n, m));
        }
        assert(!stands_at(s@, p@, i as int));
        if i == m - n {
            assert forall|j: int| !stands_at(s@, p@, j) by {
                if 0 <= j <= i {
                    assert(!stands_at(s@, p@, j));
                }
            }
            return None;
        }
        i += 1;
    }
    assert forall|j: int| !stands_at(s@, p@, j) by {
        if 0 <= j < i {
            assert(!stands_at(s@, p@, j));
        }
    }
    None
}

} // verus!
