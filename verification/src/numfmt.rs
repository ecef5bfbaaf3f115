//! Fixed-point numbers as text, and lists of texts joined.

use vstd::prelude::*;
use vstd::string::*;

use crate::text::{chars_of, decimal, digit, part_of, show, texts};

verus! {

/// `n / d` rounded to the nearest whole number, a tie to the even one.
pub open spec fn rounded(n: nat, d: nat) -> nat {
    let q = n / d;
    let r = n % d;
    if 2 * r > d || (2 * r == d && q % 2 == 1) {
        q + 1
    } else {
        q
    }
}

/// A number of some unit as text without a fraction, rounded to even.
pub open spec fn whole_text(x: int, unit: nat) -> Seq<char> {
    if x < 0 {
        "-"@ + decimal(rounded((-x) as nat, unit))
    } else {
        decimal(rounded(x as nat, unit))
    }
}

/// The last `width` decimal digits of a number.
pub open spec fn padded(n: nat, width: nat) -> Seq<char>
    decreases width,
{
    if width == 0 {
        Seq::empty()
    } else {
        padded(n / 10, (width - 1) as nat).push(digit(n % 10))
    }
}

/// The magnitude of a number in millionths, with six digits behind the point.
pub open spec fn six_places(n: nat) -> Seq<char> {
    decimal(n / 1_000_000) + "."@ + padded(n % 1_000_000, 6)
}

/// A number in millionths with ten digits behind the point.
pub open spec fn ten_places(x: int) -> Seq<char> {
    if x < 0 {
        "-"@ + (six_places((-x) as nat) + "0000"@)
    } else {
        six_places(x as nat) + "0000"@
    }
}

/// A text without the `c` at its end.
pub open spec fn cut_end(s: Seq<char>, c: char) -> Seq<char>
    decreases s.len(),
{
    if s.len() > 0 && s.last() == c {
        cut_end(s.drop_last(), c)
    } else {
        s
    }
}

/// The absolute value.
pub fn magnitude(x: i128) -> (r: u128)
    requires
        x > i128::MIN,
    ensures
        r == if x < 0 {
            -x
        } else {
            x as int
        },
{
    if x < 0 {
        (-x) as u128
    } else {
        x as u128
    }
}

/// A number of some unit as text without a fraction.
pub fn show_whole(x: i128, unit: u64) -> (r: String)
    requires
        unit > 0,
        -0x1_0000_0000_0000_0000 < x < 0x1_0000_0000_0000_0000,
    ensures
        r@ == whole_text(x as int, unit as nat),
{
    let n: u128 = magnitude(x);
    let d: u128 = unit as u128;
    let q: u128 = n / d;
    let rest: u128 = n % d;
    proof {
        assert(n / d <= n) by (nonlinear_arith)
            requires
                d >= 1,
        ;
        assert(rest < d) by (nonlinear_arith)
            requires
                rest == n % d,
                d > 0,
        ;
    }
    let up: bool = 2 * rest > d || (2 * rest == d && q % 2 == 1);
    proof {
        if up {
            assert(q < 0xffff_ffff_ffff_ffff) by (nonlinear_arith)
                requires
                    up,
                    n < 0x1_0000_0000_0000_0000,
                    q == n / d,
                    rest == n % d,
                    d >= 1,
                    rest < d,
                    2 * rest >= d,
            {
                assert(d >= 2);
                assert(q * 2 <= q * d);
                assert(q * d <= n);
            }
        }
    }
    let whole: u64 = if up {
        q as u64 + 1
    } else {
        q as u64
    };
    if x < 0 {
        "-".to_owned().concat(show(whole).as_str())
    } else {
        show(whole)
    }
}

fn padded_chars(n: u64, width: usize) -> (r: Vec<char>)
    ensures
        r@ == padded(n as nat, width as nat),
    decreases width,
{
    if width == 0 {
        return Vec::new();
    }
    let mut out: Vec<char> = padded_chars(n / 10, width - 1);
    let d: u8 = 48u8 + (n % 10) as u8;
    out.push(d as char);
    out
}

/// A number in millionths with ten digits behind the point.
pub fn show_ten_places(x: i128) -> (r: String)
    requires
        -0x1_0000_0000_0000_0000 < x < 0x1_0000_0000_0000_0000,
    ensures
        r@ == ten_places(x as int),
{
    let n: u64 = magnitude(x) as u64;
    let places: Vec<char> = padded_chars(n % 1_000_000, 6);
    let body: String = show(n / 1_000_000).concat(".").concat(
        part_of(&places, 0, places.len()).as_str(),
    ).concat("0000");
    assert(places@.subrange(0, places@.len() as int) =~= places@);
    if x < 0 {
        "-".to_owned().concat(body.as_str())
    } else {
        body
    }
}

/// A text without the `c` at its end.
pub fn trim_end_of(s: &str, c: char) -> (r: String)
    ensures
        r@ == cut_end(s@, c),
{
    let chars: Vec<char> = chars_of(s);
    let mut to: usize = chars.len();
    assert(chars@.subrange(0, to as int) =~= s@);
    while to > 0 && chars[to - 1] == c
        invariant
            to <= chars.len(),
            cut_end(chars@.subrange(0, to as int), c) == cut_end(s@, c),
        decreases to,
    {
        let ghost part = chars@.subrange(0, to as int);
        assert(part.last() == chars@[to - 1]);
        assert(part.drop_last() =~= chars@.subrange(0, to - 1));
        to -= 1;
    }
    proof {
        let part = chars@.subrange(0, to as int);
        if to > 0 {
            assert(part.last() == chars@[to - 1]);
        }
        assert(cut_end(part, c) == part);
    }
    part_of(&chars, 0, to)
}

/// A percentage as it was set rather than as rounded.
pub open spec fn pct_text(x: int) -> Seq<char> {
    cut_end(cut_end(ten_places(x), '0'), '.')
}

/// A percentage as it was set rather than as rounded: 99.9 is never shown as 100.
pub fn pct_label(x: i64) -> (r: String)
    ensures
        r@ == pct_text(x as int),
{
    let text: String = show_ten_places(x as i128);
    let text: String = trim_end_of(text.as_str(), '0');
    trim_end_of(text.as_str(), '.')
}

/// Texts with another between each two.
pub open spec fn joined(parts: Seq<Seq<char>>, sep: Seq<char>) -> Seq<char>
    decreases parts.len(),
{
    if parts.len() == 0 {
        Seq::empty()
    } else if parts.len() == 1 {
        parts[0]
    } else {
        joined(parts.drop_last(), sep) + sep + parts.last()
    }
}

/// Texts with another between each two.
pub fn join(parts: &Vec<String>, sep: &str) -> (r: String)
    ensures
        r@ == joined(texts(parts@), sep@),
{
    let ghost all = texts(parts@);
    let mut out: String = String::new();
    let mut i: usize = 0;
    assert(all.take(0) =~= Seq::empty());
    while i < parts.len()
        invariant
            i <= parts.len(),
            all == texts(parts@),
            out@ == joined(all.take(i as int), sep@),
        decreases parts.len() - i,
    {
        assert(all.take(i + 1).drop_last() =~= all.take(i as int));
        assert(all[i as int] == parts@[i as int]@);
        if i == 0 {
            out = parts[i].clone();
        } else {
            out = out.concat(sep).concat(parts[i].as_str());
        }
        i += 1;
    }
    assert(all.take(all.len() as int) =~= all);
    out
}

/// Slot numbers as text, with a comma between each two.
pub open spec fn slot_list(slots: Seq<u32>) -> Seq<char> {
    joined(slots.map_values(|n: u32| decimal(n as nat)), ", "@)
}

/// Slot numbers as text, with a comma between each two.
pub fn show_slots(slots: &Vec<u32>) -> (r: String)
    ensures
        r@ == slot_list(slots@),
{
    let ghost goal = slots@.map_values(|n: u32| decimal(n as nat));
    let mut parts: Vec<String> = Vec::new();
    let mut i: usize = 0;
    while i < slots.len()
        invariant
            i <= slots.len(),
            goal == slots@.map_values(|n: u32| decimal(n as nat)),
            texts(parts@) =~= goal.take(i as int),
        decreases slots.len() - i,
    {
        broadcast use crate::text::lemma_texts_push;

        parts.push(show(slots[i] as u64));
        assert(goal[i as int] == decimal(slots@[i as int] as nat));
        i += 1;
    }
    assert(goal.take(goal.len() as int) =~= goal);
    join(&parts, ", ")
}

} // verus!
