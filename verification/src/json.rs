//! JSON values as this library reads and writes them.

use vstd::prelude::*;

use crate::table::Table;
use crate::text::{decimal, show};

verus! {

/// A JSON value. A number is whole, or given in millionths.
#[derive(Debug)]
pub enum Json {
    Null,
    Bool(bool),
    Int(i128),
    Micro(i64),
    Str(String),
    List(Vec<Json>),
    Object(Table<Json>),
}

/// Whether a value is a text.
pub open spec fn is_text(j: Json, s: Seq<char>) -> bool {
    j matches Json::Str(x) && x@ == s
}

/// Whether a value is an optional text, null where there is none.
pub open spec fn is_opt_text(j: Json, s: Option<Seq<char>>) -> bool {
    match s {
        Some(t) => is_text(j, t),
        None => j is Null,
    }
}

/// An optional whole number, null where there is none.
pub open spec fn opt_int(n: Option<u32>) -> Json {
    match n {
        Some(x) => Json::Int(x as i128),
        None => Json::Null,
    }
}

/// An optional number in millionths, null where there is none.
pub open spec fn opt_micro(n: Option<i64>) -> Json {
    match n {
        Some(x) => Json::Micro(x),
        None => Json::Null,
    }
}

/// An optional whole number, null where there is none.
pub fn int_or_null(n: Option<u32>) -> (r: Json)
    ensures
        r == opt_int(n),
{
    match n {
        Some(x) => Json::Int(x as i128),
        None => Json::Null,
    }
}

/// An optional number in millionths, null where there is none.
pub fn micro_or_null(n: Option<i64>) -> (r: Json)
    ensures
        r == opt_micro(n),
{
    match n {
        Some(x) => Json::Micro(x),
        None => Json::Null,
    }
}

/// The object that holds values under slot numbers: keys are texts, as they
/// always are.
pub open spec fn slot_object(items: Seq<(u32, Json)>) -> Map<Seq<char>, Json>
    decreases items.len(),
{
    if items.len() == 0 {
        Map::empty()
    } else {
        slot_object(items.drop_last()).insert(decimal(items.last().0 as nat), items.last().1)
    }
}

/// Puts a value under a slot number.
pub(crate) fn put_slot(out: &mut Table<Json>, built: Ghost<Seq<(u32, Json)>>, slot: u32, value: Json)
    requires
        old(out).wf(),
        old(out)@ == slot_object(built@),
    ensures
        final(out).wf(),
        final(out)@ == slot_object(built@.push((slot, value))),
{
    proof {
        assert(built@.push((slot, value)).drop_last() =~= built@);
    }
    out.insert(show(slot as u64), value);
}

/// A list of texts as a value.
pub open spec fn is_text_list(j: Json, list: Seq<String>) -> bool {
    j matches Json::List(items) && items@.len() == list.len() && forall|i: int|
        0 <= i < list.len() ==> #[trigger] items@[i] == Json::Str(list[i])
}

/// A list of texts as a value.
pub fn text_list(list: &Vec<String>) -> (r: Json)
    ensures
        is_text_list(r, list@),
{
    let mut items: Vec<Json> = Vec::new();
    let mut i: usize = 0;
    while i < list.len()
        invariant
            i <= list.len(),
            items@.len() == i,
            forall|k: int| 0 <= k < i ==> #[trigger] items@[k] == Json::Str(list@[k]),
        decreases list.len() - i,
    {
        items.push(Json::Str(list[i].clone()));
        i += 1;
    }
    Json::List(items)
}

/// The first member with a name.
pub open spec fn member(items: Seq<(String, Json)>, key: Seq<char>) -> Option<Json>
    decreases items.len(),
{
    if items.len() == 0 {
        None
    } else if items[0].0@ == key {
        Some(items[0].1)
    } else {
        member(items.drop_first(), key)
    }
}

/// The first member with a name.
pub fn member_of<'a>(object: &'a Table<Json>, key: &str) -> (r: Option<&'a Json>)
    ensures
        r is Some == member(object.items@, key@) is Some,
        r matches Some(j) ==> member(object.items@, key@) == Some(*j),
{
    match find_member(object, key) {
        Some(i) => Some(&object.items[i].1),
        None => None,
    }
}

/// The position of the first member with a name.
fn find_member(object: &Table<Json>, key: &str) -> (r: Option<usize>)
    ensures
        r is Some == member(object.items@, key@) is Some,
        r matches Some(i) ==> i < object.items@.len() && object.items@[i as int].0@ == key@ && member(
            object.items@,
            key@,
        ) == Some(object.items@[i as int].1) && forall|j: int|
            0 <= j < i ==> (#[trigger] object.items@[j]).0@ != key@,
{
    let ghost items = object.items@;
    let mut i: usize = 0;
    assert(items.skip(0) =~= items);
    while i < object.items.len()
        invariant
            i <= items.len(),
            items == object.items@,
            member(items, key@) == member(items.skip(i as int), key@),
            forall|j: int| 0 <= j < i ==> (#[trigger] items[j]).0@ != key@,
        decreases items.len() - i,
    {
        assert(items.skip(i as int)[0] == items[i as int]);
        assert(items.skip(i as int).drop_first() =~= items.skip(i + 1));
        if crate::text::same(object.items[i].0.as_str(), key) {
            return Some(i);
        }
        i += 1;
    }
    None
}

proof fn lemma_member_of_update(items: Seq<(String, Json)>, i: int, value: Json, key: Seq<char>)
    requires
        0 <= i < items.len(),
        forall|j: int| 0 <= j < i ==> (#[trigger] items[j]).0@ != items[i].0@,
    ensures
        member(items.update(i, (items[i].0, value)), key) == if key == items[i].0@ {
            Some(value)
        } else {
            member(items, key)
        },
    decreases items.len(),
{
    let out = items.update(i, (items[i].0, value));
    if i == 0 {
        assert(out.drop_first() =~= items.drop_first());
    } else {
        let rest = items.drop_first();
        assert forall|j: int| 0 <= j < i - 1 implies (#[trigger] rest[j]).0@ != rest[i - 1].0@ by {
            assert(items[j + 1].0@ != items[i].0@);
        }
        lemma_member_of_update(rest, i - 1, value, key);
        assert(out.drop_first() =~= rest.update(i - 1, (rest[i - 1].0, value)));
        assert(items[0].0@ != items[i].0@);
    }
}

proof fn lemma_member_of_push(items: Seq<(String, Json)>, e: (String, Json), key: Seq<char>)
    ensures
        member(items.push(e), key) == match member(items, key) {
            Some(j) => Some(j),
            None => if e.0@ == key {
                Some(e.1)
            } else {
                None
            },
        },
    decreases items.len(),
{
    let out = items.push(e);
    if items.len() == 0 {
        assert(out.drop_first() =~= Seq::empty());
        assert(member(out.drop_first(), key) is None);
    } else {
        lemma_member_of_push(items.drop_first(), e, key);
        assert(out.drop_first() =~= items.drop_first().push(e));
    }
}

/// Sets a member, in place of the one of that name.
pub fn set_member(object: &mut Table<Json>, key: &str, value: Json)
    ensures
        forall|k: Seq<char>| #[trigger] member(final(object).items@, k) == if k == key@ {
            Some(value)
        } else {
            member(old(object).items@, k)
        },
{
    let ghost items = object.items@;
    match find_member(object, key) {
        Some(i) => {
            let name: String = object.items[i].0.clone();
            object.items.set(i, (name, value));
            assert forall|k: Seq<char>| #[trigger] member(object.items@, k) == if k == key@ {
                Some(value)
            } else {
                member(items, k)
            } by {
                lemma_member_of_update(items, i as int, value, k);
            }
        },
        None => {
            let name: String = key.to_owned();
            object.items.push((name, value));
            assert forall|k: Seq<char>| #[trigger] member(object.items@, k) == if k == key@ {
                Some(value)
            } else {
                member(items, k)
            } by {
                lemma_member_of_push(items, (name, value), k);
            }
        },
    }
}

/// Whether no member is named twice.
pub open spec fn unique(items: Seq<(String, Json)>) -> bool {
    forall|i: int, j: int|
        0 <= i < j < items.len() ==> (#[trigger] items[i]).0@ != (#[trigger] items[j]).0@
}

proof fn lemma_member_of_remove(items: Seq<(String, Json)>, i: int, key: Seq<char>)
    requires
        unique(items),
        0 <= i < items.len(),
    ensures
        member(items.remove(i), key) == if key == items[i].0@ {
            None
        } else {
            member(items, key)
        },
    decreases items.len(),
{
    let out = items.remove(i);
    let rest = items.drop_first();
    assert(unique(rest)) by {
        assert forall|a: int, b: int| 0 <= a < b < rest.len() implies (#[trigger] rest[a]).0@ != (
        #[trigger] rest[b]).0@ by {
            assert(items[a + 1].0@ != items[b + 1].0@);
        }
    }
    if i == 0 {
        assert(out =~= rest);
        if key == items[0].0@ {
            lemma_no_member(rest, key);
        }
    } else {
        lemma_member_of_remove(rest, i - 1, key);
        assert(out.drop_first() =~= rest.remove(i - 1));
        assert(out[0] == items[0]);
        assert(items[0].0@ != items[i].0@);
    }
}

proof fn lemma_no_member(items: Seq<(String, Json)>, key: Seq<char>)
    requires
        forall|i: int| 0 <= i < items.len() ==> (#[trigger] items[i]).0@ != key,
    ensures
        member(items, key) is None,
    decreases items.len(),
{
    if items.len() > 0 {
        let rest = items.drop_first();
        assert forall|i: int| 0 <= i < rest.len() implies (#[trigger] rest[i]).0@ != key by {
            assert(items[i + 1].0@ != key);
        }
        lemma_no_member(rest, key);
    }
}

/// Takes a member out of an object; answers it. Where a name stands twice the first
/// goes.
pub fn take_member(object: &mut Table<Json>, key: &str) -> (r: Option<Json>)
    ensures
        r == member(old(object).items@, key@),
        unique(old(object).items@) ==> (forall|k: Seq<char>| #[trigger]
            member(final(object).items@, k) == if k == key@ {
                None
            } else {
                member(old(object).items@, k)
            }),
        r is None ==> *final(object) == *old(object),
{
    let ghost items = object.items@;
    match find_member(object, key) {
        Some(i) => {
            let pair: (String, Json) = object.items.remove(i);
            proof {
                if unique(items) {
                    assert forall|k: Seq<char>| #[trigger] member(object.items@, k) == if k == key@ {
                        None
                    } else {
                        member(items, k)
                    } by {
                        lemma_member_of_remove(items, i as int, k);
                    }
                }
            }
            Some(pair.1)
        },
        None => None,
    }
}

/// The text that a value is.
pub open spec fn text_of(j: Option<Json>) -> Option<Seq<char>> {
    match j {
        Some(Json::Str(s)) => Some(s@),
        _ => None,
    }
}

/// The text of a member.
pub fn member_text(object: &Table<Json>, key: &str) -> (r: Option<String>)
    ensures
        crate::text::opt_text(r) == text_of(member(object.items@, key@)),
{
    match member_of(object, key) {
        Some(Json::Str(s)) => Some(s.clone()),
        _ => None,
    }
}

/// The unsigned number of 64 bits that a value is.
pub open spec fn unsigned_of(j: Option<Json>) -> Option<u64> {
    match j {
        Some(Json::Int(n)) => if 0 <= n <= u64::MAX {
            Some(n as u64)
        } else {
            None
        },
        _ => None,
    }
}

/// The unsigned number that a value is.
pub fn as_unsigned(j: Option<&Json>) -> (r: Option<u64>)
    ensures
        r == unsigned_of(
            match j {
                Some(x) => Some(*x),
                None => None,
            },
        ),
{
    match j {
        Some(Json::Int(n)) => if 0 <= *n && *n <= 0xffff_ffff_ffff_ffff {
            Some(*n as u64)
        } else {
            None
        },
        _ => None,
    }
}

} // verus!
