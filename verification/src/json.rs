//! A JSON document held as plain values.
//!
//! Configuration files are JSON text. The codec turns that text into [`Json`]
//! values (and back), so the merge engine and the (de)serialization of
//! configuration types can be specified and verified over an ordinary
//! datatype. Object entries keep their order; keys of a well-formed object
//! are distinct.

use vstd::prelude::*;
use crate::codec::canonical_num_text;

verus! {

/// The mathematical model of a JSON document: the view of [`Json`].
pub enum JsonData {
    Null,
    Bool(bool),
    Int(i64),
    UInt(u64),
    NumText(Seq<char>),
    Str(Seq<char>),
    Arr(Seq<JsonData>),
    Obj(Seq<(Seq<char>, JsonData)>),
}

/// A JSON document. `UInt` holds the non-negative integers and `Int` the
/// negative ones, mirroring how the codec normalizes numbers; a number that
/// fits neither (a fraction, an exponent, an integer beyond 64 bits) is kept
/// as the decimal text the codec produced for it, in `NumText`.
#[derive(Debug, PartialEq)]
pub enum Json {
    Null,
    Bool(bool),
    Int(i64),
    UInt(u64),
    NumText(String),
    Str(String),
    Arr(Vec<Json>),
    Obj(Vec<(String, Json)>),
}

/// The view of an array's elements.
pub open spec fn view_arr(items: Seq<Json>) -> Seq<JsonData>
    decreases items,
{
    if items.len() == 0 {
        Seq::empty()
    } else {
        seq![items[0]@] + view_arr(items.subrange(1, items.len() as int))
    }
}

/// The view of an object's entries.
pub open spec fn view_obj(entries: Seq<(String, Json)>) -> Seq<(Seq<char>, JsonData)>
    decreases entries,
{
    if entries.len() == 0 {
        Seq::empty()
    } else {
        seq![(entries[0].0@, entries[0].1@)] + view_obj(
            entries.subrange(1, entries.len() as int),
        )
    }
}

impl View for Json {
    type V = JsonData;

    open spec fn view(&self) -> JsonData
        decreases self,
    {
        match self {
            Json::Null => JsonData::Null,
            Json::Bool(b) => JsonData::Bool(*b),
            Json::Int(i) => JsonData::Int(*i),
            Json::UInt(u) => JsonData::UInt(*u),
            Json::NumText(s) => JsonData::NumText(s@),
            Json::Str(s) => JsonData::Str(s@),
            Json::Arr(items) => JsonData::Arr(view_arr(items@)),
            Json::Obj(entries) => JsonData::Obj(view_obj(entries@)),
        }
    }
}

/// `view_arr` maps the view over the elements.
pub broadcast proof fn lemma_view_arr(items: Seq<Json>)
    ensures
        (#[trigger] view_arr(items)).len() == items.len(),
        forall|i: int| 0 <= i < items.len() ==> view_arr(items)[i] == items[i]@,
    decreases items,
{
    reveal_with_fuel(view_arr, 2);
    if items.len() > 0 {
        let rest = items.subrange(1, items.len() as int);
        lemma_view_arr(rest);
        assert(view_arr(items) == seq![items[0]@] + view_arr(rest));
        assert forall|i: int| 0 <= i < items.len() implies view_arr(items)[i] == items[i]@ by {
            if i > 0 {
                assert(rest[i - 1] == items[i]);
                assert(view_arr(items)[i] == view_arr(rest)[i - 1]);
            }
        }
    }
}

/// `view_obj` maps the views over the keys and the values.
pub broadcast proof fn lemma_view_obj(entries: Seq<(String, Json)>)
    ensures
        (#[trigger] view_obj(entries)).len() == entries.len(),
        forall|i: int|
            0 <= i < entries.len() ==> view_obj(entries)[i] == (entries[i].0@, entries[i].1@),
    decreases entries,
{
    reveal_with_fuel(view_obj, 2);
    if entries.len() > 0 {
        let rest = entries.subrange(1, entries.len() as int);
        lemma_view_obj(rest);
        assert(view_obj(entries) == seq![(entries[0].0@, entries[0].1@)] + view_obj(rest));
        assert forall|i: int|
            0 <= i < entries.len() implies view_obj(entries)[i] == (
            entries[i].0@,
            entries[i].1@,
        ) by {
            if i > 0 {
                assert(rest[i - 1] == entries[i]);
                assert(view_obj(entries)[i] == view_obj(rest)[i - 1]);
            }
        }
    }
}

/// The value under `key` in an object's entries: the first entry with that
/// key, as in a map built by inserting the entries in order.
pub open spec fn lookup(entries: Seq<(Seq<char>, JsonData)>, key: Seq<char>) -> Option<JsonData>
    decreases entries.len(),
{
    if entries.len() == 0 {
        None
    } else if entries[0].0 == key {
        Some(entries[0].1)
    } else {
        lookup(entries.subrange(1, entries.len() as int), key)
    }
}

/// Whether an object's entries hold `key`.
pub open spec fn has_key(entries: Seq<(Seq<char>, JsonData)>, key: Seq<char>) -> bool {
    lookup(entries, key) is Some
}

/// The keys of the entries are pairwise distinct.
pub open spec fn keys_unique(entries: Seq<(Seq<char>, JsonData)>) -> bool {
    forall|i: int, j: int| 0 <= i < j < entries.len() ==> entries[i].0 != entries[j].0
}

/// Every object in the document has pairwise distinct keys: what a JSON
/// object, being a map, always satisfies.
pub open spec fn objs_unique(j: JsonData) -> bool
    decreases j,
{
    match j {
        JsonData::Arr(items) => forall|i: int|
            0 <= i < items.len() ==> objs_unique(#[trigger] items[i]),
        JsonData::Obj(entries) => keys_unique(entries) && forall|i: int|
            0 <= i < entries.len() ==> objs_unique(#[trigger] entries[i].1),
        _ => true,
    }
}

/// Every number in the document is in the codec's normal form: negative
/// integers under `Int`, non-negative ones under `UInt`, and a `NumText`
/// that the codec itself rendered.
pub open spec fn nums_canonical(j: JsonData) -> bool
    decreases j,
{
    match j {
        JsonData::Int(i) => i < 0,
        JsonData::NumText(s) => canonical_num_text(s),
        JsonData::Arr(items) => forall|i: int|
            0 <= i < items.len() ==> nums_canonical(#[trigger] items[i]),
        JsonData::Obj(entries) => forall|i: int|
            0 <= i < entries.len() ==> nums_canonical(#[trigger] entries[i].1),
        _ => true,
    }
}

/// A document as the codec produces and consumes it: distinct keys and
/// normalized numbers.
pub open spec fn canonical(j: JsonData) -> bool {
    objs_unique(j) && nums_canonical(j)
}


/// The nesting depth of a document: how many containers the deepest path
/// passes through. The codec's parser refuses documents deeper than its
/// recursion limit, so the printable documents are bounded by it too.
pub open spec fn depth(j: JsonData) -> int
    decreases j,
{
    match j {
        JsonData::Arr(items) => 1 + depth_of_items(items),
        JsonData::Obj(entries) => 1 + depth_of_entries(entries),
        _ => 0,
    }
}

/// The deepest element of an array.
pub open spec fn depth_of_items(items: Seq<JsonData>) -> int
    decreases items,
{
    if items.len() == 0 {
        0
    } else {
        let head = depth(items[0]);
        let rest = depth_of_items(items.subrange(1, items.len() as int));
        if head > rest {
            head
        } else {
            rest
        }
    }
}

/// The deepest value of an object.
pub open spec fn depth_of_entries(entries: Seq<(Seq<char>, JsonData)>) -> int
    decreases entries,
{
    if entries.len() == 0 {
        0
    } else {
        let head = depth(entries[0].1);
        let rest = depth_of_entries(entries.subrange(1, entries.len() as int));
        if head > rest {
            head
        } else {
            rest
        }
    }
}

/// An array is as deep as its deepest element.
pub proof fn lemma_depth_items_bound(items: Seq<JsonData>, d: int)
    requires
        0 <= d,
        forall|i: int| 0 <= i < items.len() ==> depth(#[trigger] items[i]) <= d,
    ensures
        depth_of_items(items) <= d,
    decreases items.len(),
{
    if items.len() > 0 {
        let rest = items.subrange(1, items.len() as int);
        assert forall|i: int| 0 <= i < rest.len() implies depth(#[trigger] rest[i]) <= d by {
            assert(rest[i] == items[i + 1]);
        }
        lemma_depth_items_bound(rest, d);
    }
}

/// An object is as deep as its deepest value.
pub proof fn lemma_depth_entries_bound(entries: Seq<(Seq<char>, JsonData)>, d: int)
    requires
        0 <= d,
        forall|i: int| 0 <= i < entries.len() ==> depth(#[trigger] entries[i].1) <= d,
    ensures
        depth_of_entries(entries) <= d,
    decreases entries.len(),
{
    if entries.len() > 0 {
        let rest = entries.subrange(1, entries.len() as int);
        assert forall|i: int| 0 <= i < rest.len() implies depth(#[trigger] rest[i].1) <= d by {
            assert(rest[i] == entries[i + 1]);
        }
        lemma_depth_entries_bound(rest, d);
    }
}

/// `lookup` past a prefix free of `key` looks up in the remainder.
pub proof fn lemma_lookup_skip_prefix(
    entries: Seq<(Seq<char>, JsonData)>,
    key: Seq<char>,
    n: int,
)
    requires
        0 <= n <= entries.len(),
        forall|j: int| 0 <= j < n ==> entries[j].0 != key,
    ensures
        lookup(entries, key) == lookup(entries.subrange(n, entries.len() as int), key),
    decreases n,
{
    reveal_with_fuel(lookup, 2);
    if n > 0 {
        let rest = entries.subrange(1, entries.len() as int);
        assert(entries[0].0 != key);
        assert(lookup(entries, key) == lookup(rest, key));
        assert forall|j: int| 0 <= j < n - 1 implies rest[j].0 != key by {
            assert(entries[j + 1].0 != key);
        }
        lemma_lookup_skip_prefix(rest, key, n - 1);
        let tail1 = rest.subrange(n - 1, rest.len() as int);
        let tail2 = entries.subrange(n, entries.len() as int);
        assert(tail1 =~= tail2);
        assert(lookup(rest, key) == lookup(tail1, key));
        assert(lookup(entries, key) == lookup(tail2, key));
    } else {
        assert(entries.subrange(0, entries.len() as int) =~= entries);
    }
}

/// `lookup` finds the value at the first index whose key matches.
pub proof fn lemma_lookup_at_first_index(
    entries: Seq<(Seq<char>, JsonData)>,
    key: Seq<char>,
    n: int,
)
    requires
        0 <= n < entries.len(),
        forall|j: int| 0 <= j < n ==> entries[j].0 != key,
        entries[n].0 == key,
    ensures
        lookup(entries, key) == Some(entries[n].1),
{
    lemma_lookup_skip_prefix(entries, key, n);
    let tail = entries.subrange(n, entries.len() as int);
    assert(tail[0] == entries[n]);
}

/// When `lookup` finds a value, some index holds it; when the keys are
/// distinct, every index with the key holds it.
pub proof fn lemma_lookup_index(entries: Seq<(Seq<char>, JsonData)>, key: Seq<char>)
    ensures
        has_key(entries, key) <==> exists|i: int|
            0 <= i < entries.len() && entries[i].0 == key,
        lookup(entries, key) matches Some(v) ==> exists|i: int|
            0 <= i < entries.len() && entries[i].0 == key && entries[i].1 == v,
    decreases entries.len(),
{
    if entries.len() > 0 {
        let rest = entries.subrange(1, entries.len() as int);
        lemma_lookup_index(rest, key);
        if entries[0].0 != key {
            if has_key(entries, key) {
                let i = choose|i: int| 0 <= i < rest.len() && rest[i].0 == key;
                assert(entries[i + 1].0 == key);
            }
            if exists|i: int| 0 <= i < entries.len() && entries[i].0 == key {
                let i = choose|i: int| 0 <= i < entries.len() && entries[i].0 == key;
                assert(rest[i - 1].0 == key);
            }
            if lookup(entries, key) is Some {
                let v = lookup(entries, key)->Some_0;
                let i = choose|i: int| 0 <= i < rest.len() && rest[i].0 == key && rest[i].1 == v;
                assert(entries[i + 1].0 == key && entries[i + 1].1 == v);
            }
        }
    }
}

/// A borrowed deep copy of a JSON value; the verified replacement for a
/// derived clone, whose effect Verus would not know.
pub fn json_clone(j: &Json) -> (r: Json)
    ensures
        r@ == j@,
    decreases *j,
{
    match j {
        Json::Null => Json::Null,
        Json::Bool(b) => Json::Bool(*b),
        Json::Int(i) => Json::Int(*i),
        Json::UInt(u) => Json::UInt(*u),
        Json::NumText(s) => Json::NumText(s.clone()),
        Json::Str(s) => Json::Str(s.clone()),
        Json::Arr(items) => {
            let mut out: Vec<Json> = Vec::new();
            let mut i: usize = 0;
            while i < items.len()
                invariant
                    i <= items.len(),
                    out@.len() == i,
                    forall|k: int| 0 <= k < i ==> out@[k]@ == items@[k]@,
                    *j == Json::Arr(*items),
                decreases items.len() - i,
            {
                proof {
                    assert(decreases_to!(*j => (*j)->Arr_0));
                    assert((*j)->Arr_0 == *items);
                    assert(decreases_to!(*items => items@));
                    assert(decreases_to!(items@ => items@[i as int]));
                }
                let c = json_clone(&items[i]);
                out.push(c);
                i = i + 1;
            }
            proof {
                lemma_view_arr(items@);
                lemma_view_arr(out@);
                assert(view_arr(out@) =~= view_arr(items@));
            }
            Json::Arr(out)
        },
        Json::Obj(entries) => {
            let mut out: Vec<(String, Json)> = Vec::new();
            let mut i: usize = 0;
            while i < entries.len()
                invariant
                    i <= entries.len(),
                    out@.len() == i,
                    forall|k: int|
                        0 <= k < i ==> out@[k].0@ == entries@[k].0@ && out@[k].1@
                            == entries@[k].1@,
                    *j == Json::Obj(*entries),
                decreases entries.len() - i,
            {
                let key = entries[i].0.clone();
                proof {
                    assert(decreases_to!(*j => (*j)->Obj_0));
                    assert((*j)->Obj_0 == *entries);
                    assert(decreases_to!(*entries => entries@));
                    assert(decreases_to!(entries@ => entries@[i as int]));
                    assert(decreases_to!(entries@[i as int] => entries@[i as int].1));
                }
                let val = json_clone(&entries[i].1);
                out.push((key, val));
                i = i + 1;
            }
            proof {
                lemma_view_obj(entries@);
                lemma_view_obj(out@);
                assert(view_obj(out@) =~= view_obj(entries@));
            }
            Json::Obj(out)
        },
    }
}

/// A borrowed reference to the value under `key`, or `None` when the object
/// holds no such key.
pub fn lookup_entry<'a>(entries: &'a Vec<(String, Json)>, key: &String) -> (r: Option<&'a Json>)
    ensures
        match r {
            Some(v) => lookup(view_obj(entries@), key@) == Some(v@),
            None => !has_key(view_obj(entries@), key@),
        },
{
    proof {
        lemma_view_obj(entries@);
    }
    let mut i: usize = 0;
    while i < entries.len()
        invariant
            i <= entries.len(),
            forall|j: int| 0 <= j < i ==> view_obj(entries@)[j].0 != key@,
            view_obj(entries@).len() == entries@.len(),
            forall|j: int|
                0 <= j < entries.len() ==> #[trigger] view_obj(entries@)[j] == (
                    entries@[j].0@,
                    entries@[j].1@,
                ),
        decreases entries.len() - i,
    {
        if entries[i].0 == *key {
            proof {
                lemma_lookup_at_first_index(view_obj(entries@), key@, i as int);
            }
            return Some(&entries[i].1);
        }
        i = i + 1;
    }
    proof {
        lemma_lookup_skip_prefix(view_obj(entries@), key@, entries@.len() as int);
        assert(view_obj(entries@).subrange(
            entries@.len() as int,
            view_obj(entries@).len() as int,
        ) =~= Seq::<(Seq<char>, JsonData)>::empty());
    }
    None
}

/// The canonical JSON value of a signed integer: `UInt` when it is
/// non-negative, `Int` when it is negative.
pub open spec fn spec_json_int(i: i64) -> JsonData {
    if i >= 0 {
        JsonData::UInt(i as u64)
    } else {
        JsonData::Int(i)
    }
}

/// Builds the canonical JSON value of a signed integer.
pub fn json_int(i: i64) -> (r: Json)
    ensures
        r@ == spec_json_int(i),
{
    if i >= 0 {
        Json::UInt(i as u64)
    } else {
        Json::Int(i)
    }
}

/// Reads a signed integer back from its JSON value: accepts any integral
/// JSON number in range, the inverse of [`json_int`].
pub open spec fn spec_json_as_int(j: JsonData) -> Option<i64> {
    match j {
        JsonData::Int(i) => Some(i),
        JsonData::UInt(u) => if u <= i64::MAX as u64 {
            Some(u as i64)
        } else {
            None
        },
        _ => None,
    }
}

/// Extracts a signed integer from a JSON value, when it holds one in range.
pub fn json_as_int(j: &Json) -> (r: Option<i64>)
    ensures
        r == spec_json_as_int(j@),
{
    match j {
        Json::Int(i) => Some(*i),
        Json::UInt(u) => if *u <= i64::MAX as u64 {
            Some(*u as i64)
        } else {
            None
        },
        _ => None,
    }
}

} // verus!
