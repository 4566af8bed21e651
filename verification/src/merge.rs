//! The merge engine: a recursive, default-biased JSON merge.
//!
//! `merge_json(default, user)` keeps the default object's structure and lets
//! the user's values win on conflicts: when both sides are objects they merge
//! key by key — a key only in the default keeps its default value, a key only
//! in the user is appended — and in every other combination the user's value
//! wins outright. Arrays are atomic. This is the schema-migration mechanism:
//! a field added to the default is backfilled into every previously persisted
//! file, and stale user keys survive the merge until a strict decode drops
//! them.

use vstd::prelude::*;
use crate::json::Json;
use crate::json::JsonData;
use crate::json::has_key;
use crate::json::keys_unique;
use crate::json::lemma_lookup_at_first_index;
use crate::json::lemma_lookup_index;
use crate::json::objs_unique;
use crate::json::json_clone;
use crate::json::lemma_view_obj;
use crate::json::lookup;
use crate::json::lookup_entry;
use crate::json::view_obj;

verus! {

/// The merged entries of the default object: every default entry, in order,
/// its value merged with the user's when the user object also has the key.
pub open spec fn merge_into_defaults(
    dm: Seq<(Seq<char>, JsonData)>,
    um: Seq<(Seq<char>, JsonData)>,
) -> Seq<(Seq<char>, JsonData)>
    decreases dm,
{
    if dm.len() == 0 {
        Seq::empty()
    } else {
        let head = if has_key(um, dm[0].0) {
            (dm[0].0, spec_merge(dm[0].1, lookup(um, dm[0].0)->Some_0))
        } else {
            dm[0]
        };
        seq![head] + merge_into_defaults(dm.subrange(1, dm.len() as int), um)
    }
}

/// The user entries whose keys the default object does not have, in order.
pub open spec fn user_only_entries(
    dm: Seq<(Seq<char>, JsonData)>,
    um: Seq<(Seq<char>, JsonData)>,
) -> Seq<(Seq<char>, JsonData)>
    decreases um,
{
    if um.len() == 0 {
        Seq::empty()
    } else {
        let rest = user_only_entries(dm, um.drop_last());
        if has_key(dm, um.last().0) {
            rest
        } else {
            rest.push(um.last())
        }
    }
}

/// The default-biased merge of two JSON documents: two objects merge key by
/// key, the union of their keys; in every other combination the user's value
/// replaces the default's.
pub open spec fn spec_merge(d: JsonData, u: JsonData) -> JsonData
    decreases d,
{
    match (d, u) {
        (JsonData::Obj(dm), JsonData::Obj(um)) => JsonData::Obj(
            merge_into_defaults(dm, um) + user_only_entries(dm, um),
        ),
        (_, _) => u,
    }
}

/// `merge_into_defaults`, entry by entry.
pub proof fn lemma_merge_into_defaults(
    dm: Seq<(Seq<char>, JsonData)>,
    um: Seq<(Seq<char>, JsonData)>,
)
    ensures
        merge_into_defaults(dm, um).len() == dm.len(),
        forall|i: int|
            0 <= i < dm.len() ==> #[trigger] merge_into_defaults(dm, um)[i] == (if has_key(
                um,
                dm[i].0,
            ) {
                (dm[i].0, spec_merge(dm[i].1, lookup(um, dm[i].0)->Some_0))
            } else {
                dm[i]
            }),
    decreases dm,
{
    reveal_with_fuel(merge_into_defaults, 2);
    if dm.len() > 0 {
        let rest = dm.subrange(1, dm.len() as int);
        lemma_merge_into_defaults(rest, um);
        assert forall|i: int|
            0 <= i < dm.len() implies #[trigger] merge_into_defaults(dm, um)[i] == (if has_key(
            um,
            dm[i].0,
        ) {
            (dm[i].0, spec_merge(dm[i].1, lookup(um, dm[i].0)->Some_0))
        } else {
            dm[i]
        }) by {
            if i > 0 {
                assert(rest[i - 1] == dm[i]);
                assert(merge_into_defaults(dm, um)[i] == merge_into_defaults(rest, um)[i - 1]);
            }
        }
    }
}

/// Appending a user entry extends the user-only entries exactly when the
/// default object lacks its key.
pub proof fn lemma_user_only_push(
    dm: Seq<(Seq<char>, JsonData)>,
    um: Seq<(Seq<char>, JsonData)>,
    e: (Seq<char>, JsonData),
)
    ensures
        user_only_entries(dm, um.push(e)) == if has_key(dm, e.0) {
            user_only_entries(dm, um)
        } else {
            user_only_entries(dm, um).push(e)
        },
{
    assert(um.push(e).drop_last() =~= um);
    assert(um.push(e).last() == e);
}

/// The recursive default-biased merge of two JSON documents: `user`'s values
/// win on conflicts, `default`'s structure survives. Pure and total.
pub fn merge_json(default: &Json, user: &Json) -> (r: Json)
    ensures
        r@ == spec_merge(default@, user@),
    decreases *default,
{
    match (default, user) {
        (Json::Obj(dm), Json::Obj(um)) => {
            proof {
                lemma_view_obj(dm@);
                lemma_view_obj(um@);
                lemma_merge_into_defaults(view_obj(dm@), view_obj(um@));
            }
            let ghost dv = view_obj(dm@);
            let ghost uv = view_obj(um@);
            let mut out: Vec<(String, Json)> = Vec::new();
            let mut i: usize = 0;
            while i < dm.len()
                invariant
                    i <= dm@.len(),
                    out@.len() == i,
                    *default == Json::Obj(*dm),
                    *user == Json::Obj(*um),
                    dv == view_obj(dm@),
                    uv == view_obj(um@),
                    forall|k: int|
                        0 <= k < i ==> (#[trigger] out@[k].0@, out@[k].1@) == merge_into_defaults(
                            dv,
                            uv,
                        )[k],
                decreases dm@.len() - i,
            {
                proof {
                    lemma_view_obj(dm@);
                    lemma_view_obj(um@);
                    lemma_merge_into_defaults(dv, uv);
                }
                let key = dm[i].0.clone();
                match lookup_entry(um, &key) {
                    Some(user_val) => {
                        proof {
                            assert(decreases_to!(*default => (*default)->Obj_0));
                            assert((*default)->Obj_0 == *dm);
                            assert(decreases_to!(*dm => dm@));
                            assert(decreases_to!(dm@ => dm@[i as int]));
                            assert(decreases_to!(dm@[i as int] => dm@[i as int].1));
                        }
                        let merged = merge_json(&dm[i].1, user_val);
                        out.push((key, merged));
                    },
                    None => {
                        let copied = json_clone(&dm[i].1);
                        out.push((key, copied));
                    },
                }
                i = i + 1;
            }
            let mut j: usize = 0;
            let ghost mid = merge_into_defaults(dv, uv);
            while j < um.len()
                invariant
                    j <= um@.len(),
                    *default == Json::Obj(*dm),
                    *user == Json::Obj(*um),
                    dv == view_obj(dm@),
                    uv == view_obj(um@),
                    mid == merge_into_defaults(dv, uv),
                    out@.len() == dm@.len() + user_only_entries(dv, uv.take(j as int)).len(),
                    forall|k: int|
                        0 <= k < dm@.len() ==> (#[trigger] out@[k].0@, out@[k].1@) == mid[k],
                    forall|k: int|
                        dm@.len() <= k < out@.len() ==> (#[trigger] out@[k].0@, out@[k].1@)
                            == user_only_entries(dv, uv.take(j as int))[k - dm@.len()],
                decreases um@.len() - j,
            {
                proof {
                    lemma_view_obj(dm@);
                    lemma_view_obj(um@);
                    assert(uv.take(j + 1) =~= uv.take(j as int).push(uv[j as int]));
                    lemma_user_only_push(dv, uv.take(j as int), uv[j as int]);
                }
                let key = um[j].0.clone();
                if lookup_entry(dm, &key).is_none() {
                    let copied = json_clone(&um[j].1);
                    out.push((key, copied));
                }
                j = j + 1;
            }
            proof {
                lemma_view_obj(out@);
                assert(uv.take(um@.len() as int) =~= uv);
                lemma_merge_into_defaults(dv, uv);
                assert(view_obj(out@) =~= merge_into_defaults(dv, uv) + user_only_entries(
                    dv,
                    uv,
                ));
            }
            Json::Obj(out)
        },
        (_, _) => json_clone(user),
    }
}


/// `lookup` on an appended entry: the entry is found only when its key is
/// absent from the rest.
pub proof fn lemma_lookup_push(
    s: Seq<(Seq<char>, JsonData)>,
    e: (Seq<char>, JsonData),
    key: Seq<char>,
)
    ensures
        lookup(s.push(e), key) == match lookup(s, key) {
            Some(v) => Some(v),
            None => if e.0 == key {
                Some(e.1)
            } else {
                None
            },
        },
    decreases s.len(),
{
    reveal_with_fuel(lookup, 2);
    if s.len() == 0 {
        assert(s.push(e)[0] == e);
        assert(s.push(e).len() == 1);
        if e.0 != key {
            assert(s.push(e).subrange(1, 1) =~= Seq::<(Seq<char>, JsonData)>::empty());
        }
    } else {
        assert(s.push(e)[0] == s[0]);
        if s[0].0 != key {
            assert(s.push(e).subrange(1, s.push(e).len() as int) =~= s.subrange(
                1,
                s.len() as int,
            ).push(e));
            lemma_lookup_push(s.subrange(1, s.len() as int), e, key);
        }
    }
}

/// `lookup` on a concatenation: the left side is consulted first.
pub proof fn lemma_lookup_add(
    a: Seq<(Seq<char>, JsonData)>,
    b: Seq<(Seq<char>, JsonData)>,
    key: Seq<char>,
)
    ensures
        lookup(a + b, key) == if has_key(a, key) {
            lookup(a, key)
        } else {
            lookup(b, key)
        },
    decreases a.len(),
{
    reveal_with_fuel(lookup, 2);
    if a.len() == 0 {
        assert(a + b =~= b);
    } else {
        assert((a + b)[0] == a[0]);
        if a[0].0 != key {
            assert((a + b).subrange(1, (a + b).len() as int) =~= a.subrange(
                1,
                a.len() as int,
            ) + b);
            lemma_lookup_add(a.subrange(1, a.len() as int), b, key);
        }
    }
}

/// `lookup` among the merged default entries: every default key, its value
/// merged with the user's where the user has the key too.
pub proof fn lemma_lookup_merge_into_defaults(
    dm: Seq<(Seq<char>, JsonData)>,
    um: Seq<(Seq<char>, JsonData)>,
    key: Seq<char>,
)
    ensures
        lookup(merge_into_defaults(dm, um), key) == match lookup(dm, key) {
            Some(dval) => Some(
                if has_key(um, key) {
                    spec_merge(dval, lookup(um, key)->Some_0)
                } else {
                    dval
                },
            ),
            None => None::<JsonData>,
        },
    decreases dm.len(),
{
    reveal_with_fuel(lookup, 2);
    reveal_with_fuel(merge_into_defaults, 2);
    if dm.len() > 0 {
        let rest = dm.subrange(1, dm.len() as int);
        let mid = merge_into_defaults(dm, um);
        assert(mid[0] == (if has_key(um, dm[0].0) {
            (dm[0].0, spec_merge(dm[0].1, lookup(um, dm[0].0)->Some_0))
        } else {
            dm[0]
        }));
        if dm[0].0 != key {
            assert(mid.subrange(1, mid.len() as int) =~= merge_into_defaults(rest, um));
            lemma_lookup_merge_into_defaults(rest, um, key);
        }
    }
}

/// `lookup` among the user-only entries: exactly the user's values under keys
/// the default lacks.
pub proof fn lemma_lookup_user_only(
    dm: Seq<(Seq<char>, JsonData)>,
    um: Seq<(Seq<char>, JsonData)>,
    key: Seq<char>,
)
    ensures
        lookup(user_only_entries(dm, um), key) == if has_key(dm, key) {
            None::<JsonData>
        } else {
            lookup(um, key)
        },
    decreases um.len(),
{
    if um.len() > 0 {
        let front = um.drop_last();
        let last = um.last();
        lemma_lookup_user_only(dm, front, key);
        assert(front.push(last) =~= um);
        lemma_lookup_push(front, last, key);
        if !has_key(dm, last.0) {
            lemma_lookup_push(user_only_entries(dm, front), last, key);
        }
    }
}

/// What the merge of two objects holds under each key: the merge of the two
/// values where both have the key, the one value where only one has it.
pub proof fn lemma_merge_obj_lookup(
    dm: Seq<(Seq<char>, JsonData)>,
    um: Seq<(Seq<char>, JsonData)>,
    key: Seq<char>,
)
    ensures
        lookup(spec_merge(JsonData::Obj(dm), JsonData::Obj(um))->Obj_0, key) == match (
            lookup(dm, key),
            lookup(um, key),
        ) {
            (Some(dval), Some(uval)) => Some(spec_merge(dval, uval)),
            (Some(dval), None) => Some(dval),
            (None, o) => o,
        },
{
    lemma_lookup_merge_into_defaults(dm, um, key);
    lemma_lookup_user_only(dm, um, key);
    lemma_lookup_add(merge_into_defaults(dm, um), user_only_entries(dm, um), key);
}


/// Every user entry whose key the default has is dropped from the user-only
/// entries; none are left when the default has them all.
pub proof fn lemma_user_only_all_present(
    dm: Seq<(Seq<char>, JsonData)>,
    um: Seq<(Seq<char>, JsonData)>,
)
    requires
        forall|i: int| 0 <= i < um.len() ==> has_key(dm, #[trigger] um[i].0),
    ensures
        user_only_entries(dm, um) == Seq::<(Seq<char>, JsonData)>::empty(),
    decreases um.len(),
{
    if um.len() > 0 {
        let front = um.drop_last();
        assert(forall|i: int| 0 <= i < front.len() ==> front[i] == um[i]);
        lemma_user_only_all_present(dm, front);
        assert(has_key(dm, um[um.len() - 1].0));
    }
}

/// When the default has none of the user's keys, the user-only entries are
/// the user's entries themselves.
pub proof fn lemma_user_only_none_present(
    dm: Seq<(Seq<char>, JsonData)>,
    um: Seq<(Seq<char>, JsonData)>,
)
    requires
        forall|i: int| 0 <= i < um.len() ==> !has_key(dm, #[trigger] um[i].0),
    ensures
        user_only_entries(dm, um) == um,
    decreases um.len(),
{
    if um.len() > 0 {
        let front = um.drop_last();
        assert(forall|i: int| 0 <= i < front.len() ==> front[i] == um[i]);
        lemma_user_only_none_present(dm, front);
        assert(!has_key(dm, um[um.len() - 1].0));
        assert(front.push(um.last()) =~= um);
    }
}

/// The user-only entries distribute over concatenation.
pub proof fn lemma_user_only_add(
    dm: Seq<(Seq<char>, JsonData)>,
    a: Seq<(Seq<char>, JsonData)>,
    b: Seq<(Seq<char>, JsonData)>,
)
    ensures
        user_only_entries(dm, a + b) == user_only_entries(dm, a) + user_only_entries(dm, b),
    decreases b.len(),
{
    if b.len() == 0 {
        assert(a + b =~= a);
        assert(user_only_entries(dm, a) + user_only_entries(dm, b) =~= user_only_entries(dm, a));
    } else {
        assert((a + b).drop_last() =~= a + b.drop_last());
        assert((a + b).last() == b.last());
        lemma_user_only_add(dm, a, b.drop_last());
        assert((user_only_entries(dm, a) + user_only_entries(dm, b.drop_last())).push(b.last())
            =~= user_only_entries(dm, a) + user_only_entries(dm, b.drop_last()).push(b.last()));
    }
}

/// Merging a well-formed document with itself changes nothing.
pub proof fn lemma_merge_self(x: JsonData)
    requires
        objs_unique(x),
    ensures
        spec_merge(x, x) == x,
    decreases x,
{
    match x {
        JsonData::Obj(es) => {
            lemma_merge_into_defaults(es, es);
            assert forall|i: int| 0 <= i < es.len() implies has_key(es, #[trigger] es[i].0) by {
                lemma_lookup_index(es, es[i].0);
            }
            lemma_user_only_all_present(es, es);
            assert forall|i: int|
                0 <= i < es.len() implies merge_into_defaults(es, es)[i] == es[i] by {
                lemma_lookup_at_first_index(es, es[i].0, i);
                assert(decreases_to!(es => es[i]));
                assert(decreases_to!(es[i] => es[i].1));
                lemma_merge_self(es[i].1);
                assert(es[i] == (es[i].0, es[i].1));
            }
            assert(merge_into_defaults(es, es) + user_only_entries(es, es) =~= es);
        },
        _ => {},
    }
}

/// Merge idempotence: merging the merged document into the same default once
/// more changes nothing — `merge(d, merge(d, u)) == merge(d, u)`.
pub proof fn lemma_merge_idempotent(d: JsonData, u: JsonData)
    requires
        objs_unique(d),
        objs_unique(u),
    ensures
        spec_merge(d, spec_merge(d, u)) == spec_merge(d, u),
    decreases d,
{
    if d is Obj && u is Obj {
        let dm = d->Obj_0;
        let um = u->Obj_0;
        let mid = merge_into_defaults(dm, um);
        let uo = user_only_entries(dm, um);
        let mm = mid + uo;
        lemma_merge_into_defaults(dm, um);
        lemma_merge_into_defaults(dm, mm);
        assert forall|i: int|
            0 <= i < dm.len() implies merge_into_defaults(dm, mm)[i] == merge_into_defaults(
            dm,
            um,
        )[i] by {
            let k = dm[i].0;
            assert(forall|j: int| 0 <= j < i ==> dm[j].0 != k);
            lemma_lookup_at_first_index(dm, k, i);
            lemma_merge_obj_lookup(dm, um, k);
            if has_key(um, k) {
                let uval = lookup(um, k)->Some_0;
                lemma_lookup_index(um, k);
                assert(objs_unique(uval));
                assert(decreases_to!(d => dm));
                assert(decreases_to!(dm => dm[i]));
                assert(decreases_to!(dm[i] => dm[i].1));
                lemma_merge_idempotent(dm[i].1, uval);
            } else {
                lemma_merge_self(dm[i].1);
            }
        }
        lemma_user_only_add(dm, mid, uo);
        assert forall|i: int| 0 <= i < mid.len() implies has_key(dm, #[trigger] mid[i].0) by {
            lemma_lookup_index(dm, dm[i].0);
        }
        lemma_user_only_all_present(dm, mid);
        assert forall|i: int| 0 <= i < uo.len() implies !has_key(dm, #[trigger] uo[i].0) by {
            lemma_lookup_user_only(dm, um, uo[i].0);
            lemma_lookup_index(uo, uo[i].0);
            if has_key(dm, uo[i].0) {
                assert(lookup(uo, uo[i].0) is None);
                assert(has_key(uo, uo[i].0));
            }
        }
        lemma_user_only_none_present(dm, uo);
        assert(user_only_entries(dm, mm) =~= uo);
        assert(merge_into_defaults(dm, mm) =~= merge_into_defaults(dm, um));
    }
}

/// The value at the end of a path of keys, each step through an object.
pub open spec fn walk(j: JsonData, path: Seq<Seq<char>>) -> Option<JsonData>
    decreases path.len(),
{
    if path.len() == 0 {
        Some(j)
    } else {
        match j {
            JsonData::Obj(entries) => match lookup(entries, path[0]) {
                Some(v) => walk(v, path.subrange(1, path.len() as int)),
                None => None,
            },
            _ => None,
        }
    }
}

/// The path reaches a value that only the default document has: its last key
/// is absent from the user document, and along the way the user document,
/// where it shares the keys at all, holds objects too.
pub open spec fn only_in_default(d: JsonData, u: JsonData, path: Seq<Seq<char>>) -> bool
    decreases path.len(),
{
    path.len() > 0 && d is Obj && u is Obj && match (
        lookup(d->Obj_0, path[0]),
        lookup(u->Obj_0, path[0]),
    ) {
        (Some(dval), None) => walk(dval, path.subrange(1, path.len() as int)) is Some,
        (Some(dval), Some(uval)) => path.len() > 1 && only_in_default(
            dval,
            uval,
            path.subrange(1, path.len() as int),
        ),
        (None, _) => false,
    }
}

/// Default preservation: a key present only in the default document, at any
/// depth, keeps its default value in the merged document.
pub proof fn lemma_merge_preserves_default_only(d: JsonData, u: JsonData, path: Seq<Seq<char>>)
    requires
        only_in_default(d, u, path),
    ensures
        walk(spec_merge(d, u), path) == walk(d, path),
    decreases path.len(),
{
    let dm = d->Obj_0;
    let um = u->Obj_0;
    let k = path[0];
    let rest = path.subrange(1, path.len() as int);
    lemma_merge_obj_lookup(dm, um, k);
    match (lookup(dm, k), lookup(um, k)) {
        (Some(dval), Some(uval)) => {
            lemma_merge_preserves_default_only(dval, uval, rest);
        },
        (_, _) => {},
    }
}

/// User override: a key present in both documents whose two values are not
/// both objects takes the user's value in the merge.
pub proof fn lemma_merge_user_override(d: JsonData, u: JsonData, key: Seq<char>)
    requires
        d is Obj,
        u is Obj,
        lookup(d->Obj_0, key) is Some,
        lookup(u->Obj_0, key) is Some,
        !(lookup(d->Obj_0, key)->Some_0 is Obj && lookup(u->Obj_0, key)->Some_0 is Obj),
    ensures
        lookup(spec_merge(d, u)->Obj_0, key) == lookup(u->Obj_0, key),
{
    lemma_merge_obj_lookup(d->Obj_0, u->Obj_0, key);
}

} // verus!

