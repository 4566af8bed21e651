//! The known-projects index: the persisted registry of every non-secret
//! configuration file ever loaded, with last-access timestamps.
//!
//! The index is itself a persistable state, saved under a fixed, reserved
//! key; it is marked secret, so loading or saving it never re-enters the
//! tracking step that it implements.

use vstd::prelude::*;
use vstd::string::StringExecFns;
use crate::clock::is_rfc3339;
use crate::clock::now_rfc3339;
use crate::clock::spec_is_rfc3339;
use crate::json::Json;
use crate::json::JsonData;
use crate::json::canonical;
use crate::json::depth;
use crate::json::lemma_depth_entries_bound;
use crate::json::lemma_depth_items_bound;
use crate::json::keys_unique;
use crate::json::lookup;
use crate::json::lookup_entry;
use crate::json::nums_canonical;
use crate::json::objs_unique;
use crate::json::view_arr;
use crate::json::view_obj;
use crate::json::lemma_view_arr;
use crate::json::lemma_view_obj;
use crate::persistable_state::PersistableState;
use crate::persistence_key::KeyData;
use crate::persistence_key::PersistenceKey;
use crate::persistence_key::lemma_key_json_depth;
use crate::persistence_key::lemma_key_roundtrip;
use crate::persistence_key::spec_key_from_json;
use crate::persistence_key::spec_key_to_json;

verus! {

/// The mathematical content of one index entry.
pub struct EntryData {
    pub key: KeyData,
    pub last_accessed: Seq<char>,
}

/// One record of the index: a configuration file's key and when it was last
/// accessed, as an RFC 3339 timestamp with the local offset.
#[derive(Debug, PartialEq)]
pub struct KnownProjectEntry {
    pub key: PersistenceKey,
    pub last_accessed: String,
}

impl View for KnownProjectEntry {
    type V = EntryData;

    open spec fn view(&self) -> EntryData {
        EntryData { key: self.key@, last_accessed: self.last_accessed@ }
    }
}

impl KnownProjectEntry {
    /// A copy of the entry.
    pub fn clone_entry(&self) -> (e: Self)
        ensures
            e@ == self@,
    {
        KnownProjectEntry {
            key: self.key.clone_key(),
            last_accessed: self.last_accessed.clone(),
        }
    }
}

/// The registry itself: entries in insertion/update order, at most one per
/// distinct key.
#[derive(Debug, PartialEq)]
pub struct KnownProjects {
    pub entries: Vec<KnownProjectEntry>,
}

/// The views of a sequence of entries.
pub open spec fn view_entries(s: Seq<KnownProjectEntry>) -> Seq<EntryData>
    decreases s,
{
    if s.len() == 0 {
        Seq::empty()
    } else {
        seq![s[0]@] + view_entries(s.subrange(1, s.len() as int))
    }
}

/// `view_entries` maps the view over the entries.
pub proof fn lemma_view_entries(s: Seq<KnownProjectEntry>)
    ensures
        view_entries(s).len() == s.len(),
        forall|i: int| 0 <= i < s.len() ==> view_entries(s)[i] == s[i]@,
    decreases s,
{
    reveal_with_fuel(view_entries, 2);
    if s.len() > 0 {
        let rest = s.subrange(1, s.len() as int);
        lemma_view_entries(rest);
        assert forall|i: int| 0 <= i < s.len() implies view_entries(s)[i] == s[i]@ by {
            if i > 0 {
                assert(rest[i - 1] == s[i]);
                assert(view_entries(s)[i] == view_entries(rest)[i - 1]);
            }
        }
    }
}

impl View for KnownProjects {
    type V = Seq<EntryData>;

    open spec fn view(&self) -> Seq<EntryData> {
        view_entries(self.entries@)
    }
}

/// The JSON document of one entry.
pub open spec fn spec_entry_to_json(e: EntryData) -> JsonData {
    JsonData::Obj(
        seq![
            ("key"@, spec_key_to_json(e.key)),
            ("last_accessed"@, JsonData::Str(e.last_accessed)),
        ],
    )
}

/// The strict decode of one entry: the key's document under `key`, a valid
/// timestamp text under `last_accessed`; unknown keys are ignored.
pub open spec fn spec_entry_from_json(j: JsonData) -> Option<EntryData> {
    match j {
        JsonData::Obj(fields) => match (lookup(fields, "key"@), lookup(fields, "last_accessed"@)) {
            (Some(kj), Some(JsonData::Str(ts))) => match spec_key_from_json(kj) {
                Some(k) => if spec_is_rfc3339(ts) {
                    Some(EntryData { key: k, last_accessed: ts })
                } else {
                    None
                },
                None => None,
            },
            (_, _) => None,
        },
        _ => None,
    }
}

/// The strict decode of an entry list: all or nothing.
pub open spec fn spec_entries_from_json(items: Seq<JsonData>) -> Option<Seq<EntryData>>
    decreases items.len(),
{
    if items.len() == 0 {
        Some(Seq::empty())
    } else {
        match (spec_entry_from_json(items[0]), spec_entries_from_json(
            items.subrange(1, items.len() as int),
        )) {
            (Some(e), Some(rest)) => Some(seq![e] + rest),
            (_, _) => None,
        }
    }
}

/// The entry list decodes exactly when every element does, element by
/// element.
pub proof fn lemma_entries_from_json(items: Seq<JsonData>)
    ensures
        (spec_entries_from_json(items) is Some) <==> (forall|i: int|
            0 <= i < items.len() ==> spec_entry_from_json(#[trigger] items[i]) is Some),
        spec_entries_from_json(items) matches Some(es) ==> es.len() == items.len() && forall|
            i: int,
        |
            0 <= i < items.len() ==> Some(#[trigger] es[i]) == spec_entry_from_json(items[i]),
    decreases items.len(),
{
    reveal_with_fuel(spec_entries_from_json, 2);
    if items.len() > 0 {
        let rest = items.subrange(1, items.len() as int);
        lemma_entries_from_json(rest);
        assert(forall|i: int| 0 <= i < rest.len() ==> #[trigger] rest[i] == items[i + 1]);
        if forall|i: int| 0 <= i < items.len() ==> spec_entry_from_json(#[trigger] items[i])
            is Some {
            assert forall|i: int|
                0 <= i < rest.len() implies spec_entry_from_json(#[trigger] rest[i]) is Some by {
                assert(rest[i] == items[i + 1]);
            }
            assert(spec_entries_from_json(rest) is Some);
            assert(spec_entries_from_json(items) is Some);
        }
        if spec_entries_from_json(items) is Some {
            assert(spec_entry_from_json(items[0]) is Some);
            assert(spec_entries_from_json(rest) is Some);
            assert forall|i: int|
                0 <= i < items.len() implies spec_entry_from_json(#[trigger] items[i])
                is Some by {
                if i > 0 {
                    assert(spec_entry_from_json(rest[i - 1]) is Some);
                    assert(rest[i - 1] == items[i]);
                }
            }
            let es = spec_entries_from_json(items)->Some_0;
            let er = spec_entries_from_json(rest)->Some_0;
            assert forall|i: int|
                0 <= i < items.len() implies Some(#[trigger] es[i]) == spec_entry_from_json(
                items[i],
            ) by {
                if i > 0 {
                    assert(es[i] == er[i - 1]);
                    assert(rest[i - 1] == items[i]);
                }
            }
        }
    }
}

/// The JSON document of the whole index: one field holding the entry list.
pub open spec fn spec_index_to_json(m: Seq<EntryData>) -> JsonData {
    JsonData::Obj(
        seq![
            ("entries"@, JsonData::Arr(Seq::new(m.len(), |i: int| spec_entry_to_json(m[i])))),
        ],
    )
}

/// The strict decode of the whole index.
pub open spec fn spec_index_from_json(j: JsonData) -> Option<Seq<EntryData>> {
    match j {
        JsonData::Obj(fields) => match lookup(fields, "entries"@) {
            Some(JsonData::Arr(items)) => spec_entries_from_json(items),
            _ => None,
        },
        _ => None,
    }
}

/// Every timestamp in the index is a valid RFC 3339 text: what the decode
/// produces and the encode relies on.
pub open spec fn index_wf(m: Seq<EntryData>) -> bool {
    forall|i: int| 0 <= i < m.len() ==> spec_is_rfc3339(#[trigger] m[i].last_accessed)
}

/// An entry's document is two levels deep: an object holding the key's
/// document and a string.
pub proof fn lemma_entry_json_depth(e: EntryData)
    ensures
        depth(spec_entry_to_json(e)) <= 2,
{
    lemma_key_json_depth(e.key);
    let fields = spec_entry_to_json(e)->Obj_0;
    assert(depth(fields[0].1) <= 1);
    assert(depth(fields[1].1) == 0);
    lemma_depth_entries_bound(fields, 1);
}

/// Decoding what one entry encodes yields the entry back.
pub proof fn lemma_entry_roundtrip(e: EntryData)
    requires
        spec_is_rfc3339(e.last_accessed),
    ensures
        spec_entry_from_json(spec_entry_to_json(e)) == Some(e),
{
    reveal_with_fuel(lookup, 3);
    let fields = spec_entry_to_json(e)->Obj_0;
    reveal_strlit("key");
    reveal_strlit("last_accessed");
    assert("key"@.len() == 3 && "last_accessed"@.len() == 13);
    assert(fields[0].0 != "last_accessed"@);
    assert(lookup(fields, "key"@) == Some(spec_key_to_json(e.key)));
    assert(fields.subrange(1, 2)[0] == fields[1]);
    assert(fields.subrange(1, 2).len() == 1);
    assert(lookup(fields, "last_accessed"@) == Some(JsonData::Str(e.last_accessed)));
    lemma_key_roundtrip(e.key);
}

/// Encodes one entry, canonically and two levels deep.
fn entry_to_json(e: &KnownProjectEntry) -> (j: Json)
    ensures
        j@ == spec_entry_to_json(e@),
        canonical(j@),
        depth(j@) <= 2,
{
    let kj = e.key.to_json();
    let ghost kcanon = kj@;
    let mut fields: Vec<(String, Json)> = Vec::new();
    fields.push((String::from_str("key"), kj));
    fields.push((String::from_str("last_accessed"), Json::Str(e.last_accessed.clone())));
    let j = Json::Obj(fields);
    proof {
        lemma_view_obj(j->Obj_0@);
        assert(j@->Obj_0 =~= spec_entry_to_json(e@)->Obj_0);
        reveal_strlit("key");
        reveal_strlit("last_accessed");
        assert("key"@.len() == 3 && "last_accessed"@.len() == 13);
        let es = j@->Obj_0;
        assert(keys_unique(es));
        assert(objs_unique(j@)) by {
            assert(forall|i: int| 0 <= i < es.len() ==> objs_unique(#[trigger] es[i].1));
        }
        assert(nums_canonical(j@)) by {
            assert(forall|i: int| 0 <= i < es.len() ==> nums_canonical(#[trigger] es[i].1));
        }
        lemma_entry_json_depth(e@);
    }
    j
}

/// Decodes one entry strictly, validating the timestamp.
fn entry_from_json(j: &Json) -> (r: Option<KnownProjectEntry>)
    ensures
        match r {
            Some(e) => spec_entry_from_json(j@) == Some(e@) && spec_is_rfc3339(e@.last_accessed),
            None => spec_entry_from_json(j@) is None,
        },
{
    match j {
        Json::Obj(fields) => {
            let kj = lookup_entry(fields, &String::from_str("key"));
            let ts = lookup_entry(fields, &String::from_str("last_accessed"));
            match (kj, ts) {
                (Some(kv), Some(Json::Str(t))) => match PersistenceKey::from_json(kv) {
                    Some(k) => if is_rfc3339(t.as_str()) {
                        Some(KnownProjectEntry { key: k, last_accessed: t.clone() })
                    } else {
                        None
                    },
                    None => None,
                },
                (_, _) => None,
            }
        },
        _ => None,
    }
}

impl PersistableState for KnownProjects {
    /// The fixed, reserved key the index persists under.
    open spec fn spec_key() -> KeyData {
        KeyData { project_name: "eye-config"@, file_slug: "known-projects.json"@ }
    }

    fn key() -> (k: PersistenceKey) {
        PersistenceKey::new(
            String::from_str("eye-config"),
            String::from_str("known-projects.json"),
        )
    }

    /// The index is secret: it never tracks itself.
    open spec fn spec_is_secret() -> bool {
        true
    }

    fn is_secret() -> (b: bool) {
        true
    }

    open spec fn spec_wf(m: Seq<EntryData>) -> bool {
        index_wf(m)
    }

    open spec fn spec_default() -> Seq<EntryData> {
        Seq::empty()
    }

    fn default_value() -> (v: Self) {
        KnownProjects { entries: Vec::new() }
    }

    open spec fn spec_to_json(m: Seq<EntryData>) -> JsonData {
        spec_index_to_json(m)
    }

    fn to_json(&self) -> (j: Json) {
        proof {
            lemma_view_entries(self.entries@);
        }
        let mut items: Vec<Json> = Vec::new();
        let mut i: usize = 0;
        while i < self.entries.len()
            invariant
                i <= self.entries@.len(),
                items@.len() == i,
                forall|k: int|
                    0 <= k < i ==> (#[trigger] items@[k])@ == spec_entry_to_json(
                        view_entries(self.entries@)[k],
                    ) && canonical(items@[k]@),
                view_entries(self.entries@).len() == self.entries@.len(),
                forall|k: int|
                    0 <= k < self.entries@.len() ==> #[trigger] view_entries(self.entries@)[k]
                        == self.entries@[k]@,
            decreases self.entries@.len() - i,
        {
            let ej = entry_to_json(&self.entries[i]);
            items.push(ej);
            i = i + 1;
        }
        let arr = Json::Arr(items);
        let mut fields: Vec<(String, Json)> = Vec::new();
        fields.push((String::from_str("entries"), arr));
        let j = Json::Obj(fields);
        proof {
            lemma_view_arr(j->Obj_0@[0].1->Arr_0@);
            lemma_view_obj(j->Obj_0@);
            let m = self@;
            assert(j@->Obj_0[0].1->Arr_0 =~= Seq::new(m.len(), |k: int| spec_entry_to_json(m[k])));
            assert(j@->Obj_0 =~= spec_index_to_json(m)->Obj_0);
            let es = j@->Obj_0;
            assert(keys_unique(es));
            let arr_view = es[0].1;
            assert(objs_unique(arr_view)) by {
                assert(forall|k: int|
                    0 <= k < arr_view->Arr_0.len() ==> objs_unique(#[trigger] arr_view->Arr_0[k]));
            }
            assert(nums_canonical(arr_view)) by {
                assert(forall|k: int|
                    0 <= k < arr_view->Arr_0.len() ==> nums_canonical(
                        #[trigger] arr_view->Arr_0[k],
                    ));
            }
            assert(objs_unique(j@)) by {
                assert(forall|k: int| 0 <= k < es.len() ==> objs_unique(#[trigger] es[k].1));
            }
            assert(nums_canonical(j@)) by {
                assert(forall|k: int| 0 <= k < es.len() ==> nums_canonical(#[trigger] es[k].1));
            }
            assert forall|k: int|
                0 <= k < arr_view->Arr_0.len() implies depth(
                #[trigger] arr_view->Arr_0[k],
            ) <= 2 by {
                assert(arr_view->Arr_0[k] == spec_entry_to_json(m[k]));
                lemma_entry_json_depth(m[k]);
            }
            lemma_depth_items_bound(arr_view->Arr_0, 2);
            assert(depth(arr_view) <= 3);
            assert(depth(es[0].1) <= 3);
            lemma_depth_entries_bound(es, 3);
            assert(depth(j@) <= 4);
        }
        j
    }

    open spec fn spec_from_json(j: JsonData) -> Option<Seq<EntryData>> {
        spec_index_from_json(j)
    }

    fn from_json(j: &Json) -> (r: Option<Self>) {
        match j {
            Json::Obj(fields) => match lookup_entry(fields, &String::from_str("entries")) {
                Some(Json::Arr(items)) => {
                    proof {
                        lemma_view_arr(items@);
                        lemma_entries_from_json(view_arr(items@));
                    }
                    let mut out: Vec<KnownProjectEntry> = Vec::new();
                    let mut i: usize = 0;
                    while i < items.len()
                        invariant
                            i <= items@.len(),
                            out@.len() == i,
                            j@ == JsonData::Obj(view_obj(fields@)),
                            lookup(view_obj(fields@), "entries"@) == Some(
                                JsonData::Arr(view_arr(items@)),
                            ),
                            view_arr(items@).len() == items@.len(),
                            forall|k: int|
                                0 <= k < items@.len() ==> #[trigger] view_arr(items@)[k]
                                    == items@[k]@,
                            forall|k: int|
                                0 <= k < i ==> spec_entry_from_json(view_arr(items@)[k]) == Some(
                                    (#[trigger] out@[k])@,
                                ) && spec_is_rfc3339(out@[k]@.last_accessed),
                        decreases items@.len() - i,
                    {
                        match entry_from_json(&items[i]) {
                            Some(e) => {
                                out.push(e);
                            },
                            None => {
                                proof {
                                    lemma_entries_from_json(view_arr(items@));
                                    assert(spec_entry_from_json(
                                        view_arr(items@)[i as int],
                                    ) is None);
                                    assert(!(spec_entries_from_json(view_arr(items@)) is Some));
                                }
                                return None;
                            },
                        }
                        i = i + 1;
                    }
                    proof {
                        lemma_entries_from_json(view_arr(items@));
                        assert forall|k: int|
                            0 <= k < items@.len() implies spec_entry_from_json(
                            #[trigger] view_arr(items@)[k],
                        ) is Some by {
                            assert(spec_entry_from_json(view_arr(items@)[k]) == Some(out@[k]@));
                        }
                        assert(spec_entries_from_json(view_arr(items@)) is Some);
                        lemma_view_entries(out@);
                        let es = spec_entries_from_json(view_arr(items@))->Some_0;
                        assert forall|k: int|
                            0 <= k < out@.len() implies view_entries(out@)[k] == #[trigger] es[k] by {
                            assert(Some(es[k]) == spec_entry_from_json(view_arr(items@)[k]));
                            assert(spec_entry_from_json(view_arr(items@)[k]) == Some(out@[k]@));
                        }
                        assert(view_entries(out@) =~= es);
                        assert forall|k: int|
                            0 <= k < view_entries(out@).len() implies spec_is_rfc3339(
                            (#[trigger] view_entries(out@)[k]).last_accessed,
                        ) by {
                            assert(view_entries(out@)[k] == out@[k]@);
                        }
                    }
                    Some(KnownProjects { entries: out })
                },
                _ => None,
            },
            _ => None,
        }
    }

    /// Decoding what the index encodes yields the index back.
    proof fn lemma_json_roundtrip(m: Seq<EntryData>) {
        reveal_with_fuel(lookup, 2);
        let fields = spec_index_to_json(m)->Obj_0;
        reveal_strlit("entries");
        assert(lookup(fields, "entries"@) == Some(fields[0].1));
        let items = Seq::new(m.len(), |i: int| spec_entry_to_json(m[i]));
        assert forall|i: int|
            0 <= i < items.len() implies spec_entry_from_json(#[trigger] items[i]) == Some(
            m[i],
        ) by {
            lemma_entry_roundtrip(m[i]);
        }
        lemma_entries_from_json(items);
        let es = spec_entries_from_json(items)->Some_0;
        assert(es =~= m);
    }
}


/// One access recorded: the first entry with the key gets the new timestamp,
/// any other entry is untouched; a key not yet present is appended at the
/// end.
pub open spec fn spec_track(m: Seq<EntryData>, k: KeyData, now: Seq<char>) -> Seq<EntryData>
    decreases m.len(),
{
    if m.len() == 0 {
        seq![EntryData { key: k, last_accessed: now }]
    } else if m[0].key == k {
        seq![EntryData { key: k, last_accessed: now }] + m.subrange(1, m.len() as int)
    } else {
        seq![m[0]] + spec_track(m.subrange(1, m.len() as int), k, now)
    }
}

/// When the key is present, tracking updates its first entry in place.
pub proof fn lemma_track_found(m: Seq<EntryData>, k: KeyData, now: Seq<char>, i: int)
    requires
        0 <= i < m.len(),
        m[i].key == k,
        forall|j: int| 0 <= j < i ==> m[j].key != k,
    ensures
        spec_track(m, k, now) == m.update(i, EntryData { key: k, last_accessed: now }),
    decreases m.len(),
{
    reveal_with_fuel(spec_track, 2);
    let e = EntryData { key: k, last_accessed: now };
    if i == 0 {
        assert(seq![e] + m.subrange(1, m.len() as int) =~= m.update(0, e));
    } else {
        let rest = m.subrange(1, m.len() as int);
        assert(forall|j: int| 0 <= j < rest.len() ==> #[trigger] rest[j] == m[j + 1]);
        assert forall|j: int| 0 <= j < i - 1 implies rest[j].key != k by {
            assert(rest[j] == m[j + 1]);
        }
        assert(rest[i - 1] == m[i]);
        lemma_track_found(rest, k, now, i - 1);
        assert(seq![m[0]] + rest.update(i - 1, e) =~= m.update(i, e));
    }
}

/// When the key is absent, tracking appends a fresh entry.
pub proof fn lemma_track_absent(m: Seq<EntryData>, k: KeyData, now: Seq<char>)
    requires
        forall|j: int| 0 <= j < m.len() ==> m[j].key != k,
    ensures
        spec_track(m, k, now) == m.push(EntryData { key: k, last_accessed: now }),
    decreases m.len(),
{
    reveal_with_fuel(spec_track, 2);
    let e = EntryData { key: k, last_accessed: now };
    if m.len() == 0 {
        assert(seq![e] =~= m.push(e));
    } else {
        let rest = m.subrange(1, m.len() as int);
        assert(forall|j: int| 0 <= j < rest.len() ==> #[trigger] rest[j] == m[j + 1]);
        lemma_track_absent(rest, k, now);
        assert(seq![m[0]] + rest.push(e) =~= m.push(e));
    }
}

/// The first entry with a given key, walked from the front.
fn index_of_key(entries: &Vec<KnownProjectEntry>, key: &PersistenceKey) -> (r: Option<usize>)
    ensures
        match r {
            Some(i) => i < entries@.len() && entries@[i as int]@.key == key@ && forall|j: int|
                0 <= j < i ==> entries@[j]@.key != key@,
            None => forall|j: int| 0 <= j < entries@.len() ==> entries@[j]@.key != key@,
        },
{
    let mut i: usize = 0;
    while i < entries.len()
        invariant
            i <= entries@.len(),
            forall|j: int| 0 <= j < i ==> entries@[j]@.key != key@,
        decreases entries@.len() - i,
    {
        if entries[i].key == *key {
            return Some(i);
        }
        i = i + 1;
    }
    None
}

/// The entries that survive a pruning pass: those still marked alive.
pub open spec fn spec_prune(m: Seq<EntryData>, alive: Seq<bool>) -> Seq<EntryData>
    decreases m.len(),
{
    if m.len() == 0 {
        Seq::empty()
    } else {
        let rest = spec_prune(m.drop_last(), alive.drop_last());
        if alive[m.len() - 1] {
            rest.push(m.last())
        } else {
            rest
        }
    }
}

/// Appending one entry and its flag extends the pruned entries exactly when
/// the flag holds.
pub proof fn lemma_prune_push(m: Seq<EntryData>, alive: Seq<bool>, e: EntryData, b: bool)
    requires
        m.len() == alive.len(),
    ensures
        spec_prune(m.push(e), alive.push(b)) == if b {
            spec_prune(m, alive).push(e)
        } else {
            spec_prune(m, alive)
        },
{
    assert(m.push(e).drop_last() =~= m);
    assert(alive.push(b).drop_last() =~= alive);
    assert(m.push(e).last() == e);
    assert(alive.push(b)[m.push(e).len() - 1] == b);
}

/// The entries left after removing a key: every entry whose key differs, in
/// order.
pub open spec fn spec_remove_key(m: Seq<EntryData>, k: KeyData) -> Seq<EntryData>
    decreases m.len(),
{
    if m.len() == 0 {
        Seq::empty()
    } else {
        let rest = spec_remove_key(m.drop_last(), k);
        if m.last().key == k {
            rest
        } else {
            rest.push(m.last())
        }
    }
}

/// Appending an entry extends the removal's result exactly when its key
/// differs.
pub proof fn lemma_remove_key_push(m: Seq<EntryData>, k: KeyData, e: EntryData)
    ensures
        spec_remove_key(m.push(e), k) == if e.key == k {
            spec_remove_key(m, k)
        } else {
            spec_remove_key(m, k).push(e)
        },
{
    assert(m.push(e).drop_last() =~= m);
    assert(m.push(e).last() == e);
}

/// The first entry under a key, if any.
pub open spec fn spec_find(m: Seq<EntryData>, k: KeyData) -> Option<EntryData>
    decreases m.len(),
{
    if m.len() == 0 {
        None
    } else if m[0].key == k {
        Some(m[0])
    } else {
        spec_find(m.subrange(1, m.len() as int), k)
    }
}

/// The first index with the key determines `spec_find`.
pub proof fn lemma_find_at(m: Seq<EntryData>, k: KeyData, i: int)
    requires
        0 <= i < m.len(),
        m[i].key == k,
        forall|j: int| 0 <= j < i ==> m[j].key != k,
    ensures
        spec_find(m, k) == Some(m[i]),
    decreases m.len(),
{
    reveal_with_fuel(spec_find, 2);
    if i > 0 {
        let rest = m.subrange(1, m.len() as int);
        assert(forall|j: int| 0 <= j < rest.len() ==> #[trigger] rest[j] == m[j + 1]);
        assert forall|j: int| 0 <= j < i - 1 implies rest[j].key != k by {
            assert(rest[j] == m[j + 1]);
        }
        assert(rest[i - 1] == m[i]);
        lemma_find_at(rest, k, i - 1);
    }
}

/// No entry with the key determines `spec_find` too.
pub proof fn lemma_find_none(m: Seq<EntryData>, k: KeyData)
    requires
        forall|j: int| 0 <= j < m.len() ==> m[j].key != k,
    ensures
        spec_find(m, k) is None,
    decreases m.len(),
{
    if m.len() > 0 {
        let rest = m.subrange(1, m.len() as int);
        assert(forall|j: int| 0 <= j < rest.len() ==> #[trigger] rest[j] == m[j + 1]);
        lemma_find_none(rest, k);
    }
}

impl KnownProjects {
    /// Records an access of `key` at the clock's current local time: the
    /// tracking step every non-secret load performs, around which the
    /// application loads and re-saves the index. The clock's rendering is
    /// validated before it is recorded, so either the access is tracked under
    /// a valid timestamp or — should the clock render an invalid text —
    /// nothing changes.
    pub fn track_project_accessed(&mut self, key: PersistenceKey)
        ensures
            final(self)@ == old(self)@ || exists|now: Seq<char>|
                #[trigger] spec_is_rfc3339(now) && final(self)@ == spec_track(
                    old(self)@,
                    key@,
                    now,
                ),
            index_wf(old(self)@) ==> index_wf(final(self)@),
            entry_keys_distinct(old(self)@) ==> entry_keys_distinct(final(self)@),
    {
        let now = now_rfc3339();
        if is_rfc3339(now.as_str()) {
            let ghost n = now@;
            self.record_access(key, now);
            proof {
                if index_wf(old(self)@) {
                    lemma_track_preserves_wf(old(self)@, key@, n);
                }
            }
        }
    }

    /// Records an access of `key` at time `now`: the matching entry's
    /// timestamp is updated in place, or a fresh entry is appended — so an
    /// index with at most one entry per key keeps that invariant.
    pub fn record_access(&mut self, key: PersistenceKey, now: String)
        ensures
            final(self)@ == spec_track(old(self)@, key@, now@),
            entry_keys_distinct(old(self)@) ==> entry_keys_distinct(final(self)@),
    {
        proof {
            lemma_view_entries(self.entries@);
            if entry_keys_distinct(old(self)@) {
                lemma_track_preserves_distinct(old(self)@, key@, now@);
            }
        }
        match index_of_key(&self.entries, &key) {
            Some(i) => {
                let mut e = self.entries.remove(i);
                e.last_accessed = now;
                self.entries.insert(i, e);
                proof {
                    lemma_view_entries(self.entries@);
                    lemma_track_found(old(self)@, key@, now@, i as int);
                    assert(self.entries@ =~= old(self).entries@.update(
                        i as int,
                        self.entries@[i as int],
                    ));
                    assert(view_entries(self.entries@) =~= spec_track(old(self)@, key@, now@));
                }
            },
            None => {
                self.entries.push(KnownProjectEntry { key, last_accessed: now });
                proof {
                    lemma_view_entries(self.entries@);
                    lemma_track_absent(old(self)@, key@, now@);
                    assert(view_entries(self.entries@) =~= spec_track(old(self)@, key@, now@));
                }
            },
        }
    }

    /// Drops the entries whose backing file no longer exists: `alive` holds,
    /// for each entry in order, whether its file was found. The application
    /// computes the flags with its existence checks and saves the result.
    pub fn prune(&mut self, alive: &Vec<bool>)
        requires
            old(self).entries@.len() == alive@.len(),
        ensures
            final(self)@ == spec_prune(old(self)@, alive@),
            index_wf(old(self)@) ==> index_wf(final(self)@),
            entry_keys_distinct(old(self)@) ==> entry_keys_distinct(final(self)@),
    {
        proof {
            if index_wf(old(self)@) {
                lemma_prune_preserves_wf(old(self)@, alive@);
            }
            if entry_keys_distinct(old(self)@) {
                lemma_prune_preserves_distinct(old(self)@, alive@);
            }
        }
        proof {
            lemma_view_entries(self.entries@);
        }
        let mut kept: Vec<KnownProjectEntry> = Vec::new();
        let mut i: usize = 0;
        while i < self.entries.len()
            invariant
                i <= self.entries@.len(),
                self.entries@ == old(self).entries@,
                self.entries@.len() == alive@.len(),
                view_entries(kept@) =~= spec_prune(
                    view_entries(self.entries@).take(i as int),
                    alive@.take(i as int),
                ),
            decreases self.entries@.len() - i,
        {
            proof {
                lemma_view_entries(self.entries@);
                lemma_view_entries(kept@);
                let mv = view_entries(self.entries@);
                assert(mv.take(i + 1) =~= mv.take(i as int).push(mv[i as int]));
                assert(alive@.take(i + 1) =~= alive@.take(i as int).push(alive@[i as int]));
                assert(mv.take(i as int).len() == alive@.take(i as int).len());
                lemma_prune_push(
                    mv.take(i as int),
                    alive@.take(i as int),
                    mv[i as int],
                    alive@[i as int],
                );
            }
            if alive[i] {
                let kept_entry = self.entries[i].clone_entry();
                kept.push(kept_entry);
            }
            proof {
                lemma_view_entries(kept@);
            }
            i = i + 1;
        }
        proof {
            lemma_view_entries(self.entries@);
            assert(view_entries(self.entries@).take(self.entries@.len() as int) =~= view_entries(
                self.entries@,
            ));
            assert(alive@.take(alive@.len() as int) =~= alive@);
        }
        self.entries = kept;
    }

    /// Removes every entry under `key`, keeping the others in order: the
    /// index half of the `clean` operation, after the file itself is deleted.
    pub fn remove_entry(&mut self, key: &PersistenceKey)
        ensures
            final(self)@ == spec_remove_key(old(self)@, key@),
            index_wf(old(self)@) ==> index_wf(final(self)@),
            entry_keys_distinct(old(self)@) ==> entry_keys_distinct(final(self)@),
    {
        proof {
            if index_wf(old(self)@) {
                lemma_remove_preserves_wf(old(self)@, key@);
            }
            if entry_keys_distinct(old(self)@) {
                lemma_remove_preserves_distinct(old(self)@, key@);
            }
        }
        proof {
            lemma_view_entries(self.entries@);
        }
        let mut kept: Vec<KnownProjectEntry> = Vec::new();
        let mut i: usize = 0;
        while i < self.entries.len()
            invariant
                i <= self.entries@.len(),
                self.entries@ == old(self).entries@,
                view_entries(kept@) =~= spec_remove_key(
                    view_entries(self.entries@).take(i as int),
                    key@,
                ),
            decreases self.entries@.len() - i,
        {
            proof {
                lemma_view_entries(self.entries@);
                lemma_view_entries(kept@);
                let mv = view_entries(self.entries@);
                assert(mv.take(i + 1) =~= mv.take(i as int).push(mv[i as int]));
                lemma_remove_key_push(mv.take(i as int), key@, mv[i as int]);
            }
            if !(self.entries[i].key == *key) {
                let kept_entry = self.entries[i].clone_entry();
                kept.push(kept_entry);
            }
            proof {
                lemma_view_entries(kept@);
            }
            i = i + 1;
        }
        proof {
            lemma_view_entries(self.entries@);
            assert(view_entries(self.entries@).take(self.entries@.len() as int) =~= view_entries(
                self.entries@,
            ));
        }
        self.entries = kept;
    }

    /// The entry recorded under `key`, if any: what `show` displays.
    pub fn find_entry(&self, key: &PersistenceKey) -> (r: Option<&KnownProjectEntry>)
        ensures
            match r {
                Some(e) => spec_find(self@, key@) == Some(e@),
                None => spec_find(self@, key@) is None,
            },
    {
        proof {
            lemma_view_entries(self.entries@);
        }
        match index_of_key(&self.entries, key) {
            Some(i) => {
                proof {
                    lemma_find_at(self@, key@, i as int);
                }
                Some(&self.entries[i])
            },
            None => {
                proof {
                    lemma_find_none(self@, key@);
                }
                None
            },
        }
    }
}

/// Tracking with a valid timestamp keeps every timestamp valid.
pub proof fn lemma_track_preserves_wf(m: Seq<EntryData>, k: KeyData, now: Seq<char>)
    requires
        index_wf(m),
        spec_is_rfc3339(now),
    ensures
        index_wf(spec_track(m, k, now)),
    decreases m.len(),
{
    reveal_with_fuel(spec_track, 2);
    if m.len() > 0 && m[0].key != k {
        let rest = m.subrange(1, m.len() as int);
        assert(forall|j: int| 0 <= j < rest.len() ==> #[trigger] rest[j] == m[j + 1]);
        lemma_track_preserves_wf(rest, k, now);
        let t = spec_track(m, k, now);
        assert forall|i: int|
            0 <= i < t.len() implies spec_is_rfc3339(#[trigger] t[i].last_accessed) by {
            if i > 0 {
                assert(t[i] == spec_track(rest, k, now)[i - 1]);
            }
        }
    }
}

/// Pruning keeps every timestamp valid.
pub proof fn lemma_prune_preserves_wf(m: Seq<EntryData>, alive: Seq<bool>)
    requires
        index_wf(m),
    ensures
        index_wf(spec_prune(m, alive)),
    decreases m.len(),
{
    if m.len() > 0 {
        assert(forall|j: int|
            0 <= j < m.len() - 1 ==> #[trigger] m.drop_last()[j] == m[j]);
        lemma_prune_preserves_wf(m.drop_last(), alive.drop_last());
    }
}

/// Removing a key keeps every timestamp valid.
pub proof fn lemma_remove_preserves_wf(m: Seq<EntryData>, k: KeyData)
    requires
        index_wf(m),
    ensures
        index_wf(spec_remove_key(m, k)),
    decreases m.len(),
{
    if m.len() > 0 {
        assert(forall|j: int|
            0 <= j < m.len() - 1 ==> #[trigger] m.drop_last()[j] == m[j]);
        lemma_remove_preserves_wf(m.drop_last(), k);
    }
}

/// At most one entry per key: the index's standing invariant.
pub open spec fn entry_keys_distinct(m: Seq<EntryData>) -> bool {
    forall|i: int, j: int| 0 <= i < j < m.len() ==> m[i].key != m[j].key
}

/// `e` is one of `m`'s entries.
pub open spec fn holds_entry(m: Seq<EntryData>, e: EntryData) -> bool {
    exists|j: int| 0 <= j < m.len() && e == #[trigger] m[j]
}

/// Pruning keeps only entries the index already had, so distinct keys stay
/// distinct.
pub proof fn lemma_prune_preserves_distinct(m: Seq<EntryData>, alive: Seq<bool>)
    requires
        entry_keys_distinct(m),
    ensures
        entry_keys_distinct(spec_prune(m, alive)),
        forall|i: int|
            0 <= i < spec_prune(m, alive).len() ==> holds_entry(
                m,
                #[trigger] spec_prune(m, alive)[i],
            ),
    decreases m.len(),
{
    if m.len() > 0 {
        let front = m.drop_last();
        assert(forall|j: int| 0 <= j < front.len() ==> #[trigger] front[j] == m[j]);
        lemma_prune_preserves_distinct(front, alive.drop_last());
        let r0 = spec_prune(front, alive.drop_last());
        let r = spec_prune(m, alive);
        assert forall|i: int| 0 <= i < r.len() implies holds_entry(m, #[trigger] r[i]) by {
            if i < r0.len() {
                assert(r[i] == r0[i]);
                assert(holds_entry(front, r0[i]));
                let j0 = choose|j: int| 0 <= j < front.len() && r0[i] == #[trigger] front[j];
                assert(0 <= j0 < m.len() && r[i] == m[j0]);
            } else {
                assert(r[i] == m[m.len() - 1]);
            }
        }
        if alive[m.len() - 1] {
            assert forall|a: int, b: int|
                0 <= a < b < r.len() implies r[a].key != r[b].key by {
                if b == r0.len() {
                    assert(r[a] == r0[a]);
                    assert(holds_entry(front, r0[a]));
                    let j0 = choose|j: int| 0 <= j < front.len() && r0[a] == #[trigger] front[j];
                    assert(m[j0].key != m[m.len() - 1].key);
                }
            }
        }
    }
}

/// Removing a key keeps only entries the index already had, so distinct keys
/// stay distinct.
pub proof fn lemma_remove_preserves_distinct(m: Seq<EntryData>, k: KeyData)
    requires
        entry_keys_distinct(m),
    ensures
        entry_keys_distinct(spec_remove_key(m, k)),
        forall|i: int|
            0 <= i < spec_remove_key(m, k).len() ==> holds_entry(
                m,
                #[trigger] spec_remove_key(m, k)[i],
            ),
    decreases m.len(),
{
    if m.len() > 0 {
        let front = m.drop_last();
        assert(forall|j: int| 0 <= j < front.len() ==> #[trigger] front[j] == m[j]);
        lemma_remove_preserves_distinct(front, k);
        let r0 = spec_remove_key(front, k);
        let r = spec_remove_key(m, k);
        assert forall|i: int| 0 <= i < r.len() implies holds_entry(m, #[trigger] r[i]) by {
            if i < r0.len() {
                assert(r[i] == r0[i]);
                assert(holds_entry(front, r0[i]));
                let j0 = choose|j: int| 0 <= j < front.len() && r0[i] == #[trigger] front[j];
                assert(0 <= j0 < m.len() && r[i] == m[j0]);
            } else {
                assert(r[i] == m[m.len() - 1]);
            }
        }
        if m.last().key != k {
            assert forall|a: int, b: int|
                0 <= a < b < r.len() implies r[a].key != r[b].key by {
                if b == r0.len() {
                    assert(r[a] == r0[a]);
                    assert(holds_entry(front, r0[a]));
                    let j0 = choose|j: int| 0 <= j < front.len() && r0[a] == #[trigger] front[j];
                    assert(m[j0].key != m[m.len() - 1].key);
                }
            }
        }
    }
}

/// Index tracking, in place: when the index already holds an entry under the
/// key, a recorded access re-stamps exactly that entry with the new time and
/// leaves every other entry unchanged.
pub proof fn lemma_track_updates_in_place(m: Seq<EntryData>, k: KeyData, now: Seq<char>, i: int)
    requires
        entry_keys_distinct(m),
        0 <= i < m.len(),
        m[i].key == k,
    ensures
        ({
            let m2 = spec_track(m, k, now);
            &&& m2.len() == m.len()
            &&& m2[i] == (EntryData { key: k, last_accessed: now })
            &&& forall|j: int| 0 <= j < m.len() && j != i ==> m2[j] == m[j]
        }),
{
    assert(forall|j: int| 0 <= j < i ==> m[j].key != k);
    lemma_track_found(m, k, now, i);
}

/// Tracking keeps the keys distinct.
pub proof fn lemma_track_preserves_distinct(m: Seq<EntryData>, k: KeyData, now: Seq<char>)
    requires
        entry_keys_distinct(m),
    ensures
        entry_keys_distinct(spec_track(m, k, now)),
{
    let e = EntryData { key: k, last_accessed: now };
    if exists|i: int| 0 <= i < m.len() && m[i].key == k {
        let i = choose|i: int| 0 <= i < m.len() && m[i].key == k;
        assert(forall|j: int| 0 <= j < i ==> m[j].key != k);
        lemma_track_found(m, k, now, i);
    } else {
        lemma_track_absent(m, k, now);
    }
}

/// Index tracking: after two recorded accesses of one key, the index holds
/// exactly one entry under it, stamped with the second access time.
pub proof fn lemma_track_twice(m: Seq<EntryData>, k: KeyData, t1: Seq<char>, t2: Seq<char>)
    requires
        entry_keys_distinct(m),
    ensures
        ({
            let m2 = spec_track(spec_track(m, k, t1), k, t2);
            &&& exists|i: int|
                0 <= i < m2.len() && m2[i].key == k && #[trigger] m2[i].last_accessed == t2
            &&& forall|i: int, j: int|
                0 <= i < j < m2.len() ==> !(m2[i].key == k && m2[j].key == k)
        }),
{
    let e1 = EntryData { key: k, last_accessed: t1 };
    let e2 = EntryData { key: k, last_accessed: t2 };
    let m1 = spec_track(m, k, t1);
    let m2 = spec_track(m1, k, t2);
    lemma_track_preserves_distinct(m, k, t1);
    lemma_track_preserves_distinct(m1, k, t2);
    if exists|i: int| 0 <= i < m.len() && m[i].key == k {
        let i = choose|i: int| 0 <= i < m.len() && m[i].key == k;
        assert(forall|j: int| 0 <= j < i ==> m[j].key != k);
        lemma_track_found(m, k, t1, i);
        assert(m1[i] == e1);
        assert(forall|j: int| 0 <= j < i ==> m1[j].key != k);
        lemma_track_found(m1, k, t2, i);
        assert(m2[i] == e2);
        assert(exists|w: int|
            0 <= w < m2.len() && m2[w].key == k && #[trigger] m2[w].last_accessed == t2) by {
            assert(m2[i].last_accessed == t2);
        }
    } else {
        assert(forall|j: int| 0 <= j < m.len() ==> m[j].key != k);
        lemma_track_absent(m, k, t1);
        assert(m1[m.len() as int] == e1);
        assert(forall|j: int| 0 <= j < m.len() ==> m1[j].key != k);
        lemma_track_found(m1, k, t2, m.len() as int);
        assert(m2[m.len() as int] == e2);
        assert(exists|w: int|
            0 <= w < m2.len() && m2[w].key == k && #[trigger] m2[w].last_accessed == t2) by {
            assert(m2[m.len() as int].last_accessed == t2);
        }
    }
    assert forall|i: int, j: int|
        0 <= i < j < m2.len() implies !(m2[i].key == k && m2[j].key == k) by {
        assert(m2[i].key != m2[j].key);
    }
}

/// Secret exclusion: the index is itself secret, so a load of the index is
/// never recorded in it — the tracker does not track itself.
pub proof fn lemma_index_is_secret()
    ensures
        KnownProjects::spec_is_secret(),
{
}

} // verus!
