//! A small example configuration of the kind an application defines: two
//! numeric fields whose defaults are not zero, so that default fallback and
//! merge upgrading are visible. Applications join the persistence protocol
//! exactly this way.

use vstd::prelude::*;
use vstd::string::StringExecFns;
use crate::json::Json;
use crate::json::JsonData;
use crate::json::json_as_int;
use crate::json::json_int;
use crate::json::depth;
use crate::json::keys_unique;
use crate::json::lemma_depth_entries_bound;
use crate::json::lookup;
use crate::json::lookup_entry;
use crate::json::nums_canonical;
use crate::json::objs_unique;
use crate::json::spec_json_as_int;
use crate::json::spec_json_int;
use crate::json::lemma_view_obj;
use crate::persistable_state::PersistableState;
use crate::persistence_key::KeyData;
use crate::persistence_key::PersistenceKey;

verus! {

/// Two persisted counters, `a` defaulting to 1 and `b` to 2.
#[derive(Debug, PartialEq)]
pub struct SampleConfig {
    pub a: i64,
    pub b: i64,
}

impl View for SampleConfig {
    type V = SampleConfig;

    open spec fn view(&self) -> SampleConfig {
        *self
    }
}

/// The JSON document of a sample configuration.
pub open spec fn spec_sample_to_json(m: SampleConfig) -> JsonData {
    JsonData::Obj(seq![("a"@, spec_json_int(m.a)), ("b"@, spec_json_int(m.b))])
}

/// The strict decode of a sample configuration: both fields present as
/// integral numbers in range; unknown keys are ignored.
pub open spec fn spec_sample_from_json(j: JsonData) -> Option<SampleConfig> {
    match j {
        JsonData::Obj(entries) => match (lookup(entries, "a"@), lookup(entries, "b"@)) {
            (Some(av), Some(bv)) => match (spec_json_as_int(av), spec_json_as_int(bv)) {
                (Some(a), Some(b)) => Some(SampleConfig { a, b }),
                (_, _) => None,
            },
            (_, _) => None,
        },
        _ => None,
    }
}

impl PersistableState for SampleConfig {
    open spec fn spec_key() -> KeyData {
        KeyData { project_name: "eye-config-examples"@, file_slug: "sample-config.json"@ }
    }

    fn key() -> (k: PersistenceKey) {
        PersistenceKey::new(
            String::from_str("eye-config-examples"),
            String::from_str("sample-config.json"),
        )
    }

    open spec fn spec_is_secret() -> bool {
        false
    }

    fn is_secret() -> (b: bool) {
        false
    }

    open spec fn spec_wf(m: SampleConfig) -> bool {
        true
    }

    open spec fn spec_default() -> SampleConfig {
        SampleConfig { a: 1, b: 2 }
    }

    fn default_value() -> (v: Self) {
        SampleConfig { a: 1, b: 2 }
    }

    open spec fn spec_to_json(m: SampleConfig) -> JsonData {
        spec_sample_to_json(m)
    }

    fn to_json(&self) -> (j: Json) {
        let mut entries: Vec<(String, Json)> = Vec::new();
        entries.push((String::from_str("a"), json_int(self.a)));
        entries.push((String::from_str("b"), json_int(self.b)));
        let j = Json::Obj(entries);
        proof {
            lemma_view_obj(j->Obj_0@);
            assert(j@->Obj_0 =~= spec_sample_to_json(self@)->Obj_0);
            reveal_strlit("a");
            reveal_strlit("b");
            assert("a"@.len() == 1 && "b"@.len() == 1);
            assert("a"@[0] == 'a' && "b"@[0] == 'b');
            assert("a"@ != "b"@);
            let es = j@->Obj_0;
            assert(keys_unique(es));
            assert(objs_unique(j@)) by {
                assert(forall|i: int| 0 <= i < es.len() ==> objs_unique(#[trigger] es[i].1));
            }
            assert(nums_canonical(j@)) by {
                assert(forall|i: int| 0 <= i < es.len() ==> nums_canonical(#[trigger] es[i].1));
            }
            assert(depth(es[0].1) == 0);
            assert(depth(es[1].1) == 0);
            lemma_depth_entries_bound(es, 0);
            assert(depth(j@) <= 1);
        }
        j
    }

    open spec fn spec_from_json(j: JsonData) -> Option<SampleConfig> {
        spec_sample_from_json(j)
    }

    fn from_json(j: &Json) -> (r: Option<Self>) {
        match j {
            Json::Obj(entries) => {
                let av = lookup_entry(entries, &String::from_str("a"));
                let bv = lookup_entry(entries, &String::from_str("b"));
                match (av, bv) {
                    (Some(aj), Some(bj)) => match (json_as_int(aj), json_as_int(bj)) {
                        (Some(a), Some(b)) => Some(SampleConfig { a, b }),
                        (_, _) => None,
                    },
                    (_, _) => None,
                }
            },
            _ => None,
        }
    }

    proof fn lemma_json_roundtrip(m: SampleConfig) {
        reveal_with_fuel(lookup, 3);
        let entries = spec_sample_to_json(m)->Obj_0;
        reveal_strlit("a");
        reveal_strlit("b");
        assert("a"@.len() == 1 && "b"@.len() == 1);
        assert("a"@[0] == 'a' && "b"@[0] == 'b');
        assert(entries[0].0 != "b"@);
        assert(lookup(entries, "a"@) == Some(spec_json_int(m.a)));
        assert(entries.subrange(1, 2)[0] == entries[1]);
        assert(entries.subrange(1, 2).len() == 1);
        assert(lookup(entries, "b"@) == Some(spec_json_int(m.b)));
    }
}

} // verus!
