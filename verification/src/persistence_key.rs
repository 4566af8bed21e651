//! The identity of one configuration file: a project namespace and a file
//! name under it, resolved to an absolute path by the platform's
//! configuration-directory service.

use vstd::prelude::*;
use vstd::string::StringExecFns;
use crate::codec::parse_json;
use crate::error::PersistError;
use crate::json::Json;
use crate::json::JsonData;
use crate::json::canonical;
use crate::json::depth;
use crate::json::lemma_depth_entries_bound;
use crate::json::keys_unique;
use crate::json::nums_canonical;
use crate::json::objs_unique;
use crate::json::lookup;
use crate::json::lookup_entry;
use crate::json::view_obj;
use crate::json::lemma_view_obj;

verus! {

/// The mathematical content of a [`PersistenceKey`]: its view.
pub struct KeyData {
    pub project_name: Seq<char>,
    pub file_slug: Seq<char>,
}

/// Identifies one configuration file: a project namespace plus a relative
/// file name under it. Two keys are equal exactly when both fields are;
/// the index deduplicates by this equality.
#[derive(Debug)]
pub struct PersistenceKey {
    pub project_name: String,
    pub file_slug: String,
}

impl View for PersistenceKey {
    type V = KeyData;

    open spec fn view(&self) -> KeyData {
        KeyData { project_name: self.project_name@, file_slug: self.file_slug@ }
    }
}

impl PartialEq for PersistenceKey {
    fn eq(&self, other: &Self) -> (r: bool) {
        self.project_name == other.project_name && self.file_slug == other.file_slug
    }
}

impl vstd::std_specs::cmp::PartialEqSpecImpl for PersistenceKey {
    open spec fn obeys_eq_spec() -> bool {
        true
    }

    open spec fn eq_spec(&self, other: &Self) -> bool {
        self@ == other@
    }
}

impl Eq for PersistenceKey {}

impl PersistenceKey {
    /// A key from its two parts; nothing is validated.
    pub fn new(project_name: String, file_slug: String) -> (k: Self)
        ensures
            k@ == (KeyData { project_name: project_name@, file_slug: file_slug@ }),
    {
        PersistenceKey { project_name, file_slug }
    }

    /// A copy of the key.
    pub fn clone_key(&self) -> (k: Self)
        ensures
            k@ == self@,
    {
        PersistenceKey { project_name: self.project_name.clone(), file_slug: self.file_slug.clone() }
    }

    /// The absolute path of this key's configuration file: the platform's
    /// configuration directory for the project namespace, joined with the
    /// file slug. Fails, with the key for context, exactly when the platform
    /// yields no directory for the namespace.
    pub fn file_path(&self) -> (r: Result<String, PersistError>)
        ensures
            r matches Ok(p) ==> exists|dir: Seq<char>|
                p@ == spec_joined_path(dir, self.file_slug@),
            r matches Err(e) ==> e == (PersistError::Resolution {
                project_name: self.project_name,
                file_slug: self.file_slug,
            }),
    {
        match resolve_config_dir(&self.project_name) {
            Some(dir) => {
                let ghost d = dir@;
                let p = join_path(dir, &self.file_slug);
                proof {
                    assert(p@ == spec_joined_path(d, self.file_slug@));
                }
                Ok(p)
            },
            None => Err(
                PersistError::Resolution {
                    project_name: self.project_name.clone(),
                    file_slug: self.file_slug.clone(),
                },
            ),
        }
    }

    /// The canonical JSON document of a key: an object with the two string
    /// fields, one level deep.
    pub fn to_json(&self) -> (j: Json)
        ensures
            j@ == spec_key_to_json(self@),
            canonical(j@),
            depth(j@) <= 1,
    {
        let mut entries: Vec<(String, Json)> = Vec::new();
        entries.push((String::from_str("project_name"), Json::Str(self.project_name.clone())));
        entries.push((String::from_str("file_slug"), Json::Str(self.file_slug.clone())));
        let j = Json::Obj(entries);
        proof {
            lemma_view_obj(j->Obj_0@);
            assert(j@->Obj_0 =~= spec_key_to_json(self@)->Obj_0);
            reveal_strlit("project_name");
            reveal_strlit("file_slug");
            assert("project_name"@.len() == 12 && "file_slug"@.len() == 9);
            let es = j@->Obj_0;
            assert(keys_unique(es));
            assert(objs_unique(j@)) by {
                assert(forall|i: int| 0 <= i < es.len() ==> objs_unique(#[trigger] es[i].1));
            }
            assert(nums_canonical(j@)) by {
                assert(forall|i: int| 0 <= i < es.len() ==> nums_canonical(#[trigger] es[i].1));
            }
            lemma_key_json_depth(self@);
        }
        j
    }

    /// The strict decode of a key from a JSON document: an object holding the
    /// two string fields, in any order; unknown keys are ignored.
    pub fn from_json(j: &Json) -> (r: Option<Self>)
        ensures
            match r {
                Some(k) => spec_key_from_json(j@) == Some(k@),
                None => spec_key_from_json(j@) is None,
            },
    {
        match j {
            Json::Obj(entries) => {
                let project = lookup_entry(entries, &String::from_str("project_name"));
                let slug = lookup_entry(entries, &String::from_str("file_slug"));
                match (project, slug) {
                    (Some(Json::Str(p)), Some(Json::Str(f))) => Some(
                        PersistenceKey { project_name: p.clone(), file_slug: f.clone() },
                    ),
                    (_, _) => None,
                }
            },
            _ => None,
        }
    }

    /// A key parsed from JSON text, as the command line supplies it: the
    /// round trip of the key's serialized form.
    pub fn parse(text: &str) -> (r: Option<Self>)
        ensures
            match r {
                Some(k) => spec_parse_key(text@) == Some(k@),
                None => spec_parse_key(text@) is None,
            },
    {
        match parse_json(text) {
            Some(j) => Self::from_json(&j),
            None => None,
        }
    }
}

/// A configuration directory joined with a file name.
pub open spec fn spec_joined_path(dir: Seq<char>, slug: Seq<char>) -> Seq<char> {
    dir + "/"@ + slug
}

/// The canonical JSON document of a key.
pub open spec fn spec_key_to_json(k: KeyData) -> JsonData {
    JsonData::Obj(
        seq![
            ("project_name"@, JsonData::Str(k.project_name)),
            ("file_slug"@, JsonData::Str(k.file_slug)),
        ],
    )
}

/// The strict decode of a key from a JSON document.
pub open spec fn spec_key_from_json(j: JsonData) -> Option<KeyData> {
    match j {
        JsonData::Obj(entries) => match (
            lookup(entries, "project_name"@),
            lookup(entries, "file_slug"@),
        ) {
            (Some(JsonData::Str(p)), Some(JsonData::Str(f))) => Some(
                KeyData { project_name: p, file_slug: f },
            ),
            (_, _) => None,
        },
        _ => None,
    }
}

/// The key denoted by a piece of JSON text.
pub open spec fn spec_parse_key(text: Seq<char>) -> Option<KeyData> {
    match crate::codec::spec_parse_json(text) {
        Some(j) => spec_key_from_json(j),
        None => None,
    }
}

/// A key's document is one level deep: an object of two strings.
pub proof fn lemma_key_json_depth(k: KeyData)
    ensures
        depth(spec_key_to_json(k)) <= 1,
{
    let es = spec_key_to_json(k)->Obj_0;
    assert(depth(es[0].1) == 0);
    assert(depth(es[1].1) == 0);
    lemma_depth_entries_bound(es, 0);
}

/// Decoding the document a key encodes yields the key back.
pub proof fn lemma_key_roundtrip(k: KeyData)
    ensures
        spec_key_from_json(spec_key_to_json(k)) == Some(k),
{
    reveal_with_fuel(lookup, 3);
    let entries = spec_key_to_json(k)->Obj_0;
    reveal_strlit("project_name");
    reveal_strlit("file_slug");
    assert(entries[0].0 == "project_name"@);
    assert("project_name"@.len() == 12 && "file_slug"@.len() == 9);
    assert(entries[0].0 != "file_slug"@);
    assert(lookup(entries, "project_name"@) == Some(JsonData::Str(k.project_name)));
    assert(entries.subrange(1, 2)[0] == entries[1]);
    assert(entries.subrange(1, 2).len() == 1);
    assert(lookup(entries, "file_slug"@) == Some(JsonData::Str(k.file_slug)));
}

/// Relies on directories_next::ProjectDirs::from_path and config_dir: the
/// platform's configuration directory for the project namespace, when the
/// platform yields one. The result depends on the environment, so nothing is
/// assumed of it.
#[verifier::external_body]
fn resolve_config_dir(project_name: &String) -> (r: Option<String>) {
    directories_next::ProjectDirs::from_path(std::path::PathBuf::from(project_name.as_str()))
        .map(|dirs| dirs.config_dir().to_string_lossy().into_owned())
}

/// The directory and the file name, with the path separator between them.
fn join_path(dir: String, slug: &String) -> (r: String)
    ensures
        r@ == spec_joined_path(dir@, slug@),
{
    let mut out = dir;
    out.append("/");
    out.append(slug.as_str());
    out
}

} // verus!
