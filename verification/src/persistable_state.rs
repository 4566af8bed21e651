//! The persistable-state contract: the generic load/save/upgrade protocol.
//!
//! A configuration type joins the protocol by saying how it encodes to and
//! decodes from JSON, what its default skeleton is, under which key it
//! persists, and whether it is secret. The protocol itself is pure: the
//! embedding application reads and writes the files and hands the text here.
//!
//! Loading is one small state machine: an absent file yields the
//! default; text that decodes directly is taken as is; text that no longer
//! decodes is backed up and merge-upgraded over the default skeleton; text
//! that is not even JSON, or whose merge still does not decode, is backed up
//! and then fails.

use vstd::prelude::*;
use vstd::string::StrSliceExecFns;
use vstd::string::StringExecFns;
use crate::clock::now_compact_utc;
use crate::codec::parse_json;
use crate::codec::spec_parse_json;
use crate::codec::spec_pretty_text;
use crate::codec::to_pretty_text;
use crate::json::Json;
use crate::json::JsonData;
use crate::json::canonical;
use crate::json::depth;
use crate::merge::merge_json;
use crate::merge::spec_merge;
use crate::persistence_key::KeyData;
use crate::persistence_key::PersistenceKey;

verus! {

/// A configuration type that persists as pretty-printed JSON under a fixed
/// key, with default fallback and merge upgrading.
pub trait PersistableState: View + Sized {
    /// The key under which values of this type persist.
    spec fn spec_key() -> KeyData;

    /// The key, as executable code obtains it.
    fn key() -> (k: PersistenceKey)
        ensures
            k@ == Self::spec_key(),
    ;

    /// Whether this type is excluded from the known-projects index.
    spec fn spec_is_secret() -> bool;

    /// Secret configurations never appear in the index; the index itself is
    /// one, which breaks the recursion of the tracker tracking itself.
    fn is_secret() -> (b: bool)
        ensures
            b == Self::spec_is_secret(),
    ;

    /// The contents this type actually holds: what the decode produces and
    /// what the encode accepts.
    spec fn spec_wf(m: Self::V) -> bool;

    /// The default content: the mergeable skeleton in which every field the
    /// type expects appears.
    spec fn spec_default() -> Self::V;

    /// The default value.
    fn default_value() -> (v: Self)
        ensures
            v@ == Self::spec_default(),
            Self::spec_wf(v@),
    ;

    /// The JSON document of a value's content.
    spec fn spec_to_json(m: Self::V) -> JsonData;

    /// Encodes a value; the document is canonical and within the codec's
    /// recursion limit, so the codec can print it and read it back.
    fn to_json(&self) -> (j: Json)
        requires
            Self::spec_wf(self@),
        ensures
            j@ == Self::spec_to_json(self@),
            canonical(j@),
            depth(j@) <= 127,
    ;

    /// The strict decode of a JSON document into a value's content.
    spec fn spec_from_json(j: JsonData) -> Option<Self::V>;

    /// Decodes a document; `None` exactly when the document does not fit.
    fn from_json(j: &Json) -> (r: Option<Self>)
        ensures
            match r {
                Some(v) => Self::spec_from_json(j@) == Some(v@) && Self::spec_wf(v@),
                None => Self::spec_from_json(j@) is None,
            },
    ;

    /// Decoding what a value encodes yields the value back.
    proof fn lemma_json_roundtrip(m: Self::V)
        requires
            Self::spec_wf(m),
        ensures
            Self::spec_from_json(Self::spec_to_json(m)) == Some(m),
    ;
}

/// What a load of on-disk state concludes, and which side effects the
/// application owes before using it.
pub enum LoadOutcome<T> {
    /// The file is absent: use the default value.
    Defaulted(T),
    /// The text decoded directly: use the value as it is.
    Loaded(T),
    /// The text no longer decodes: copy the file to its backup path first,
    /// then use this merge-upgraded value.
    RecoverAfterBackup(T),
    /// The text is not valid JSON: copy the file to its backup path, then
    /// fail with `PersistError::UnparsableJson`.
    BackupThenUnparsable,
    /// Even the merge-upgraded document does not decode: copy the file to its
    /// backup path, then fail with `PersistError::MergeIncompatible`.
    BackupThenMergeIncompatible,
}

/// The load protocol's one decision, from what the disk showed: `content` is
/// the file's text, or `None` when the file does not exist. Every branch of
/// the state machine is pinned: absent files default, good text
/// loads, shape-mismatched text merge-upgrades over the default skeleton, and
/// the two fatal cases are told apart.
pub fn decide_load<T: PersistableState>(content: Option<&String>) -> (r: LoadOutcome<T>)
    ensures
        match content {
            None => r matches LoadOutcome::Defaulted(v) && v@ == T::spec_default(),
            Some(text) => match spec_parse_json(text@) {
                None => r is BackupThenUnparsable,
                Some(disk) => match T::spec_from_json(disk) {
                    Some(m) => r matches LoadOutcome::Loaded(v) && v@ == m,
                    None => match T::spec_from_json(
                        spec_merge(T::spec_to_json(T::spec_default()), disk),
                    ) {
                        Some(m) => r matches LoadOutcome::RecoverAfterBackup(v) && v@ == m,
                        None => r is BackupThenMergeIncompatible,
                    },
                },
            },
        },
        r matches LoadOutcome::Defaulted(v) ==> T::spec_wf(v@),
        r matches LoadOutcome::Loaded(v) ==> T::spec_wf(v@),
        r matches LoadOutcome::RecoverAfterBackup(v) ==> T::spec_wf(v@),
{
    match content {
        None => LoadOutcome::Defaulted(T::default_value()),
        Some(text) => match parse_json(text.as_str()) {
            None => LoadOutcome::BackupThenUnparsable,
            Some(disk) => match T::from_json(&disk) {
                Some(v) => LoadOutcome::Loaded(v),
                None => {
                    let default_json = T::default_value().to_json();
                    let merged = merge_json(&default_json, &disk);
                    match T::from_json(&merged) {
                        Some(v) => LoadOutcome::RecoverAfterBackup(v),
                        None => LoadOutcome::BackupThenMergeIncompatible,
                    }
                },
            },
        },
    }
}

/// The exact text `save` writes: the pretty-printed JSON document of the
/// value. The round-trip law stands here: the text parses back to the very
/// document the value encodes, and that document decodes to the value again —
/// so a `decide_load` of this text yields `Loaded` of an equal value, when
/// nothing mutates the file in between.
pub fn save_content<T: PersistableState>(value: &T) -> (r: String)
    requires
        T::spec_wf(value@),
    ensures
        r@ == spec_pretty_text(T::spec_to_json(value@)),
        spec_parse_json(r@) == Some(T::spec_to_json(value@)),
        T::spec_from_json(T::spec_to_json(value@)) == Some(value@),
{
    let j = value.to_json();
    proof {
        T::lemma_json_roundtrip(value@);
    }
    to_pretty_text(&j)
}

/// Whether a load of this configuration must be recorded in the
/// known-projects index: exactly the non-secret types. A secret configuration
/// is never tracked.
pub fn should_track_load<T: PersistableState>() -> (b: bool)
    ensures
        b == !T::spec_is_secret(),
{
    !T::is_secret()
}

/// The backup path for a corruption event found now: the file's extension
/// replaced by the clock's current compact UTC stamp and the backup marker.
pub fn fresh_backup_path(path: &String) -> (r: String)
    ensures
        exists|stamp: Seq<char>| r@ == spec_backup_path(path@, stamp),
{
    let stamp = now_compact_utc();
    let ghost st = stamp@;
    let r = backup_path(path, &stamp);
    proof {
        assert(r@ == spec_backup_path(path@, st));
    }
    r
}

/// The last position of `c` in `s`.
pub open spec fn spec_rfind(s: Seq<char>, c: char) -> Option<int>
    decreases s.len(),
{
    if s.len() == 0 {
        None
    } else if s.last() == c {
        Some(s.len() - 1)
    } else {
        spec_rfind(s.drop_last(), c)
    }
}

/// The last occurrence determines `spec_rfind`.
pub proof fn lemma_rfind_at(s: Seq<char>, c: char, i: int)
    requires
        0 <= i < s.len(),
        s[i] == c,
        forall|j: int| i < j < s.len() ==> s[j] != c,
    ensures
        spec_rfind(s, c) == Some(i),
    decreases s.len(),
{
    if i < s.len() - 1 {
        assert(forall|j: int| 0 <= j < s.len() - 1 ==> s.drop_last()[j] == s[j]);
        lemma_rfind_at(s.drop_last(), c, i);
    }
}

/// No occurrence at all determines `spec_rfind` too.
pub proof fn lemma_rfind_none(s: Seq<char>, c: char)
    requires
        forall|j: int| 0 <= j < s.len() ==> s[j] != c,
    ensures
        spec_rfind(s, c) is None,
    decreases s.len(),
{
    if s.len() > 0 {
        assert(forall|j: int| 0 <= j < s.len() - 1 ==> s.drop_last()[j] == s[j]);
        lemma_rfind_none(s.drop_last(), c);
    }
}

/// The last position of `c`, walking the characters from the end.
fn rfind_char(s: &String, c: char) -> (r: Option<usize>)
    ensures
        match r {
            Some(i) => spec_rfind(s@, c) == Some(i as int) && i < s@.len(),
            None => spec_rfind(s@, c) is None,
        },
{
    let n = s.as_str().unicode_len();
    let mut i: usize = n;
    while i > 0
        invariant
            i <= n,
            n == s@.len(),
            forall|j: int| i <= j < s@.len() ==> s@[j] != c,
        decreases i,
    {
        i = i - 1;
        if s.as_str().get_char(i) == c {
            proof {
                lemma_rfind_at(s@, c, i as int);
            }
            return Some(i);
        }
    }
    proof {
        lemma_rfind_none(s@, c);
    }
    None
}

/// Where the extension of the path's file name begins (its dot), or the
/// path's length when the file name has none: a dot that starts the file name
/// or sits in a directory does not count.
pub open spec fn spec_ext_start(path: Seq<char>) -> int {
    let name_start: int = match spec_rfind(path, '/') {
        Some(i) => i + 1,
        None => 0,
    };
    match spec_rfind(path, '.') {
        Some(d) => if d > name_start {
            d
        } else {
            path.len() as int
        },
        None => path.len() as int,
    }
}

/// The sibling path a corrupted file is copied to before recovery: the file
/// name's extension is replaced by the UTC stamp and the backup marker.
pub open spec fn spec_backup_path(path: Seq<char>, stamp: Seq<char>) -> Seq<char> {
    path.take(spec_ext_start(path)) + "."@ + stamp + ".bak"@
}

/// Computes the backup path: the extension replaced by `stamp` and the
/// backup marker, as the protocol's one backup per corruption event uses it.
pub fn backup_path(path: &String, stamp: &String) -> (r: String)
    ensures
        r@ == spec_backup_path(path@, stamp@),
{
    let n = path.as_str().unicode_len();
    let slash = rfind_char(path, '/');
    let dot = rfind_char(path, '.');
    let name_start: usize = match slash {
        Some(i) => i + 1,
        None => 0,
    };
    let cut: usize = match dot {
        Some(d) => if d > name_start {
            d
        } else {
            n
        },
        None => n,
    };
    let stem = path.as_str().substring_char(0, cut);
    proof {
        assert(stem@ =~= path@.take(spec_ext_start(path@)));
    }
    let mut out = stem.to_owned();
    out.append(".");
    out.append(stamp.as_str());
    out.append(".bak");
    proof {
        assert(out@ =~= spec_backup_path(path@, stamp@));
    }
    out
}

} // verus!
