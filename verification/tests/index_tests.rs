use eye_config::clock::is_rfc3339;
use eye_config::clock::now_compact_utc;
use eye_config::clock::now_rfc3339;
use eye_config::known_projects::KnownProjectEntry;
use eye_config::known_projects::KnownProjects;
use eye_config::persistable_state::decide_load;
use eye_config::persistable_state::save_content;
use eye_config::persistable_state::LoadOutcome;
use eye_config::persistable_state::PersistableState;
use eye_config::persistence_key::PersistenceKey;

fn key(project: &str, slug: &str) -> PersistenceKey {
    PersistenceKey::new(String::from(project), String::from(slug))
}

const T1: &str = "2024-01-01T10:00:00+00:00";
const T2: &str = "2024-06-15T12:30:45+02:00";

#[test]
fn tracking_stamps_the_entry_with_a_valid_time() {
    let mut idx = KnownProjects::default_value();
    idx.track_project_accessed(key("p", "f.json"));
    assert_eq!(idx.entries.len(), 1);
    assert!(is_rfc3339(&idx.entries[0].last_accessed));
}

#[test]
fn tracking_twice_keeps_one_entry_with_the_second_time() {
    let mut idx = KnownProjects::default_value();
    idx.record_access(key("p", "f.json"), String::from(T1));
    idx.record_access(key("p", "f.json"), String::from(T2));
    assert_eq!(idx.entries.len(), 1);
    assert_eq!(idx.entries[0].key, key("p", "f.json"));
    assert_eq!(idx.entries[0].last_accessed, T2);
}

#[test]
fn tracking_distinct_keys_appends_in_order() {
    let mut idx = KnownProjects::default_value();
    idx.record_access(key("p", "one.json"), String::from(T1));
    idx.record_access(key("p", "two.json"), String::from(T2));
    assert_eq!(idx.entries.len(), 2);
    assert_eq!(idx.entries[0].key, key("p", "one.json"));
    assert_eq!(idx.entries[1].key, key("p", "two.json"));
}

#[test]
fn tracking_updates_only_the_matching_entry() {
    let mut idx = KnownProjects::default_value();
    idx.record_access(key("p", "one.json"), String::from(T1));
    idx.record_access(key("p", "two.json"), String::from(T1));
    idx.record_access(key("p", "one.json"), String::from(T2));
    assert_eq!(idx.entries.len(), 2);
    assert_eq!(idx.entries[0].last_accessed, T2);
    assert_eq!(idx.entries[1].last_accessed, T1);
}

#[test]
fn prune_keeps_exactly_the_living_entries() {
    let mut idx = KnownProjects {
        entries: vec![
            KnownProjectEntry { key: key("p", "gone.json"), last_accessed: String::from(T1) },
            KnownProjectEntry { key: key("p", "here.json"), last_accessed: String::from(T2) },
        ],
    };
    idx.prune(&vec![false, true]);
    assert_eq!(idx.entries.len(), 1);
    assert_eq!(idx.entries[0].key, key("p", "here.json"));
    assert_eq!(idx.entries[0].last_accessed, T2);
}

#[test]
fn remove_entry_drops_only_the_matching_key() {
    let mut idx = KnownProjects {
        entries: vec![
            KnownProjectEntry { key: key("p", "one.json"), last_accessed: String::from(T1) },
            KnownProjectEntry { key: key("p", "two.json"), last_accessed: String::from(T2) },
        ],
    };
    idx.remove_entry(&key("p", "one.json"));
    assert_eq!(idx.entries.len(), 1);
    assert_eq!(idx.entries[0].key, key("p", "two.json"));
}

#[test]
fn find_entry_returns_the_recorded_entry() {
    let idx = KnownProjects {
        entries: vec![
            KnownProjectEntry { key: key("p", "one.json"), last_accessed: String::from(T1) },
        ],
    };
    let found = idx.find_entry(&key("p", "one.json")).expect("entry must be found");
    assert_eq!(found.last_accessed, T1);
    assert!(idx.find_entry(&key("p", "other.json")).is_none());
}

#[test]
fn index_save_then_load_round_trips() {
    let idx = KnownProjects {
        entries: vec![
            KnownProjectEntry { key: key("p", "one.json"), last_accessed: String::from(T1) },
            KnownProjectEntry { key: key("q", "two.json"), last_accessed: String::from(T2) },
        ],
    };
    let text = save_content(&idx);
    match decide_load::<KnownProjects>(Some(&text)) {
        LoadOutcome::Loaded(v) => assert_eq!(v, idx),
        _ => panic!("a saved index must load back directly"),
    }
}

#[test]
fn empty_index_loads_from_its_own_save() {
    let idx = KnownProjects::default_value();
    let text = save_content(&idx);
    match decide_load::<KnownProjects>(Some(&text)) {
        LoadOutcome::Loaded(v) => assert_eq!(v.entries.len(), 0),
        _ => panic!("an empty index must load back directly"),
    }
}

#[test]
fn invalid_timestamps_are_rejected_by_the_strict_decode() {
    let text = String::from(
        "{\"entries\": [{\"key\": {\"project_name\": \"p\", \"file_slug\": \"f\"}, \
         \"last_accessed\": \"not-a-time\"}]}",
    );
    assert!(matches!(
        decide_load::<KnownProjects>(Some(&text)),
        LoadOutcome::BackupThenMergeIncompatible
    ));
}

#[test]
fn a_bare_object_recovers_to_the_empty_index() {
    let text = String::from("{}");
    match decide_load::<KnownProjects>(Some(&text)) {
        LoadOutcome::RecoverAfterBackup(v) => assert_eq!(v.entries.len(), 0),
        _ => panic!("an index file missing its field must recover to the default"),
    }
}

#[test]
fn the_index_is_secret_and_has_its_reserved_key() {
    assert!(KnownProjects::is_secret());
    let k = KnownProjects::key();
    assert_eq!(k, key("eye-config", "known-projects.json"));
}

#[test]
fn key_parses_from_its_json_text_in_any_field_order() {
    let a = PersistenceKey::parse("{\"project_name\": \"p\", \"file_slug\": \"f.json\"}")
        .expect("straight order must parse");
    assert_eq!(a, key("p", "f.json"));
    let b = PersistenceKey::parse("{\"file_slug\": \"f.json\", \"project_name\": \"p\"}")
        .expect("swapped order must parse");
    assert_eq!(b, key("p", "f.json"));
}

#[test]
fn malformed_key_text_is_rejected() {
    assert!(PersistenceKey::parse("not json").is_none());
    assert!(PersistenceKey::parse("{\"project_name\": \"p\"}").is_none());
    assert!(PersistenceKey::parse("{\"project_name\": 4, \"file_slug\": \"f\"}").is_none());
    assert!(PersistenceKey::parse("[\"p\", \"f\"]").is_none());
}

#[test]
fn file_path_ends_with_the_file_slug() {
    match key("eye-config-tests", "t.json").file_path() {
        Ok(p) => assert!(p.ends_with("/t.json")),
        Err(_) => {
            // The platform offered no configuration directory in this
            // environment; resolution failing with the error is the other
            // documented outcome.
        },
    }
}

#[test]
fn the_clock_renders_timestamps_its_own_parser_accepts() {
    let now = now_rfc3339();
    assert!(is_rfc3339(&now));
    assert!(is_rfc3339("2024-01-15T10:30:00+00:00"));
    assert!(!is_rfc3339("yesterday"));
}

#[test]
fn the_compact_stamp_is_utc_marked() {
    let stamp = now_compact_utc();
    assert!(stamp.ends_with('Z'));
    assert_eq!(stamp.len(), 16);
}
