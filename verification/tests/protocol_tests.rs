use eye_config::persistable_state::backup_path;
use eye_config::persistable_state::decide_load;
use eye_config::persistable_state::save_content;
use eye_config::persistable_state::should_track_load;
use eye_config::persistable_state::LoadOutcome;
use eye_config::persistable_state::PersistableState;
use eye_config::sample_config::SampleConfig;

#[test]
fn absent_file_yields_the_default() {
    match decide_load::<SampleConfig>(None) {
        LoadOutcome::Defaulted(v) => assert_eq!(v, SampleConfig { a: 1, b: 2 }),
        _ => panic!("an absent file must yield the default"),
    }
}

#[test]
fn good_text_loads_directly() {
    let text = String::from("{\"a\": 7, \"b\": -3}");
    match decide_load::<SampleConfig>(Some(&text)) {
        LoadOutcome::Loaded(v) => assert_eq!(v, SampleConfig { a: 7, b: -3 }),
        _ => panic!("well-shaped text must load directly"),
    }
}

#[test]
fn save_then_load_round_trips() {
    let original = SampleConfig { a: 7, b: 9 };
    let text = save_content(&original);
    match decide_load::<SampleConfig>(Some(&text)) {
        LoadOutcome::Loaded(v) => assert_eq!(v, original),
        _ => panic!("saved text must load back directly"),
    }
}

#[test]
fn save_writes_pretty_json() {
    let text = save_content(&SampleConfig { a: 7, b: 9 });
    assert_eq!(text, "{\n  \"a\": 7,\n  \"b\": 9\n}");
}

#[test]
fn merge_upgrade_keeps_user_values_and_backfills_defaults() {
    let text = String::from("{\"a\": 99, \"c\": 3}");
    match decide_load::<SampleConfig>(Some(&text)) {
        LoadOutcome::RecoverAfterBackup(v) => assert_eq!(v, SampleConfig { a: 99, b: 2 }),
        _ => panic!("shape-mismatched text must merge-upgrade after a backup"),
    }
}

#[test]
fn unknown_keys_alone_recover_to_the_default() {
    let text = String::from("{\"unknown\": true}");
    match decide_load::<SampleConfig>(Some(&text)) {
        LoadOutcome::RecoverAfterBackup(v) => assert_eq!(v, SampleConfig { a: 1, b: 2 }),
        _ => panic!("text with only unknown keys must recover to the default"),
    }
}

#[test]
fn invalid_json_is_backed_up_then_fails() {
    let text = String::from("{oops");
    assert!(matches!(
        decide_load::<SampleConfig>(Some(&text)),
        LoadOutcome::BackupThenUnparsable
    ));
}

#[test]
fn incompatible_user_values_fail_after_backup() {
    let text = String::from("{\"a\": true, \"b\": 2}");
    assert!(matches!(
        decide_load::<SampleConfig>(Some(&text)),
        LoadOutcome::BackupThenMergeIncompatible
    ));
}

#[test]
fn fractional_numbers_do_not_fit_integral_fields() {
    let text = String::from("{\"a\": 1.5, \"b\": 2}");
    assert!(matches!(
        decide_load::<SampleConfig>(Some(&text)),
        LoadOutcome::BackupThenMergeIncompatible
    ));
}

#[test]
fn huge_numbers_survive_the_merge_in_text_form() {
    let text = String::from("{\"a\": 4, \"b\": 1e300}");
    assert!(matches!(
        decide_load::<SampleConfig>(Some(&text)),
        LoadOutcome::BackupThenMergeIncompatible
    ));
}

#[test]
fn backup_path_replaces_the_extension() {
    let path = String::from("/home/u/.config/app/config.json");
    let stamp = String::from("20240101T000000Z");
    assert_eq!(
        backup_path(&path, &stamp),
        "/home/u/.config/app/config.20240101T000000Z.bak"
    );
}

#[test]
fn backup_path_appends_when_there_is_no_extension() {
    let path = String::from("/a/b/config");
    let stamp = String::from("20240101T000000Z");
    assert_eq!(backup_path(&path, &stamp), "/a/b/config.20240101T000000Z.bak");
}

#[test]
fn backup_path_keeps_hidden_file_names_whole() {
    let path = String::from("/a/.cfg");
    let stamp = String::from("20240101T000000Z");
    assert_eq!(backup_path(&path, &stamp), "/a/.cfg.20240101T000000Z.bak");
}

#[test]
fn backup_path_ignores_dots_in_directories() {
    let path = String::from("/a.b/conf");
    let stamp = String::from("20240101T000000Z");
    assert_eq!(backup_path(&path, &stamp), "/a.b/conf.20240101T000000Z.bak");
}

#[test]
fn only_non_secret_configurations_are_tracked() {
    assert!(should_track_load::<SampleConfig>());
    assert!(!should_track_load::<eye_config::known_projects::KnownProjects>());
}

#[test]
fn sample_config_is_not_secret() {
    assert!(!SampleConfig::is_secret());
}

#[test]
fn negative_values_round_trip_too() {
    let original = SampleConfig { a: -5, b: 2 };
    let text = save_content(&original);
    match decide_load::<SampleConfig>(Some(&text)) {
        LoadOutcome::Loaded(v) => assert_eq!(v, original),
        _ => panic!("saved text with negative values must load back directly"),
    }
}

#[test]
fn over_deep_documents_are_treated_as_unparsable() {
    // The codec's parser enforces a recursion limit; a document nested past
    // it is refused like any other unparsable text.
    let mut text = String::new();
    for _ in 0..200 {
        text.push('[');
    }
    for _ in 0..200 {
        text.push(']');
    }
    assert!(matches!(
        decide_load::<SampleConfig>(Some(&text)),
        LoadOutcome::BackupThenUnparsable
    ));
}
