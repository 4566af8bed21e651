use eye_config::commands::CleanCommand;
use eye_config::commands::KeySelection;
use eye_config::commands::ShowCommand;
use eye_config::persistence_key::PersistenceKey;

fn key() -> PersistenceKey {
    PersistenceKey::new(String::from("p"), String::from("f.json"))
}

#[test]
fn show_uses_an_explicit_key() {
    let cmd = ShowCommand { key: Some(key()) };
    match cmd.select_target(false) {
        KeySelection::Chosen(k) => assert_eq!(k, key()),
        _ => panic!("an explicit key must be used as given"),
    }
}

#[test]
fn show_prompts_when_interactive_without_a_key() {
    let cmd = ShowCommand { key: None };
    assert!(matches!(cmd.select_target(true), KeySelection::PromptUser));
}

#[test]
fn show_fails_without_key_or_interactivity() {
    let cmd = ShowCommand { key: None };
    assert!(matches!(cmd.select_target(false), KeySelection::MissingKey));
}

#[test]
fn clean_selects_like_show() {
    let with_key = CleanCommand { key: Some(key()) };
    assert!(matches!(with_key.select_target(true), KeySelection::Chosen(_)));
    let interactive = CleanCommand { key: None };
    assert!(matches!(interactive.select_target(true), KeySelection::PromptUser));
    let neither = CleanCommand { key: None };
    assert!(matches!(neither.select_target(false), KeySelection::MissingKey));
}
