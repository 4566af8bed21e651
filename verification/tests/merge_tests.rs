use eye_config::json::Json;
use eye_config::merge::merge_json;

fn obj(entries: Vec<(&str, Json)>) -> Json {
    Json::Obj(entries.into_iter().map(|(k, v)| (String::from(k), v)).collect())
}

#[test]
fn user_override_wins_on_scalars() {
    let d = obj(vec![("a", Json::UInt(1)), ("b", Json::UInt(2))]);
    let u = obj(vec![("a", Json::UInt(99)), ("c", Json::UInt(3))]);
    let merged = merge_json(&d, &u);
    let expected = obj(vec![
        ("a", Json::UInt(99)),
        ("b", Json::UInt(2)),
        ("c", Json::UInt(3)),
    ]);
    assert_eq!(merged, expected);
}

#[test]
fn default_only_keys_survive_at_depth() {
    let d = obj(vec![(
        "server",
        obj(vec![
            ("host", Json::Str(String::from("localhost"))),
            ("port", Json::UInt(8080)),
        ]),
    )]);
    let u = obj(vec![("server", obj(vec![("port", Json::UInt(9090))]))]);
    let merged = merge_json(&d, &u);
    let expected = obj(vec![(
        "server",
        obj(vec![
            ("host", Json::Str(String::from("localhost"))),
            ("port", Json::UInt(9090)),
        ]),
    )]);
    assert_eq!(merged, expected);
}

#[test]
fn non_object_user_replaces_whole_default() {
    let d = obj(vec![("a", Json::UInt(1))]);
    let u = Json::UInt(5);
    assert_eq!(merge_json(&d, &u), Json::UInt(5));
}

#[test]
fn arrays_are_atomic() {
    let d = obj(vec![("l", Json::Arr(vec![Json::UInt(1), Json::UInt(2)]))]);
    let u = obj(vec![("l", Json::Arr(vec![Json::UInt(3)]))]);
    let merged = merge_json(&d, &u);
    let expected = obj(vec![("l", Json::Arr(vec![Json::UInt(3)]))]);
    assert_eq!(merged, expected);
}

#[test]
fn null_user_value_wins() {
    let d = obj(vec![("a", Json::UInt(1))]);
    let u = obj(vec![("a", Json::Null)]);
    let merged = merge_json(&d, &u);
    assert_eq!(merged, obj(vec![("a", Json::Null)]));
}

#[test]
fn merge_is_idempotent_on_a_sample() {
    let d = obj(vec![
        ("a", Json::UInt(1)),
        ("nested", obj(vec![("x", Json::Bool(true)), ("y", Json::UInt(2))])),
    ]);
    let u = obj(vec![
        ("a", Json::UInt(99)),
        ("nested", obj(vec![("y", Json::UInt(7))])),
        ("extra", Json::Str(String::from("kept"))),
    ]);
    let once = merge_json(&d, &u);
    let twice = merge_json(&d, &once);
    assert_eq!(twice, once);
}

#[test]
fn merging_a_document_with_itself_changes_nothing() {
    let x = obj(vec![
        ("a", Json::Int(-4)),
        ("b", obj(vec![("c", Json::Str(String::from("v")))])),
    ]);
    let same = obj(vec![
        ("a", Json::Int(-4)),
        ("b", obj(vec![("c", Json::Str(String::from("v")))])),
    ]);
    assert_eq!(merge_json(&x, &same), same);
}
