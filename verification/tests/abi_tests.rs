use anime_dm_addons::abi::{config, set_config, ConfigStore, ABI_VERSION};
use anime_dm_addons::json::JsonValue;

#[test]
fn abi_version_is_one() {
    assert_eq!(ABI_VERSION, 1);
}

#[test]
fn empty_store_has_no_setting() {
    let store = ConfigStore::new();
    assert_eq!(config(&store, "base_url"), None);
}

#[test]
fn config_reads_what_set_config_pushed() {
    let mut store = ConfigStore::new();
    set_config(&mut store, r#"{"base_url":"https://fs03.lol/","preferred_lang":"vostfr"}"#);
    assert_eq!(config(&store, "base_url"), Some("https://fs03.lol/".to_string()));
    assert_eq!(config(&store, "preferred_lang"), Some("vostfr".to_string()));
    assert_eq!(config(&store, "quality"), None);
}

#[test]
fn empty_setting_reads_as_absent() {
    let mut store = ConfigStore::new();
    set_config(&mut store, r#"{"base_url":""}"#);
    assert_eq!(config(&store, "base_url"), None);
}

#[test]
fn a_new_push_replaces_every_setting() {
    let mut store = ConfigStore::new();
    set_config(&mut store, r#"{"a":"1","b":"2"}"#);
    set_config(&mut store, r#"{"b":"3"}"#);
    assert_eq!(config(&store, "a"), None);
    assert_eq!(config(&store, "b"), Some("3".to_string()));
}

#[test]
fn invalid_settings_text_clears_the_store() {
    let mut store = ConfigStore::new();
    set_config(&mut store, r#"{"a":"1"}"#);
    set_config(&mut store, "not json");
    assert_eq!(config(&store, "a"), None);
    set_config(&mut store, r#"{"a":1}"#);
    assert_eq!(config(&store, "a"), None);
}

#[test]
fn from_entries_first_match_wins() {
    let store = ConfigStore::from_entries(vec![
        ("k".to_string(), "first".to_string()),
        ("k".to_string(), "second".to_string()),
    ]);
    assert_eq!(config(&store, "k"), Some("first".to_string()));
}

#[test]
fn json_value_navigation() {
    let v = JsonValue::Object(vec![
        (
            "data".to_string(),
            JsonValue::Array(vec![JsonValue::Object(vec![(
                "mal_id".to_string(),
                JsonValue::Number(Some(21)),
            )])]),
        ),
        ("name".to_string(), JsonValue::String("x".to_string())),
    ]);
    let first = v.get("data").and_then(|d| d.at(0)).unwrap();
    assert_eq!(first.get("mal_id").and_then(|m| m.as_i64()), Some(21));
    assert_eq!(v.str_member("name"), Some(&"x".to_string()));
    assert!(v.get("missing").is_none());
    assert!(v.get("data").and_then(|d| d.at(1)).is_none());
    assert!(JsonValue::Null.as_str().is_none());
}
