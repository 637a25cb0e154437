use libra::prefixes::PrefixStore;

#[test]
fn default_prefix_everywhere_at_first() {
    let store = PrefixStore::new("!".to_string());
    assert_eq!(store.prefix_for(Some(1)), "!");
    assert_eq!(store.prefix_for(None), "!");
}

#[test]
fn set_prefix_is_used_and_local() {
    let mut store = PrefixStore::new("!".to_string());
    assert_eq!(store.prefix_reply(Some("?")), "Changed prefix to `?`.");
    store.apply_prefix_command(7, Some("?"));
    assert_eq!(store.prefix_for(Some(7)), "?");
    assert_eq!(store.prefix_for(Some(8)), "!");
    assert_eq!(store.prefix_for(None), "!");
}

#[test]
fn reset_prefix_restores_default() {
    let mut store = PrefixStore::new("!".to_string());
    store.apply_prefix_command(7, Some("$$"));
    store.apply_prefix_command(9, Some("%"));
    assert_eq!(store.prefix_reply(None), "Reset prefix to `!`.");
    store.apply_prefix_command(7, None);
    assert_eq!(store.prefix_for(Some(7)), "!");
    assert_eq!(store.prefix_for(Some(9)), "%");
}

#[test]
fn last_prefix_command_wins() {
    let mut store = PrefixStore::new("!".to_string());
    store.apply_prefix_command(3, Some("a"));
    store.apply_prefix_command(3, Some("b"));
    assert_eq!(store.prefix_for(Some(3)), "b");
    store.apply_prefix_command(3, None);
    store.apply_prefix_command(3, Some("c"));
    assert_eq!(store.prefix_for(Some(3)), "c");
}

#[test]
fn json_is_read() {
    let store = PrefixStore::from_json("!".to_string(), r#"{"123": "?", "456": ">>"}"#).unwrap();
    assert_eq!(store.prefix_for(Some(123)), "?");
    assert_eq!(store.prefix_for(Some(456)), ">>");
    assert_eq!(store.prefix_for(Some(789)), "!");
}

#[test]
fn bad_json_gives_no_prefixes() {
    assert!(PrefixStore::from_json("!".to_string(), "not json").is_none());
    assert!(PrefixStore::from_json("!".to_string(), r#"{"abc": "?"}"#).is_none());
    assert!(PrefixStore::from_json("!".to_string(), r#"{"1": 5}"#).is_none());
    let empty = PrefixStore::from_json("!".to_string(), "{}").unwrap();
    assert_eq!(empty.prefix_for(Some(123)), "!");
    assert_eq!(empty.to_json(), "{}");
}

#[test]
fn json_is_written_and_read_back() {
    let mut store = PrefixStore::new("!".to_string());
    store.apply_prefix_command(20, Some("b"));
    store.apply_prefix_command(10, Some("a"));
    let text = store.to_json();
    assert_eq!(text, r#"{"10":"a","20":"b"}"#);
    let back = PrefixStore::from_json("?".to_string(), &text).unwrap();
    assert_eq!(back.prefix_for(Some(10)), "a");
    assert_eq!(back.prefix_for(Some(20)), "b");
    assert_eq!(back.prefix_for(Some(30)), "?");
}

#[test]
fn json_keys_read_as_guild_ids() {
    let store = PrefixStore::from_json("!".to_string(), r#"{"+5": "a", "06": "b"}"#).unwrap();
    assert_eq!(store.prefix_for(Some(5)), "a");
    assert_eq!(store.prefix_for(Some(6)), "b");
}

#[test]
fn saved_prefixes_read_back_unchanged() {
    let mut store = PrefixStore::new("!".to_string());
    store.apply_prefix_command(18446744073709551615, Some("\"quoted\" \\ \u{1F600}"));
    store.apply_prefix_command(0, Some(""));
    let back = PrefixStore::from_json("?".to_string(), &store.to_json()).unwrap();
    assert_eq!(back.prefix_for(Some(18446744073709551615)), "\"quoted\" \\ \u{1F600}");
    assert_eq!(back.prefix_for(Some(0)), "");
    assert_eq!(back.to_json(), store.to_json());
}
