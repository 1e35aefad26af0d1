use stack_store::{contains_bytes, StackStore};

#[test]
fn test_set_and_get() {
    let mut store = StackStore::new();
    store.set("test", "value1".into());
    store.set("test", "value2".into());

    let value = store.get("test").unwrap();
    assert_eq!(value, r#"["value1","value2"]"#);
}

#[test]
fn test_get_non_existent_key() {
    let store = StackStore::new();
    assert!(store.get("nonexistent").is_none());
}

#[test]
fn test_iter_filter() {
    let mut store = StackStore::new();
    store.set("apple1", "fruit".into());
    store.set("banana2", "fruit".into());
    store.set("carrot3", "vegetable".into());

    let results = store.iter("na");
    assert_eq!(results, Some(r#"[["banana2",["fruit"]]]"#.to_string()));
}

#[test]
fn test_del_stack() {
    let mut store = StackStore::new();
    store.set("temp", "data".into());
    assert!(store.del_stack("temp"));
    assert!(!store.del_stack("temp"));
}

#[test]
fn test_empty_stack() {
    let mut store = StackStore::new();
    store.set("empty", "".into());
    let result = store.get("empty");
    assert_eq!(result, Some(r#"[""]"#.to_string()));
}

#[test]
fn test_multiple_stacks() {
    let mut store = StackStore::new();
    store.set("stack1", "a".into());
    store.set("stack1", "b".into());
    store.set("stack2", "x".into());
    store.set("stack2", "y".into());

    let stack1 = store.get("stack1").unwrap();
    let stack2 = store.get("stack2").unwrap();

    assert_eq!(stack1, r#"["a","b"]"#);
    assert_eq!(stack2, r#"["x","y"]"#);
}

#[test]
fn pushed_value_is_last_in_snapshot() {
    let mut store = StackStore::new();
    store.set("k", "first".into());
    store.set("k", "second".into());
    store.set("k", "third".into());
    let text = store.get("k").unwrap();
    assert!(text.ends_with(r#""third"]"#));
    assert_eq!(text, r#"["first","second","third"]"#);
}

#[test]
fn dropped_key_stays_absent_until_pushed_again() {
    let mut store = StackStore::new();
    store.set("gone", "1".into());
    assert!(store.del_stack("gone"));
    assert_eq!(store.get("gone"), None);
    store.set("other", "2".into());
    assert!(!store.del_stack("missing"));
    assert_eq!(store.get("gone"), None);
    store.set("gone", "3".into());
    assert_eq!(store.get("gone"), Some(r#"["3"]"#.to_string()));
}

#[test]
fn drop_is_true_once_per_creation() {
    let mut store = StackStore::new();
    assert!(!store.del_stack("t"));
    store.set("t", "a".into());
    store.set("t", "b".into());
    assert!(store.del_stack("t"));
    assert!(!store.del_stack("t"));
    store.set("t", "c".into());
    assert!(store.del_stack("t"));
    assert!(!store.del_stack("t"));
}

#[test]
fn pushes_under_one_key_keep_their_order() {
    let mut store = StackStore::new();
    store.set("k", "v1".into());
    store.set("j", "other".into());
    store.set("k", "v2".into());
    assert_eq!(store.get("k"), Some(r#"["v1","v2"]"#.to_string()));
    store.set("k", "v3".into());
    assert_eq!(store.get("k"), Some(r#"["v1","v2","v3"]"#.to_string()));
}

#[test]
fn filter_selects_present_matching_keys() {
    let mut store = StackStore::new();
    store.set("alpha", "1".into());
    store.set("beta", "2".into());
    store.set("alphabet", "3".into());
    store.del_stack("alphabet");
    assert_eq!(store.iter("ph"), Some(r#"[["alpha",["1"]]]"#.to_string()));
    assert_eq!(store.iter("zzz"), Some("[]".to_string()));
    assert_eq!(store.iter("beta"), Some(r#"[["beta",["2"]]]"#.to_string()));
}

#[test]
fn empty_filter_lists_every_key() {
    let mut store = StackStore::new();
    store.set("a", "1".into());
    store.set("b", "2".into());
    store.set("b", "3".into());
    let text = store.iter("").unwrap();
    let one = r#"[["a",["1"]],["b",["2","3"]]]"#;
    let other = r#"[["b",["2","3"]],["a",["1"]]]"#;
    assert!(text == one || text == other, "{}", text);
}

#[test]
fn empty_store_filter_is_empty_array() {
    let store = StackStore::new();
    assert_eq!(store.iter(""), Some("[]".to_string()));
    assert_eq!(store.iter("x"), Some("[]".to_string()));
}

#[test]
fn filtered_entry_matches_single_snapshot() {
    let mut store = StackStore::new();
    store.set("job-7", "start".into());
    store.set("job-7", "step \"two\"".into());
    let one = store.get("job-7").unwrap();
    let all = store.iter("job").unwrap();
    assert_eq!(all, format!(r#"[["job-7",{}]]"#, one));
}

#[test]
fn many_pushes_under_one_key_keep_every_value() {
    let mut store = StackStore::new();
    for i in [3, 0, 7, 1, 9, 4, 2, 8, 5, 6] {
        store.set("counter", i.to_string());
    }
    let value = store.get("counter").unwrap();
    assert_eq!(value, r#"["3","0","7","1","9","4","2","8","5","6"]"#);
    for i in 0..10 {
        assert!(value.contains(&format!("\"{}\"", i)));
    }
    assert_eq!(value.matches(',').count(), 9);
}

#[test]
fn values_are_escaped_as_json_strings() {
    let mut store = StackStore::new();
    store.set("esc", "a\"b\\c\nd".into());
    assert_eq!(store.get("esc"), Some(r#"["a\"b\\c\nd"]"#.to_string()));
    store.set("k\"q", "v".into());
    assert_eq!(store.iter("\""), Some(r#"[["k\"q",["v"]]]"#.to_string()));
}

#[test]
fn control_characters_use_short_or_hex_escapes() {
    let mut store = StackStore::new();
    store.set("ctl", "\u{1}\t\r\u{8}\u{c}/\u{1f}\u{7f}é".into());
    assert_eq!(
        store.get("ctl"),
        Some("[\"\\u0001\\t\\r\\b\\f/\\u001f\u{7f}é\"]".to_string())
    );
}

#[test]
fn matching_entries_follow_the_given_keys() {
    let mut store = StackStore::new();
    store.set("ab", "1".into());
    store.set("cab", "2".into());
    store.set("zz", "3".into());
    let keys = vec!["cab".to_string(), "missing-ab".to_string(), "zz".to_string(), "ab".to_string()];
    let r = store.matching_entries(&keys, "ab");
    assert_eq!(
        r,
        vec![
            ("cab".to_string(), vec!["2".to_string()]),
            ("ab".to_string(), vec!["1".to_string()]),
        ]
    );
    assert_eq!(store.matching_entries(&keys, "").len(), 3);
}

#[test]
fn default_store_is_empty() {
    let store = StackStore::default();
    assert_eq!(store.get(""), None);
    assert_eq!(store.iter(""), Some("[]".to_string()));
}

#[test]
fn byte_substring_search() {
    assert!(contains_bytes(b"banana2", b"na"));
    assert!(contains_bytes(b"abc", b""));
    assert!(contains_bytes(b"", b""));
    assert!(contains_bytes(b"abc", b"abc"));
    assert!(!contains_bytes(b"ab", b"abc"));
    assert!(!contains_bytes(b"apple1", b"na"));
    assert!(contains_bytes("größe".as_bytes(), "ö".as_bytes()));
    assert!(contains_bytes("größe".as_bytes(), &[0xb6, 0xc3]));
    assert!(!contains_bytes("größe".as_bytes(), &[0xb6, 0x65]));
}
