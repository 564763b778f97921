use plugin_scopes::config::{ConfigKeyMap, ConfigKeyValue};
use plugin_scopes::sorted::sorted_order;
use plugin_scopes::text::{bytes_before, bytes_eq, decimal, str_before, str_eq};

fn text(value: &str) -> ConfigKeyValue {
    ConfigKeyValue::String(value.to_string())
}

#[test]
fn new_map_is_empty() {
    let map = ConfigKeyMap::new();
    assert!(map.is_empty());
    assert_eq!(map.len(), 0);
    assert_eq!(map.get("lineWidth"), None);
    assert_eq!(map.position("lineWidth"), 0);
}

#[test]
fn insert_appends_new_keys_in_order() {
    let mut map = ConfigKeyMap::new();
    map.insert("b".to_string(), ConfigKeyValue::Number(1));
    map.insert("a".to_string(), ConfigKeyValue::Bool(true));
    map.insert("c".to_string(), ConfigKeyValue::Null);
    assert_eq!(map.len(), 3);
    assert!(!map.is_empty());
    assert_eq!(map.entries[0], ("b".to_string(), ConfigKeyValue::Number(1)));
    assert_eq!(map.entries[1], ("a".to_string(), ConfigKeyValue::Bool(true)));
    assert_eq!(map.entries[2], ("c".to_string(), ConfigKeyValue::Null));
    assert_eq!(map.position("a"), 1);
    assert_eq!(map.position("missing"), 3);
}

#[test]
fn insert_of_a_known_key_keeps_its_place() {
    let mut map = ConfigKeyMap::new();
    map.insert("b".to_string(), ConfigKeyValue::Number(1));
    map.insert("a".to_string(), ConfigKeyValue::Number(2));
    map.insert("b".to_string(), text("again"));
    assert_eq!(map.len(), 2);
    assert_eq!(map.entries[0], ("b".to_string(), text("again")));
    assert_eq!(map.entries[1], ("a".to_string(), ConfigKeyValue::Number(2)));
    assert_eq!(map.get("b"), Some(&text("again")));
    assert_eq!(map.get("a"), Some(&ConfigKeyValue::Number(2)));
    assert_eq!(map.get("B"), None);
}

#[test]
fn nested_values_are_kept() {
    let mut inner = ConfigKeyMap::new();
    inner.insert("deep".to_string(), ConfigKeyValue::Array(vec![ConfigKeyValue::Number(-1), ConfigKeyValue::Null]));
    let mut map = ConfigKeyMap::new();
    map.insert("outer".to_string(), ConfigKeyValue::Object(inner));
    match map.get("outer") {
        Some(ConfigKeyValue::Object(found)) => {
            assert_eq!(
                found.get("deep"),
                Some(&ConfigKeyValue::Array(vec![ConfigKeyValue::Number(-1), ConfigKeyValue::Null]))
            );
        }
        other => panic!("unexpected value: {:?}", other),
    }
}

#[test]
fn sorted_order_is_ascending_by_key_bytes() {
    let mut map = ConfigKeyMap::new();
    for key in ["quoteStyle", "lineWidth", "a", "Z", "ab", "é", ""] {
        map.insert(key.to_string(), ConfigKeyValue::Null);
    }
    let order = sorted_order(&map);
    let keys: Vec<&str> = order.iter().map(|place| map.entries[*place].0.as_str()).collect();
    assert_eq!(keys, vec!["", "Z", "a", "ab", "lineWidth", "quoteStyle", "é"]);
}

#[test]
fn sorted_order_of_an_empty_map_is_empty() {
    assert_eq!(sorted_order(&ConfigKeyMap::new()), Vec::<usize>::new());
}

#[test]
fn sorted_order_does_not_depend_on_insertion_order() {
    let mut first = ConfigKeyMap::new();
    let mut second = ConfigKeyMap::new();
    for key in ["c", "a", "b"] {
        first.insert(key.to_string(), text(key));
    }
    for key in ["b", "c", "a"] {
        second.insert(key.to_string(), text(key));
    }
    let in_first: Vec<_> = sorted_order(&first).iter().map(|place| first.entries[*place].clone_entry()).collect();
    let in_second: Vec<_> = sorted_order(&second).iter().map(|place| second.entries[*place].clone_entry()).collect();
    assert_eq!(in_first, in_second);
    assert_eq!(in_first[0].0, "a");
    assert_eq!(in_first[2].0, "c");
}

trait CloneEntry {
    fn clone_entry(&self) -> (String, String);
}

impl CloneEntry for (String, ConfigKeyValue) {
    fn clone_entry(&self) -> (String, String) {
        (self.0.clone(), format!("{:?}", self.1))
    }
}

#[test]
fn texts_are_equal_by_their_characters() {
    assert!(str_eq("", ""));
    assert!(str_eq("typescript", "typescript"));
    assert!(!str_eq("typescript", "typescripT"));
    assert!(!str_eq("ts", "tsx"));
    assert!(str_eq("é", "\u{e9}"));
    assert!(bytes_eq(&[1, 2, 3], &[1, 2, 3]));
    assert!(!bytes_eq(&[1, 2, 3], &[1, 2]));
    assert!(!bytes_eq(&[1, 2, 3], &[1, 2, 4]));
}

#[test]
fn order_is_that_of_a_dictionary() {
    assert!(bytes_before(&[], &[0]));
    assert!(!bytes_before(&[], &[]));
    assert!(!bytes_before(&[0], &[]));
    assert!(bytes_before(&[1, 2], &[1, 3]));
    assert!(bytes_before(&[1, 2], &[1, 2, 0]));
    assert!(!bytes_before(&[2], &[1, 9, 9]));
    assert!(str_before("a", "b"));
    assert!(str_before("a", "ab"));
    assert!(!str_before("b", "a"));
    assert!(!str_before("same", "same"));
    assert!(str_before("Z", "a"));
    for (a, b) in [("a", "b"), ("lineWidth", "line"), ("", "x"), ("é", "z")] {
        assert_eq!(str_before(a, b), a < b);
        assert_eq!(str_before(b, a), b < a);
    }
}

#[test]
fn decimal_text_of_numbers() {
    assert_eq!(decimal(0), "0");
    assert_eq!(decimal(7), "7");
    assert_eq!(decimal(10), "10");
    assert_eq!(decimal(1234567890), "1234567890");
    assert_eq!(decimal(usize::MAX), usize::MAX.to_string());
}
