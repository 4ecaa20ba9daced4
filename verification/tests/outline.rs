use std::collections::HashSet;

use poe_vis::outline::{key_outline, strip_key_digits, JsonTree};
use serde_json::Value;

fn tree_of(v: &Value) -> JsonTree {
    match v {
        Value::Object(map) => JsonTree::Object(map.iter().map(|(k, v)| (k.clone(), tree_of(v))).collect()),
        Value::Array(items) => JsonTree::Array(items.iter().map(tree_of).collect()),
        _ => JsonTree::Scalar,
    }
}

fn reference(value: &Value, indent: usize, seen: &mut HashSet<String>, out: &mut Vec<(usize, String)>) {
    if let Some(obj) = value.as_object() {
        for (k, v) in obj.iter() {
            let stripped = k.replace(|c: char| c.is_ascii_digit(), "");
            if seen.insert(stripped.clone()) {
                out.push((indent, stripped));
                reference(v, indent + 2, seen, out);
            }
        }
    } else if let Some(arr) = value.as_array() {
        for elem in arr.iter() {
            reference(elem, indent + 2, seen, out);
        }
    }
}

#[test]
fn keys_print_once_without_their_digits() {
    let data = r#"{"nodes": {"123": {"name": "a", "stats": ["x"]}, "456": {"name": "b", "skill7": 1}},
                  "groups": [{"x1": 1, "orbits": [{"r": 2}]}], "name": 3}"#;
    let value: Value = serde_json::from_str(data).unwrap();
    let mut expected = Vec::new();
    reference(&value, 0, &mut HashSet::new(), &mut expected);
    let lines = key_outline(&tree_of(&value)).expect("shallow enough");
    assert_eq!(lines, expected);
    assert!(lines.contains(&(0, "nodes".to_string())));
    assert!(lines.contains(&(2, "".to_string())));
    assert_eq!(lines.iter().filter(|(_, k)| k == "name").count(), 1);
}

#[test]
fn array_items_are_outlined_further_in() {
    let tree = JsonTree::Array(vec![JsonTree::Object(vec![("a1".to_string(), JsonTree::Scalar)])]);
    assert_eq!(key_outline(&tree), Some(vec![(2, "a".to_string())]));
    let nested = JsonTree::Object(vec![(
        "outer".to_string(),
        JsonTree::Array(vec![JsonTree::Object(vec![("inner".to_string(), JsonTree::Scalar)])]),
    )]);
    assert_eq!(key_outline(&nested), Some(vec![(0, "outer".to_string()), (4, "inner".to_string())]));
    assert_eq!(key_outline(&JsonTree::Scalar), Some(vec![]));
}

#[test]
fn a_key_seen_before_skips_its_value() {
    let tree = JsonTree::Object(vec![
        ("k1".to_string(), JsonTree::Scalar),
        ("k2".to_string(), JsonTree::Object(vec![("hidden".to_string(), JsonTree::Scalar)])),
        ("shown".to_string(), JsonTree::Scalar),
    ]);
    assert_eq!(key_outline(&tree), Some(vec![(0, "k".to_string()), (0, "shown".to_string())]));
}

#[test]
fn digits_are_stripped_from_keys() {
    assert_eq!(strip_key_digits("skill_42x9"), "skill_x");
    assert_eq!(strip_key_digits("1234"), "");
    assert_eq!(strip_key_digits("é٣"), "é٣");
}
