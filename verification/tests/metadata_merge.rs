use ironclaw_memory::metadata::merge_metadata_fields;
use serde_json::Value;

fn obj(pairs: Vec<(&str, Value)>) -> Value {
    let mut m = serde_json::Map::new();
    for (k, v) in pairs {
        m.insert(k.to_string(), v);
    }
    Value::Object(m)
}

fn fields(v: &Value) -> Option<Vec<(String, Value)>> {
    match v {
        Value::Object(m) => Some(m.iter().map(|(k, v)| (k.clone(), v.clone())).collect()),
        _ => None,
    }
}

fn merge(base: &Value, overlay: &Value) -> Value {
    Value::Object(merge_metadata_fields(fields(base), fields(overlay)).into_iter().collect())
}

#[test]
fn test_document_metadata_merge() {
    let hygiene = obj(vec![("enabled", Value::Bool(true)), ("retention_days", Value::from(30))]);
    let base = obj(vec![("skip_indexing", Value::Bool(false)), ("hygiene", hygiene.clone())]);
    let overlay = obj(vec![("skip_indexing", Value::Bool(true)), ("skip_versioning", Value::Bool(true))]);
    let merged = merge(&base, &overlay);
    assert_eq!(merged.get("skip_indexing"), Some(&Value::Bool(true)));
    assert_eq!(merged.get("skip_versioning"), Some(&Value::Bool(true)));
    assert_eq!(merged.get("hygiene"), Some(&hygiene));
}

#[test]
fn test_document_metadata_merge_empty_base() {
    let merged = merge(&obj(vec![]), &obj(vec![("skip_indexing", Value::Bool(true))]));
    assert_eq!(merged.get("skip_indexing"), Some(&Value::Bool(true)));
}

#[test]
fn test_document_metadata_merge_null_overlay_value() {
    let base = obj(vec![("skip_indexing", Value::Bool(true))]);
    let overlay = obj(vec![("skip_indexing", Value::Null)]);
    let merged = merge(&base, &overlay);
    assert_eq!(merged.get("skip_indexing"), Some(&Value::Null));
}

#[test]
fn test_document_metadata_merge_nested_hygiene_replaced_wholesale() {
    let base = obj(vec![(
        "hygiene",
        obj(vec![("enabled", Value::Bool(true)), ("retention_days", Value::from(30))]),
    )]);
    let new_hygiene = obj(vec![("enabled", Value::Bool(false))]);
    let overlay = obj(vec![("hygiene", new_hygiene.clone())]);
    let merged = merge(&base, &overlay);
    assert_eq!(merged.get("hygiene"), Some(&new_hygiene));
}

#[test]
fn test_document_metadata_merge_both_empty() {
    assert_eq!(merge(&obj(vec![]), &obj(vec![])), obj(vec![]));
}

#[test]
fn test_document_metadata_merge_non_object_base() {
    let merged = merge(&Value::String("string".to_string()), &obj(vec![("a", Value::from(1))]));
    assert_eq!(merged, obj(vec![("a", Value::from(1))]));
}

#[test]
fn later_duplicate_fields_win_and_keys_stay_distinct() {
    let r = merge_metadata_fields(
        Some(vec![("a".to_string(), Value::from(1)), ("b".to_string(), Value::from(2))]),
        Some(vec![("b".to_string(), Value::from(3)), ("c".to_string(), Value::from(4))]),
    );
    assert_eq!(
        r,
        vec![
            ("a".to_string(), Value::from(1)),
            ("b".to_string(), Value::from(3)),
            ("c".to_string(), Value::from(4)),
        ]
    );
}
