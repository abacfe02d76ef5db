use rconfigure::script::{flatten, ScriptValue};

fn entry(v: &[(String, String)], i: usize) -> (&str, &str) {
    (v[i].0.as_str(), v[i].1.as_str())
}

#[test]
fn flatten_nested_tables_joins_keys_with_dots() {
    let v = ScriptValue::Table(vec![(
        "a".to_string(),
        ScriptValue::Table(vec![(
            "b".to_string(),
            ScriptValue::Table(vec![("c".to_string(), ScriptValue::Integer(1))]),
        )]),
    )]);
    let flat = flatten("x", &v);
    assert_eq!(flat.len(), 1);
    assert_eq!(entry(&flat, 0), ("x.a.b.c", "1"));
}

#[test]
fn flatten_scalar_is_a_single_entry() {
    let flat = flatten("name", &ScriptValue::Boolean(true));
    assert_eq!(flat.len(), 1);
    assert_eq!(entry(&flat, 0), ("name", "true"));
}

#[test]
fn flatten_array_uses_zero_based_indices() {
    let v = ScriptValue::Array(vec![
        ScriptValue::Text("first".to_string()),
        ScriptValue::Integer(-3),
        ScriptValue::Array(vec![ScriptValue::Text("deep".to_string())]),
    ]);
    let flat = flatten("arr", &v);
    assert_eq!(flat.len(), 3);
    assert_eq!(entry(&flat, 0), ("arr.0", "first"));
    assert_eq!(entry(&flat, 1), ("arr.1", "-3"));
    assert_eq!(entry(&flat, 2), ("arr.2.0", "deep"));
}

#[test]
fn flatten_table_entries_keep_declaration_order() {
    let v = ScriptValue::Table(vec![
        ("b".to_string(), ScriptValue::Integer(2)),
        ("a".to_string(), ScriptValue::Float("0.5".to_string())),
    ]);
    let flat = flatten("m", &v);
    assert_eq!(flat.len(), 2);
    assert_eq!(entry(&flat, 0), ("m.b", "2"));
    assert_eq!(entry(&flat, 1), ("m.a", "0.5"));
}

#[test]
fn flatten_empty_table_yields_nothing() {
    let flat = flatten("m", &ScriptValue::Table(Vec::new()));
    assert_eq!(flat.len(), 0);
}
