use rconfigure::path::FsPath;
use rconfigure::setting::Setting;
use rconfigure::value::Value;

fn abs(parts: &[&str]) -> FsPath {
    FsPath::new(true, parts.iter().map(|p| p.to_string()).collect())
}

fn table(entries: &[(&str, &str)]) -> Vec<(String, Value)> {
    entries
        .iter()
        .map(|(k, v)| (k.to_string(), Value::Text(v.to_string())))
        .collect()
}

fn text_of(v: &Value) -> String {
    v.stringify().expect("scalar value")
}

fn lookup(map: &[(String, Value)], key: &str) -> Option<String> {
    map.iter().find(|(k, _)| k == key).map(|(_, v)| text_of(v))
}

#[test]
fn compose_specificity_closer_table_wins() {
    let templates = abs(&["cfg", "templates"]);
    let setting = Setting::new(
        "s".to_string(),
        Vec::new(),
        abs(&["cfg", "settings", "s.toml"]),
        table(&[("k3", "from-global")]),
        vec![
            (abs(&["out", "file"]), table(&[("k", "closer")])),
            (abs(&["out"]), table(&[("k", "farther"), ("k2", "ancestor")])),
        ],
        &templates,
    );
    let composed = setting.compose_map(&abs(&["out", "file"]));
    assert_eq!(lookup(&composed, "k"), Some("closer".to_string()));
    assert_eq!(lookup(&composed, "k2"), Some("ancestor".to_string()));
    assert_eq!(lookup(&composed, "k3"), Some("from-global".to_string()));
    assert_eq!(composed.len(), 3);
}

#[test]
fn compose_global_only_equals_global_table() {
    let templates = abs(&["cfg", "templates"]);
    let setting = Setting::new(
        "s".to_string(),
        Vec::new(),
        abs(&["cfg", "settings", "s.toml"]),
        table(&[("a", "1"), ("b", "2")]),
        Vec::new(),
        &templates,
    );
    let composed = setting.compose_map(&abs(&["anything", "at", "all"]));
    assert_eq!(composed.len(), 2);
    assert_eq!(lookup(&composed, "a"), Some("1".to_string()));
    assert_eq!(lookup(&composed, "b"), Some("2".to_string()));
}

#[test]
fn compose_no_matching_table_yields_only_global() {
    let templates = abs(&["cfg", "templates"]);
    let setting = Setting::new(
        "s".to_string(),
        Vec::new(),
        abs(&["cfg", "settings", "s.toml"]),
        table(&[("g", "fallback")]),
        vec![(abs(&["elsewhere"]), table(&[("k", "unrelated")]))],
        &templates,
    );
    let composed = setting.compose_map(&abs(&["out", "file"]));
    assert_eq!(composed.len(), 1);
    assert_eq!(lookup(&composed, "g"), Some("fallback".to_string()));
}

#[test]
fn compose_first_table_wins_on_same_path() {
    let templates = abs(&["cfg", "templates"]);
    let setting = Setting::new(
        "s".to_string(),
        Vec::new(),
        abs(&["cfg", "settings", "s.toml"]),
        Vec::new(),
        vec![
            (abs(&["out"]), table(&[("k", "first")])),
            (abs(&["out"]), table(&[("k", "second"), ("k2", "extra")])),
        ],
        &templates,
    );
    let composed = setting.compose_map(&abs(&["out"]));
    assert_eq!(lookup(&composed, "k"), Some("first".to_string()));
    assert_eq!(lookup(&composed, "k2"), Some("extra".to_string()));
}

#[test]
fn compose_relative_target_is_resolved_against_templates_dir() {
    let templates = abs(&["cfg", "templates"]);
    let setting = Setting::new(
        "s".to_string(),
        Vec::new(),
        abs(&["cfg", "settings", "s.toml"]),
        Vec::new(),
        vec![(
            FsPath::new(false, vec!["rel.conf".to_string()]),
            table(&[("k", "v")]),
        )],
        &templates,
    );
    let composed = setting.compose_map(&abs(&["cfg", "templates", "rel.conf"]));
    assert_eq!(lookup(&composed, "k"), Some("v".to_string()));
}

#[test]
fn stringify_scalars_exactly() {
    assert_eq!(text_of(&Value::Boolean(true)), "true");
    assert_eq!(text_of(&Value::Boolean(false)), "false");
    assert_eq!(text_of(&Value::Integer(0)), "0");
    assert_eq!(text_of(&Value::Integer(-42)), "-42");
    assert_eq!(text_of(&Value::Integer(9007199254740993)), "9007199254740993");
    assert_eq!(text_of(&Value::Integer(i64::MIN)), "-9223372036854775808");
    assert_eq!(text_of(&Value::Float("2.5".to_string())), "2.5");
    assert_eq!(text_of(&Value::Text("plain".to_string())), "plain");
}

#[test]
fn is_script_tells_script_values_apart() {
    let script = rconfigure::value::Value::Script {
        script: "s.rhai".to_string(),
        value: rconfigure::script::ScriptValue::Boolean(true),
    };
    assert!(script.is_script());
    assert!(script.stringify().is_none());
    assert!(!rconfigure::value::Value::Integer(1).is_script());
}
