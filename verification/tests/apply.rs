use rconfigure::path::FsPath;
use rconfigure::profile::{Error as ProfileError, Profile};
use rconfigure::setting::{Error as SettingError, Setting};
use rconfigure::value::Value;

fn abs(parts: &[&str]) -> FsPath {
    FsPath::new(true, parts.iter().map(|p| p.to_string()).collect())
}

fn table(entries: &[(&str, &str)]) -> Vec<(String, Value)> {
    entries
        .iter()
        .map(|(k, v)| (k.to_string(), Value::Text(v.to_string())))
        .collect()
}

fn setting_for(
    name: &str,
    targets: Vec<(FsPath, Vec<(String, Value)>)>,
    global: Vec<(String, Value)>,
) -> Setting {
    Setting::new(
        name.to_string(),
        Vec::new(),
        abs(&["cfg", "settings", name]),
        global,
        targets,
        &abs(&["cfg", "templates"]),
    )
}

#[test]
fn apply_stages_rendered_targets_in_order() {
    let t1 = abs(&["cfg", "templates", "one"]);
    let t2 = abs(&["cfg", "templates", "two"]);
    let setting = setting_for(
        "s",
        vec![
            (t1.dup(), table(&[("a", "alpha")])),
            (t2.dup(), table(&[("b", "beta")])),
        ],
        Vec::new(),
    );
    let templates = vec![
        (t1, "/out/one\nvalue: {{a}}".to_string()),
        (t2, "/out/two\n[{{b}}]".to_string()),
    ];
    let staged = setting.apply(&templates, "/cfg/scripts").expect("stages");
    assert_eq!(staged.len(), 2);
    assert_eq!(staged[0].0.as_str(), "/out/one");
    assert_eq!(staged[0].1.as_str(), "value: alpha");
    assert_eq!(staged[1].0.as_str(), "/out/two");
    assert_eq!(staged[1].1.as_str(), "[beta]");
}

#[test]
fn apply_is_all_or_nothing_when_one_target_fails() {
    // the second of two targets fails to render: nothing at all is staged,
    // so the first target's file is never touched
    let t1 = abs(&["cfg", "templates", "one"]);
    let t2 = abs(&["cfg", "templates", "two"]);
    let setting = setting_for(
        "s",
        vec![
            (t1.dup(), table(&[("a", "alpha")])),
            (t2.dup(), table(&[("b", "beta")])),
        ],
        Vec::new(),
    );
    let templates = vec![
        (t1, "/out/one\nvalue: {{a}}".to_string()),
        (t2, "/out/two\n{{not_provided}}".to_string()),
    ];
    match setting.apply(&templates, "/cfg/scripts") {
        Err(SettingError::Template { target, .. }) => {
            assert!(target.matches(&abs(&["cfg", "templates", "two"])));
        }
        _ => panic!("expected the second target's render error"),
    }
}

#[test]
fn apply_missing_template_is_an_error() {
    let t1 = abs(&["cfg", "templates", "one"]);
    let setting = setting_for("s", vec![(t1, table(&[("a", "1")]))], Vec::new());
    match setting.apply(&Vec::new(), "/cfg/scripts") {
        Err(SettingError::MissingTemplate { target }) => {
            assert!(target.matches(&abs(&["cfg", "templates", "one"])));
        }
        _ => panic!("expected a missing-template error"),
    }
}

#[test]
fn apply_failing_script_aborts_with_its_path() {
    let t1 = abs(&["cfg", "templates", "one"]);
    let setting = setting_for(
        "s",
        vec![(
            t1.dup(),
            vec![(
                "derived".to_string(),
                Value::Script {
                    script: "no_such_script.rhai".to_string(),
                    value: rconfigure::script::ScriptValue::Integer(1),
                },
            )],
        )],
        Vec::new(),
    );
    let templates = vec![(t1, "/out/one\n{{derived}}".to_string())];
    match setting.apply(&templates, "/nonexistent/scripts") {
        Err(SettingError::ScriptFailed { script }) => {
            assert_eq!(script.as_str(), "/nonexistent/scripts/no_such_script.rhai");
        }
        _ => panic!("expected a script failure"),
    }
}

#[test]
fn apply_twice_is_byte_identical() {
    let t1 = abs(&["cfg", "templates", "one"]);
    let setting = setting_for(
        "s",
        vec![(t1.dup(), table(&[("a", "alpha")]))],
        table(&[("g", "global")]),
    );
    let templates = vec![(t1, "/out/one\n{{a}} and {{g}}".to_string())];
    let first = setting.apply(&templates, "/cfg/scripts").expect("stages");
    let second = setting.apply(&templates, "/cfg/scripts").expect("stages");
    assert_eq!(first, second);
}

#[test]
fn profile_apply_concatenates_setting_stages() {
    let t1 = abs(&["cfg", "templates", "one"]);
    let t2 = abs(&["cfg", "templates", "two"]);
    let s1 = setting_for("s1", vec![(t1.dup(), table(&[("a", "1")]))], Vec::new());
    let s2 = setting_for("s2", vec![(t2.dup(), table(&[("b", "2")]))], Vec::new());
    let profile = Profile::new(
        "p".to_string(),
        abs(&["cfg", "profiles", "p"]),
        vec![s1, s2],
        Vec::new(),
    );
    let templates = vec![
        (t1, "/out/one\na={{a}}".to_string()),
        (t2, "/out/two\nb={{b}}".to_string()),
    ];
    let staged = profile.apply(&templates, "/cfg/scripts").expect("stages");
    assert_eq!(staged.len(), 2);
    assert_eq!(staged[0].0.as_str(), "/out/one");
    assert_eq!(staged[0].1.as_str(), "a=1");
    assert_eq!(staged[1].0.as_str(), "/out/two");
    assert_eq!(staged[1].1.as_str(), "b=2");
}

#[test]
fn profile_apply_aborts_on_conflict() {
    let shared = abs(&["cfg", "templates", "one"]);
    let s1 = setting_for("first", vec![(shared.dup(), table(&[("a", "1")]))], Vec::new());
    let s2 = setting_for("second", vec![(shared.dup(), table(&[("b", "2")]))], Vec::new());
    let profile = Profile::new(
        "p".to_string(),
        abs(&["cfg", "profiles", "p"]),
        vec![s1, s2],
        Vec::new(),
    );
    let templates = vec![(shared, "/out/one\nplain".to_string())];
    match profile.apply(&templates, "/cfg/scripts") {
        Err(ProfileError::Conflict { setting1, setting2, target }) => {
            assert_eq!(setting1.as_str(), "first");
            assert_eq!(setting2.as_str(), "second");
            assert!(target.matches(&abs(&["cfg", "templates", "one"])));
        }
        _ => panic!("expected a conflict"),
    }
}

#[test]
fn hook_sequence_orders_setting_hooks_before_profile_hooks() {
    let hook = |cmd: &str| {
        rconfigure::hook::Hook::new(cmd.to_string(), None, Vec::new(), Vec::new())
    };
    let t1 = abs(&["cfg", "templates", "one"]);
    let s1 = Setting::new(
        "s1".to_string(),
        vec![hook("s1-hook")],
        abs(&["cfg", "settings", "s1"]),
        Vec::new(),
        vec![(t1, Vec::new())],
        &abs(&["cfg", "templates"]),
    );
    let profile = Profile::new(
        "p".to_string(),
        abs(&["cfg", "profiles", "p"]),
        vec![s1],
        vec![hook("profile-hook")],
    );
    let hooks = profile.hook_sequence();
    assert_eq!(hooks.len(), 2);
    assert_eq!(hooks[0].cmd().as_str(), "s1-hook");
    assert_eq!(hooks[1].cmd().as_str(), "profile-hook");
}

#[test]
fn profile_apply_reports_the_failing_setting_by_name() {
    let t1 = abs(&["cfg", "templates", "one"]);
    let s1 = setting_for("broken", vec![(t1.dup(), table(&[("a", "1")]))], Vec::new());
    let profile = Profile::new(
        "p".to_string(),
        abs(&["cfg", "profiles", "p"]),
        vec![s1],
        Vec::new(),
    );
    let templates = vec![(t1, "/out/one\n{{unbound}}".to_string())];
    match profile.apply(&templates, "/cfg/scripts") {
        Err(ProfileError::Setting { setting, .. }) => {
            assert_eq!(setting.as_str(), "broken");
        }
        _ => panic!("expected the failing setting to be reported"),
    }
}
