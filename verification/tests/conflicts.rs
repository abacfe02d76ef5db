use rconfigure::path::FsPath;
use rconfigure::profile::Profile;
use rconfigure::setting::Setting;
use rconfigure::value::Value;

fn abs(parts: &[&str]) -> FsPath {
    FsPath::new(true, parts.iter().map(|p| p.to_string()).collect())
}

fn setting_with_targets(name: &str, targets: &[&[&str]]) -> Setting {
    Setting::new(
        name.to_string(),
        Vec::new(),
        abs(&["cfg", "settings", name]),
        Vec::new(),
        targets
            .iter()
            .map(|t| (abs(t), Vec::<(String, Value)>::new()))
            .collect(),
        &abs(&["cfg", "templates"]),
    )
}

fn profile_of(settings: Vec<Setting>) -> Profile {
    Profile::new(
        "p".to_string(),
        abs(&["cfg", "profiles", "p"]),
        settings,
        Vec::new(),
    )
}

#[test]
fn conflict_detection_is_symmetric() {
    let shared: &[&str] = &["out", "shared"];
    let a = || setting_with_targets("a", &[&["out", "only-a"], shared]);
    let b = || setting_with_targets("b", &[shared, &["out", "only-b"]]);

    let (s1, s2, p) = profile_of(vec![a(), b()])
        .setting_conflict(None)
        .expect("conflict");
    assert_eq!(s1.name().as_str(), "a");
    assert_eq!(s2.name().as_str(), "b");
    assert!(p.matches(&abs(shared)));

    let (s1, s2, p) = profile_of(vec![b(), a()])
        .setting_conflict(None)
        .expect("conflict");
    assert_eq!(s1.name().as_str(), "b");
    assert_eq!(s2.name().as_str(), "a");
    assert!(p.matches(&abs(shared)));
}

#[test]
fn no_conflict_with_disjoint_targets() {
    let a = setting_with_targets("a", &[&["out", "one"]]);
    let b = setting_with_targets("b", &[&["out", "two"]]);
    assert!(profile_of(vec![a, b]).setting_conflict(None).is_none());
}

#[test]
fn candidate_conflicts_are_reported_against_the_owner() {
    let a = setting_with_targets("a", &[&["out", "one"]]);
    let profile = profile_of(vec![a]);
    let candidate = setting_with_targets("c", &[&["out", "one"]]);
    let (s1, s2, p) = profile
        .setting_conflict(Some(&candidate))
        .expect("conflict");
    assert_eq!(s1.name().as_str(), "a");
    assert_eq!(s2.name().as_str(), "c");
    assert!(p.matches(&abs(&["out", "one"])));
}

#[test]
fn setting_conflicting_with_itself_is_found() {
    let twice = setting_with_targets("twice", &[&["out", "dup"], &["out", "dup"]]);
    let (s1, s2, _) = profile_of(vec![twice]).setting_conflict(None).expect("conflict");
    assert_eq!(s1.name().as_str(), "twice");
    assert_eq!(s2.name().as_str(), "twice");
}

#[test]
fn enable_setting_replaces_the_conflicting_owner() {
    let a = setting_with_targets("a", &[&["out", "one"]]);
    let b = setting_with_targets("b", &[&["out", "two"]]);
    let mut profile = profile_of(vec![a, b]);
    let candidate = setting_with_targets("c", &[&["out", "one"]]);
    profile.enable_setting(candidate).expect("enables");
    let names: Vec<String> = profile
        .settings()
        .iter()
        .map(|s| s.name().clone())
        .collect();
    assert_eq!(names, vec!["b".to_string(), "c".to_string()]);
}

#[test]
fn enable_setting_without_conflict_appends() {
    let a = setting_with_targets("a", &[&["out", "one"]]);
    let mut profile = profile_of(vec![a]);
    let candidate = setting_with_targets("c", &[&["out", "two"]]);
    profile.enable_setting(candidate).expect("enables");
    assert_eq!(profile.settings().len(), 2);
    assert_eq!(profile.settings()[1].name().as_str(), "c");
}

#[test]
fn enable_self_conflicting_candidate_is_refused() {
    let mut profile = profile_of(Vec::new());
    let candidate = setting_with_targets("dup", &[&["out", "x"], &["out", "x"]]);
    match profile.enable_setting(candidate) {
        Err((s1, s2, _)) => {
            assert_eq!(s1.name().as_str(), "dup");
            assert_eq!(s2.name().as_str(), "dup");
        }
        Ok(()) => panic!("expected the self-conflict to be refused"),
    }
    assert_eq!(profile.settings().len(), 0);
}

#[test]
fn disable_setting_removes_by_path() {
    let a = setting_with_targets("a", &[&["out", "one"]]);
    let b = setting_with_targets("b", &[&["out", "two"]]);
    let mut profile = profile_of(vec![a, b]);
    profile.disable_setting(&abs(&["cfg", "settings", "a"]));
    assert_eq!(profile.settings().len(), 1);
    assert_eq!(profile.settings()[0].name().as_str(), "b");
}
