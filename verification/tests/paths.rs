use rconfigure::active::{get_active_profile, set_active_profile, unset_active_profile};
use rconfigure::dirs::{
    config_dir, hooks_dir, profiles_dir, scripts_dir, settings_dir, templates_dir, Error as DirError,
};
use rconfigure::path::{force_absolute, resolve, Error as PathError, FsPath};
use rconfigure::strmap::{map_contains, map_get, map_set};

fn abs(parts: &[&str]) -> FsPath {
    FsPath::new(true, parts.iter().map(|p| p.to_string()).collect())
}

fn rel(parts: &[&str]) -> FsPath {
    FsPath::new(false, parts.iter().map(|p| p.to_string()).collect())
}

#[test]
fn force_absolute_keeps_absolute_paths() {
    let p = force_absolute(&abs(&["etc", "x"]), &abs(&["base"]));
    assert!(p.matches(&abs(&["etc", "x"])));
}

#[test]
fn force_absolute_prefixes_relative_paths() {
    let p = force_absolute(&rel(&["sub", "x"]), &abs(&["base"]));
    assert!(p.matches(&abs(&["base", "sub", "x"])));
}

#[test]
fn parent_walks_to_root() {
    let p = abs(&["a", "b"]);
    let p1 = p.parent().expect("has parent");
    assert!(p1.matches(&abs(&["a"])));
    let p2 = p1.parent().expect("has parent");
    assert!(p2.matches(&FsPath::root()));
    assert!(p2.parent().is_none());
}

#[test]
fn resolve_prefers_the_path_as_given() {
    let r = resolve(&rel(&["s"]), &abs(&["base"]), true, true).expect("resolves");
    assert!(r.matches(&abs(&["base", "s"])));
}

#[test]
fn resolve_falls_back_to_toml() {
    let r = resolve(&rel(&["s"]), &abs(&["base"]), false, true).expect("resolves");
    assert!(r.matches(&abs(&["base", "s.toml"])));
}

#[test]
fn resolve_missing_pair_names_both_candidates() {
    match resolve(&rel(&["s.cfg"]), &abs(&["base"]), false, false) {
        Err(PathError::FilesNotFound { name, name_toml, path }) => {
            assert_eq!(name.as_str(), "s.cfg");
            assert_eq!(name_toml.as_str(), "s.cfg.toml");
            assert!(path.matches(&abs(&["base"])));
        }
        _ => panic!("expected the two-candidate error"),
    }
}

#[test]
fn resolve_missing_toml_file_names_one_candidate() {
    match resolve(&rel(&["s.toml"]), &abs(&["base"]), false, false) {
        Err(PathError::FileNotFound { name, .. }) => {
            assert_eq!(name.as_str(), "s.toml");
        }
        _ => panic!("expected the one-candidate error"),
    }
}

#[test]
fn resolve_root_has_no_file_name() {
    match resolve(&FsPath::root(), &abs(&["base"]), false, false) {
        Err(PathError::RootOrPrefix(p)) => assert!(p.matches(&FsPath::root())),
        _ => panic!("expected the root error"),
    }
}

#[test]
fn config_dirs_are_fixed_names_under_the_os_dir() {
    let os = abs(&["home", "u", ".config"]);
    let cfg = config_dir(Some(&os)).expect("config dir");
    assert!(cfg.matches(&abs(&["home", "u", ".config", "rconfigure"])));
    assert!(hooks_dir(&cfg).matches(&abs(&["home", "u", ".config", "rconfigure", "hooks"])));
    assert!(profiles_dir(&cfg).matches(&abs(&["home", "u", ".config", "rconfigure", "profiles"])));
    assert!(scripts_dir(&cfg).matches(&abs(&["home", "u", ".config", "rconfigure", "scripts"])));
    assert!(settings_dir(&cfg).matches(&abs(&["home", "u", ".config", "rconfigure", "settings"])));
    assert!(
        templates_dir(&cfg).matches(&abs(&["home", "u", ".config", "rconfigure", "templates"]))
    );
}

#[test]
fn config_dir_without_os_dir_is_an_error() {
    match config_dir(None) {
        Err(DirError::NoOSConfigDir) => {}
        _ => panic!("expected the missing-OS-dir error"),
    }
}

#[test]
fn active_profile_round_trip() {
    let active = set_active_profile(&rel(&["work"]), &abs(&["cfg", "profiles"]));
    assert!(active.is_active());
    let chosen = get_active_profile(&active).expect("active");
    assert!(chosen.matches(&abs(&["cfg", "profiles", "work"])));
    let off = unset_active_profile(&active);
    assert!(!off.is_active());
    assert!(get_active_profile(&off).is_none());
    assert!(off.profile().matches(&abs(&["cfg", "profiles", "work"])));
}

#[test]
fn map_set_overwrites_and_map_get_finds_first() {
    let mut m: Vec<(String, String)> = Vec::new();
    map_set(&mut m, "k".to_string(), "one".to_string());
    map_set(&mut m, "other".to_string(), "x".to_string());
    map_set(&mut m, "k".to_string(), "two".to_string());
    assert_eq!(map_get(&m, "k").expect("bound").as_str(), "two");
    assert_eq!(map_get(&m, "other").expect("bound").as_str(), "x");
    assert!(map_get(&m, "absent").is_none());
    assert!(map_contains(&m, "k"));
    assert!(!map_contains(&m, "absent"));
}
