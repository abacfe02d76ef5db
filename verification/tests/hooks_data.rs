use rconfigure::hook::Hook;
use rconfigure::hooks::Hooks;
use rconfigure::path::FsPath;

#[test]
fn hook_carries_its_parts() {
    let hook = Hook::new(
        "notify-send".to_string(),
        Some("/tmp".to_string()),
        vec!["done".to_string()],
        vec![("SHELL".to_string(), None), ("MODE".to_string(), Some("quiet".to_string()))],
    );
    assert_eq!(hook.cmd().as_str(), "notify-send");
    assert_eq!(hook.cwd().as_deref(), Some("/tmp"));
    assert_eq!(hook.args().len(), 1);
    assert_eq!(hook.args()[0].as_str(), "done");
    assert_eq!(hook.env().len(), 2);
    assert_eq!(hook.env()[0].0.as_str(), "SHELL");
    assert!(hook.env()[0].1.is_none());
    let copy = hook.dup();
    assert_eq!(copy.cmd().as_str(), "notify-send");
    assert_eq!(copy.env()[1].1.as_deref(), Some("quiet"));
}

#[test]
fn hooks_table_keeps_named_bundles_in_order() {
    let cmd = |c: &str| Hook::new(c.to_string(), None, Vec::new(), Vec::new());
    let hooks = Hooks::new(
        vec![
            ("reload".to_string(), vec![cmd("a"), cmd("b")]),
            ("notify".to_string(), vec![cmd("c")]),
        ],
        FsPath::new(true, vec!["cfg".to_string(), "hooks".to_string(), "h".to_string()]),
    );
    assert_eq!(hooks.len(), 2);
    assert_eq!(hooks.name_at(0).as_str(), "reload");
    assert_eq!(hooks.name_at(1).as_str(), "notify");
    let commands = hooks.commands_at(0);
    assert_eq!(commands.len(), 2);
    assert_eq!(commands[0].cmd().as_str(), "a");
    assert_eq!(commands[1].cmd().as_str(), "b");
    assert_eq!(hooks.commands_at(1).len(), 1);
}

#[test]
fn with_toml_appended_extends_the_file_name() {
    let p = FsPath::new(true, vec!["base".to_string(), "s.cfg".to_string()]);
    let q = p.with_toml_appended().expect("has a file name");
    assert!(q.matches(&FsPath::new(
        true,
        vec!["base".to_string(), "s.cfg.toml".to_string()]
    )));
    assert!(FsPath::root().with_toml_appended().is_none());
}

#[test]
fn file_name_is_the_last_component() {
    let p = FsPath::new(true, vec!["a".to_string(), "b".to_string()]);
    assert_eq!(p.file_name().expect("named").as_str(), "b");
    assert!(FsPath::root().file_name().is_none());
    assert_eq!(p.depth(), 2);
    assert!(p.is_absolute());
}
