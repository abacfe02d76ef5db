use rconfigure::path::FsPath;
use rconfigure::template::{Error, Template};

fn abs(parts: &[&str]) -> FsPath {
    FsPath::new(true, parts.iter().map(|p| p.to_string()).collect())
}

fn map(entries: &[(&str, &str)]) -> Vec<(String, String)> {
    entries
        .iter()
        .map(|(k, v)| (k.to_string(), v.to_string()))
        .collect()
}

#[test]
fn render_round_trip() {
    let t = Template::new(
        abs(&["tpl"]),
        "/out/file\nhello {{name}}",
        map(&[("name", "world")]),
    )
    .expect("template parses");
    assert_eq!(t.output().as_str(), "/out/file");
    assert_eq!(t.content().as_str(), "hello {{name}}");
    assert_eq!(t.far().expect("renders"), "hello world");
}

#[test]
fn render_missing_key_is_reported_by_name() {
    let t = Template::new(abs(&["tpl"]), "/out/file\n{{missing}}", Vec::new())
        .expect("template parses");
    match t.far() {
        Err(Error::MissingKeys { keys, .. }) => {
            assert_eq!(keys.len(), 1);
            assert_eq!(keys[0].as_str(), "missing");
        }
        _ => panic!("expected a missing-key error"),
    }
}

#[test]
fn render_collects_every_missing_key() {
    let t = Template::new(
        abs(&["tpl"]),
        "/out\n{{a}} {{known}} {{b}} {{a}}",
        map(&[("known", "yes")]),
    )
    .expect("template parses");
    match t.far() {
        Err(Error::MissingKeys { keys, .. }) => {
            let names: Vec<&str> = keys.iter().map(|k| k.as_str()).collect();
            assert_eq!(names, vec!["a", "b", "a"]);
        }
        _ => panic!("expected a missing-key error"),
    }
}

#[test]
fn render_unclosed_placeholder_is_an_error() {
    let t = Template::new(abs(&["tpl"]), "/out\nbefore {{key after", map(&[("key", "v")]))
        .expect("template parses");
    match t.far() {
        Err(Error::UnclosedPlaceholder { at, .. }) => assert_eq!(at, 7),
        _ => panic!("expected an unclosed-placeholder error"),
    }
}

#[test]
fn render_replaces_every_occurrence() {
    let t = Template::new(
        abs(&["tpl"]),
        "/out\n{{x}}-{{x}}{{y}}",
        map(&[("x", "1"), ("y", "2")]),
    )
    .expect("template parses");
    assert_eq!(t.far().expect("renders"), "1-12");
}

#[test]
fn empty_template_is_an_error() {
    match Template::new(abs(&["tpl"]), "", Vec::new()) {
        Err(Error::EmptyTemplateError(_)) => {}
        _ => panic!("expected the empty-template error"),
    }
}

#[test]
fn header_only_template_renders_empty_body() {
    let t = Template::new(abs(&["tpl"]), "/out/file", Vec::new()).expect("template parses");
    assert_eq!(t.output().as_str(), "/out/file");
    assert_eq!(t.far().expect("renders"), "");
}

#[test]
fn blank_lines_after_header_are_skipped() {
    let t = Template::new(abs(&["tpl"]), "/out\n\n  \t\nbody line\n\nmore", Vec::new())
        .expect("template parses");
    assert_eq!(t.content().as_str(), "body line\n\nmore");
}

#[test]
fn carriage_returns_are_stripped_from_lines() {
    let t = Template::new(abs(&["tpl"]), "/out\r\nbody\r\nnext", Vec::new())
        .expect("template parses");
    assert_eq!(t.output().as_str(), "/out");
    assert_eq!(t.content().as_str(), "body\nnext");
}
