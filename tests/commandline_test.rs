use libwispha::commandline::{
    CommandlineConfig, CommandlineOptions, ConfigError, GenerateConfig, GenerateOptions, InteractConfig,
    InteractOptions, LayoutConfig, LayoutOptions,
};
use libwispha::commandline_parser::{to_args, Error};

fn args(s: &str) -> Vec<String> {
    to_args(&s.to_string()).unwrap()
}

#[test]
fn splits_on_white_space() {
    assert_eq!(args("  layout   -d 2 "), vec!["(wispha)", "layout", "-d", "2"]);
    assert_eq!(args(""), vec!["(wispha)"]);
    assert_eq!(args("a\tb\nc"), vec!["(wispha)", "a", "b", "c"]);
}

#[test]
fn quotes_keep_white_space() {
    assert_eq!(args(r#"get -k "my key" x"#), vec!["(wispha)", "get", "-k", "my key", "x"]);
    assert_eq!(args(r#"a"b c"d"#), vec!["(wispha)", "ab cd"]);
    assert_eq!(args(r#""""#), vec!["(wispha)", ""]);
}

#[test]
fn escapes() {
    assert_eq!(args(r#"a\nb \"q\" c\\d \te"#), vec!["(wispha)", "a\nb", "\"q\"", "c\\d", "\te"]);
}

#[test]
fn bad_escape_is_refused() {
    match to_args(&r"a\x".to_string()) {
        Err(Error::IllegalEscapeChar(s)) => assert_eq!(s, r"\x"),
        _ => panic!("expected IllegalEscapeChar"),
    }
    match to_args(&r"a\".to_string()) {
        Err(Error::IllegalEscapeChar(s)) => assert_eq!(s, r"\"),
        _ => panic!("expected IllegalEscapeChar"),
    }
}

#[test]
fn open_quote_is_refused() {
    assert!(matches!(to_args(&r#"get "abc"#.to_string()), Err(Error::UnbalancedQuote)));
}

#[test]
fn commandline_defaults() {
    let opt = CommandlineOptions { layout: None, project_name: None, path: None, keys: None, hide_key: None, file: None };
    let c = CommandlineConfig::from_opt(opt, &"/home/u".to_string()).unwrap();
    assert_eq!(c.layout, "plain");
    assert_eq!(c.project_name, ".");
    assert_eq!(c.path, "/");
    assert!(c.keys.is_empty());
    assert!(!c.hide_key);
    assert_eq!(c.file, "/home/u/LOOKME.toml");
}

#[test]
fn layout_options() {
    let opt = LayoutOptions {
        layout: Some("triangle".to_string()),
        project_name: Some("P".to_string()),
        path: Some("/src".to_string()),
        keys: Some(vec!["k".to_string()]),
        hide_key: true,
        file: Some("docs/L.toml".to_string()),
        depth: None,
    };
    let c = LayoutConfig::from_opt(opt, &"/w/".to_string()).unwrap();
    assert_eq!(c.layout, "triangle");
    assert_eq!(c.path, "/src");
    assert_eq!(c.file, "/w/docs/L.toml");
    assert_eq!(c.depth, 3);
    let bad = LayoutOptions { layout: None, project_name: None, path: Some("src".to_string()), keys: None, hide_key: false, file: None, depth: Some(1) };
    match LayoutConfig::from_opt(bad, &"/w".to_string()) {
        Err(ConfigError::NodePathMustBeAbsolute(p)) => assert_eq!(p, "src"),
        _ => panic!("expected NodePathMustBeAbsolute"),
    }
    let default_layout = LayoutOptions { layout: None, project_name: None, path: None, keys: None, hide_key: false, file: Some("/abs/L.toml".to_string()), depth: Some(1) };
    let d = LayoutConfig::from_opt(default_layout, &"/w".to_string()).unwrap();
    assert_eq!(d.layout, "line");
    assert_eq!(d.file, "/abs/L.toml");
    assert_eq!(d.depth, 1);
}

#[test]
fn generate_and_interact_defaults() {
    let g = GenerateConfig::from_opt(GenerateOptions { path: Some("proj".to_string()), file_name: None }, &"/w".to_string());
    assert_eq!(g.path, "/w/proj");
    assert_eq!(g.file_name, "LOOKME.toml");
    let i = InteractConfig::from_opt(InteractOptions { project_name: None, file: None }, &"/w".to_string());
    assert_eq!(i.project_name, ".");
    assert_eq!(i.file, "/w/LOOKME.toml");
}
