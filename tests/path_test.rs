use libwispha::error::Error;
use libwispha::path::NodePath;

fn round(s: &str) -> String {
    NodePath::from(&s.to_string()).unwrap().to_string()
}

#[test]
fn path_round_trip() {
    assert_eq!(round("/"), "/");
    assert_eq!(round("/a"), "/a");
    assert_eq!(round("/a/b/c"), "/a/b/c");
    assert_eq!(round("/a b/é"), "/a b/é");
}

#[test]
fn trailing_slash_is_dropped() {
    assert_eq!(round("/a/b/"), "/a/b");
}

#[test]
fn path_components() {
    let p = NodePath::from(&"/ab/cd".to_string()).unwrap();
    assert_eq!(p.components, vec!["ab".to_string(), "cd".to_string()]);
    assert_eq!(p.name().unwrap(), "cd");
    assert_eq!(p.parent().unwrap().to_string(), "/ab");
    assert!(NodePath::new().parent().is_none());
    assert!(NodePath::new().name().is_none());
    assert_eq!(p.push("e".to_string()).to_string(), "/ab/cd/e");
}

#[test]
fn relative_path_is_refused() {
    match NodePath::from(&"a/b".to_string()) {
        Err(Error::NodePathMustBeAbsolute(s)) => assert_eq!(s, "a/b"),
        _ => panic!("expected NodePathMustBeAbsolute"),
    }
    assert!(NodePath::from(&String::new()).is_err());
}
