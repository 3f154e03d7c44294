use libwispha::de::RawNode;
use libwispha::get::{get_value, GetError};
use libwispha::path::NodePath;
use libwispha::tree::{Tree, TreeConfig};

fn doc(props: &[(&str, &str)], children: Option<Vec<RawNode>>) -> RawNode {
    RawNode {
        properties: props.iter().map(|(k, v)| (k.to_string(), v.to_string())).collect(),
        children,
    }
}

fn sample() -> Tree {
    let mut tree = Tree::new(&TreeConfig { project_name: "Proj".to_string() });
    let root = doc(
        &[("description", "root")],
        Some(vec![doc(&[("name", "a")], None), doc(&[("name", "b"), ("description", "B")], None)]),
    );
    tree.insert_nodes_from_raw(&root, "/p/LOOKME.toml".to_string(), None, &vec![]).unwrap();
    tree
}

fn get(tree: &Tree, p: &str, key: &str) -> Result<String, GetError> {
    get_value(tree, &NodePath::from(&p.to_string()).unwrap(), &key.to_string())
}

#[test]
fn get_property_and_synthetic_keys() {
    let tree = sample();
    assert_eq!(get(&tree, "/b", "description").unwrap(), "B");
    assert_eq!(get(&tree, "/b", "path").unwrap(), "/p/b");
    assert_eq!(get(&tree, "/", "path").unwrap(), "/p");
    assert_eq!(get(&tree, "/", "children").unwrap(), "/a\n/b");
    assert_eq!(get(&tree, "/a", "parent").unwrap(), "/");
    assert_eq!(get(&tree, "/a", "record_file").unwrap(), "/p/LOOKME.toml");
}

#[test]
fn get_failures() {
    let tree = sample();
    assert!(matches!(get(&tree, "/", "parent"), Err(GetError::NoParent)));
    match get(&tree, "/a", "colour") {
        Err(GetError::PropertyInexist(k)) => assert_eq!(k, "colour"),
        _ => panic!("expected PropertyInexist"),
    }
}
