use libwispha::de::RawNode;
use libwispha::error::Error;
use libwispha::node::Node;
use libwispha::path::NodePath;
use libwispha::tree::{Tree, TreeConfig};

fn raw_from_value(v: &toml::Value) -> Result<RawNode, String> {
    let table = v.as_table().ok_or_else(|| "a document must be a table".to_string())?;
    let mut properties = Vec::new();
    let mut children = None;
    for (key, value) in table {
        if key == "children" {
            let list = value.as_array().ok_or_else(|| "children must be a list".to_string())?;
            let mut docs = Vec::new();
            for child in list {
                docs.push(raw_from_value(child)?);
            }
            children = Some(docs);
        } else {
            let text = value.as_str().ok_or_else(|| format!("{} must be a string", key))?;
            properties.push((key.clone(), text.to_string()));
        }
    }
    Ok(RawNode { properties, children })
}

fn parse(text: &str) -> RawNode {
    let value: toml::Value = toml::from_str(text).unwrap();
    raw_from_value(&value).unwrap()
}

fn project_tree() -> Tree {
    Tree::new(&TreeConfig { project_name: "Project".to_string() })
}

#[test]
fn de_test_empty_str() {
    let toml_str = "";
    let mut tree = project_tree();
    let res = tree.insert_nodes_from_raw(&parse(toml_str), "LOOKME.toml".to_string(), None, &vec![]);
    assert!(res.is_ok());
    match tree.root().unwrap() {
        Node::Direct(d) => {
            assert_eq!(d.node_properties.name, "Project");
            assert!(d.node_properties.parent.is_none());
            assert!(d.children.is_empty());
            assert!(d.properties.is_empty());
        }
        Node::Link(_) => panic!("the root of an empty document must be direct"),
    }
}

#[test]
fn de_test_default_type() {
    let toml_str = r#"description = "Root file""#;
    let mut tree = project_tree();
    tree.insert_nodes_from_raw(&parse(toml_str), "LOOKME.toml".to_string(), None, &vec![]).unwrap();
    if let Node::Direct(_) = tree.root().unwrap() {
        assert!(true);
    } else {
        assert!(false);
    }
}

#[test]
fn de_test_lack_target() {
    let toml_str = r#"type = "Link""#;
    let mut tree = project_tree();
    let res = tree.insert_nodes_from_raw(&parse(toml_str), "LOOKME.toml".to_string(), None, &vec![]);
    if let Err(error) = res {
        match error {
            Error::LackTarget => assert!(true),
            _ => assert!(false),
        }
    } else {
        assert!(false)
    }
    assert!(tree.root().is_none());
}

#[test]
fn unknown_type_is_refused() {
    let mut tree = project_tree();
    let res = tree.insert_nodes_from_raw(&parse(r#"type = "Folder""#), "LOOKME.toml".to_string(), None, &vec![]);
    match res {
        Err(Error::UnknownType(t)) => assert_eq!(t, "Folder"),
        _ => panic!("expected UnknownType"),
    }
}

#[test]
fn child_without_name_is_refused() {
    let text = "description = \"root\"\n[[children]]\ndescription = \"nameless\"\n";
    let mut tree = project_tree();
    let res = tree.insert_nodes_from_raw(&parse(text), "LOOKME.toml".to_string(), None, &vec![]);
    assert!(matches!(res, Err(Error::LackName)));
    assert!(tree.root().is_none());
}

#[test]
fn reserved_key_is_refused() {
    let keys = libwispha::get::preserved_keys();
    assert_eq!(keys, vec!["path".to_string(), "parent".to_string(), "record_file".to_string()]);
    let mut tree = project_tree();
    let res = tree.insert_nodes_from_raw(&parse(r#"parent = "x""#), "LOOKME.toml".to_string(), None, &keys);
    match res {
        Err(Error::PreservedKey(k)) => assert_eq!(k, "parent"),
        _ => panic!("expected PreservedKey"),
    }
}

#[test]
fn reserved_key_in_child_is_refused() {
    let text = "[[children]]\nname = \"a\"\nrecord_file = \"x\"\n";
    let mut tree = project_tree();
    let keys = libwispha::get::preserved_keys();
    let res = tree.insert_nodes_from_raw(&parse(text), "LOOKME.toml".to_string(), None, &keys);
    assert!(matches!(res, Err(Error::PreservedKey(ref k)) if k == "record_file"));
}

#[test]
fn nested_document_scenario() {
    let text = "name = \"Proj\"\ndescription = \"root\"\n[[children]]\nname = \"child1\"\ndescription = \"c1\"\n";
    let mut tree = Tree::new(&TreeConfig { project_name: "Proj".to_string() });
    let top = tree.insert_nodes_from_raw(&parse(text), "/p/LOOKME.toml".to_string(), None, &vec![]).unwrap();
    assert!(matches!(top, Node::Direct(_)));
    let root = tree.root().unwrap();
    let child_path = NodePath::from(&"/child1".to_string()).unwrap();
    let child = tree.get_node(&child_path).unwrap();
    match (root, child) {
        (Node::Direct(r), Node::Direct(c)) => {
            assert_eq!(r.children.len(), 1);
            assert_eq!(r.children[0].to_string(), "/child1");
            assert_eq!(c.node_properties.name, "child1");
            assert!(c.properties.contains(&("description".to_string(), "c1".to_string())));
            assert!(r.properties.contains(&("description".to_string(), "root".to_string())));
        }
        _ => panic!("both nodes must be direct"),
    }
    assert_eq!(tree.get_node_path(child).to_string(), "/child1");
    assert_eq!(tree.get_node_path(root).to_string(), "/");
    assert_eq!(tree.get_path_buf(&child_path).unwrap(), "/p/child1");
}

#[test]
fn given_name_wins_over_recorded_name() {
    let mut tree = project_tree();
    tree.insert_nodes_from_raw(&parse(r#"name = "Other""#), "LOOKME.toml".to_string(), None, &vec![]).unwrap();
    assert_eq!(tree.root().unwrap().node_properties().name, "Project");
}

#[test]
fn name_is_not_kept_as_a_property() {
    let text = "name = \"Proj\"\nk = \"v\"\n[[children]]\nname = \"c\"\n";
    let mut tree = Tree::new(&TreeConfig { project_name: "Proj".to_string() });
    tree.insert_nodes_from_raw(&parse(text), "LOOKME.toml".to_string(), None, &vec![]).unwrap();
    match tree.root().unwrap() {
        Node::Direct(d) => assert_eq!(d.properties, vec![("k".to_string(), "v".to_string())]),
        Node::Link(_) => panic!("the root must be direct"),
    }
    match tree.get_node(&NodePath::from(&"/c".to_string()).unwrap()).unwrap() {
        Node::Direct(d) => assert!(d.properties.is_empty()),
        Node::Link(_) => panic!("the child must be direct"),
    }
}

#[test]
fn duplicate_keys_are_detected() {
    let unique = RawNode {
        properties: vec![("a".to_string(), "1".to_string()), ("b".to_string(), "2".to_string())],
        children: Some(vec![RawNode { properties: vec![("a".to_string(), "3".to_string())], children: None }]),
    };
    assert!(unique.has_unique_keys());
    let twice = RawNode {
        properties: vec![("a".to_string(), "1".to_string())],
        children: Some(vec![RawNode {
            properties: vec![("x".to_string(), "1".to_string()), ("x".to_string(), "2".to_string())],
            children: None,
        }]),
    };
    assert!(!twice.has_unique_keys());
}
