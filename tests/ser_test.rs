use libwispha::de::RawNode;
use libwispha::error::Error;
use libwispha::node::{DirectNode, LinkNode, Node, NodeProperties};
use libwispha::path::NodePath;
use libwispha::tree::{Tree, TreeConfig};

fn to_value(doc: &RawNode) -> toml::Value {
    let mut table = toml::value::Table::new();
    for (key, value) in &doc.properties {
        table.insert(key.clone(), toml::Value::String(value.clone()));
    }
    if let Some(children) = &doc.children {
        table.insert("children".to_string(), toml::Value::Array(children.iter().map(to_value).collect()));
    }
    toml::Value::Table(table)
}

fn two_node_tree() -> Tree {
    let config = TreeConfig { project_name: String::from("TestProject") };
    let mut tree = Tree::new(&config);
    let root_path = NodePath::new();
    let subnode1_path = root_path.push(String::from("subnode1"));
    let root = Node::Direct(DirectNode {
        children: vec![subnode1_path.clone()],
        node_properties: NodeProperties {
            name: "TestProject".to_string(),
            parent: None,
            record_file: "LOOKME.toml".to_string(),
        },
        properties: vec![("description".to_string(), "Project directory".to_string())],
    });
    tree.insert_node(root_path.clone(), root);
    let subnode1 = Node::Direct(DirectNode {
        children: vec![],
        node_properties: NodeProperties {
            name: "subnode1".to_string(),
            parent: Some(root_path.clone()),
            record_file: "LOOKME.toml".to_string(),
        },
        properties: vec![("description".to_string(), "subnode1".to_string())],
    });
    tree.insert_node(subnode1_path, subnode1);
    tree
}

fn to_json(doc: &RawNode) -> serde_json::Value {
    let mut map = serde_json::Map::new();
    for (key, value) in &doc.properties {
        map.insert(key.clone(), serde_json::Value::String(value.clone()));
    }
    if let Some(children) = &doc.children {
        map.insert("children".to_string(), serde_json::Value::Array(children.iter().map(to_json).collect()));
    }
    serde_json::Value::Object(map)
}

#[test]
fn to_json_test() {
    let tree = two_node_tree();
    let doc = tree.to_raw().unwrap();
    let string = serde_json::to_string(&to_json(&doc));
    assert!(string.is_ok())
}

#[test]
fn to_toml_test() {
    let tree = two_node_tree();
    let doc = tree.to_raw().unwrap();
    let string = toml::to_string(&to_value(&doc));
    assert!(string.is_ok())
}

#[test]
fn ser_test_none_tree_test() {
    let tree = Tree::new(&TreeConfig { project_name: "My Project".to_string() });
    let res = tree.to_raw();
    if let Err(error) = res {
        match error {
            Error::EmptyTree => assert!(true),
            _ => assert!(false),
        }
    } else {
        assert!(false)
    }
}

#[test]
fn serialized_document_layout() {
    let tree = two_node_tree();
    let doc = tree.to_raw().unwrap();
    assert_eq!(
        doc.properties,
        vec![
            ("name".to_string(), "TestProject".to_string()),
            ("description".to_string(), "Project directory".to_string()),
        ]
    );
    let children = doc.children.unwrap();
    assert_eq!(children.len(), 1);
    assert_eq!(children[0].properties[0], ("name".to_string(), "subnode1".to_string()));
    assert!(children[0].children.is_none());
}

#[test]
fn round_trip_reproduces_tree() {
    let tree = two_node_tree();
    let doc = tree.to_raw().unwrap();
    let text = toml::to_string(&to_value(&doc)).unwrap();
    let value: toml::Value = toml::from_str(&text).unwrap();
    let back = libwispha_test_parse(&value);
    let mut again = Tree::new(&TreeConfig { project_name: "TestProject".to_string() });
    again.insert_nodes_from_raw(&back, "LOOKME.toml".to_string(), None, &vec![]).unwrap();
    let sub = NodePath::from(&"/subnode1".to_string()).unwrap();
    match (again.root().unwrap(), again.get_node(&sub).unwrap()) {
        (Node::Direct(r), Node::Direct(c)) => {
            assert_eq!(r.node_properties.name, "TestProject");
            assert_eq!(r.children.len(), 1);
            assert_eq!(r.children[0].to_string(), "/subnode1");
            assert_eq!(r.properties, vec![("description".to_string(), "Project directory".to_string())]);
            assert_eq!(c.node_properties.name, "subnode1");
            assert!(c.children.is_empty());
            assert_eq!(c.properties, vec![("description".to_string(), "subnode1".to_string())]);
        }
        _ => panic!("both nodes must be direct"),
    }
}

#[test]
fn link_serializes_its_target() {
    let mut tree = Tree::new(&TreeConfig { project_name: "P".to_string() });
    let root = NodePath::new();
    let link = Node::Link(LinkNode {
        node_properties: NodeProperties { name: "P".to_string(), parent: None, record_file: "/a/LOOKME.toml".to_string() },
        target: "b/LOOKME.toml".to_string(),
    });
    tree.insert_node(root, link);
    let doc = tree.to_raw().unwrap();
    assert_eq!(
        doc.properties,
        vec![
            ("name".to_string(), "P".to_string()),
            ("type".to_string(), "Link".to_string()),
            ("target".to_string(), "b/LOOKME.toml".to_string()),
        ]
    );
}

#[test]
fn missing_child_fails_serialization() {
    let mut tree = Tree::new(&TreeConfig { project_name: "P".to_string() });
    let root = NodePath::new();
    let node = Node::Direct(DirectNode {
        children: vec![root.push("gone".to_string())],
        node_properties: NodeProperties { name: "P".to_string(), parent: None, record_file: "LOOKME.toml".to_string() },
        properties: vec![],
    });
    tree.insert_node(root, node);
    match tree.to_raw() {
        Err(Error::PathNotFound(p)) => assert_eq!(p.to_string(), "/gone"),
        _ => panic!("expected PathNotFound"),
    }
}

fn libwispha_test_parse(v: &toml::Value) -> RawNode {
    let table = v.as_table().unwrap();
    let mut properties = Vec::new();
    let mut children = None;
    for (key, value) in table {
        if key == "children" {
            children = Some(value.as_array().unwrap().iter().map(libwispha_test_parse).collect());
        } else {
            properties.push((key.clone(), value.as_str().unwrap().to_string()));
        }
    }
    RawNode { properties, children }
}
