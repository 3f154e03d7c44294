use libwispha::de::RawNode;
use libwispha::error::Error;
use libwispha::manipulator::repeats_load;
use libwispha::node::{LinkNode, Node, NodeProperties};
use libwispha::path::NodePath;
use libwispha::tree::{Tree, TreeConfig};

fn doc(props: &[(&str, &str)], children: Option<Vec<RawNode>>) -> RawNode {
    RawNode {
        properties: props.iter().map(|(k, v)| (k.to_string(), v.to_string())).collect(),
        children,
    }
}

fn path(s: &str) -> NodePath {
    NodePath::from(&s.to_string()).unwrap()
}

/// Root `/` with a direct child `a` and a link child `b` to `b/LOOKME.toml`.
fn linked_tree() -> Tree {
    let mut tree = Tree::new(&TreeConfig { project_name: "Proj".to_string() });
    let root = doc(
        &[("description", "root")],
        Some(vec![
            doc(&[("name", "a")], None),
            doc(&[("name", "b"), ("type", "Link"), ("target", "b/LOOKME.toml")], None),
        ]),
    );
    tree.insert_nodes_from_raw(&root, "/proj/LOOKME.toml".to_string(), None, &vec![]).unwrap();
    tree
}

fn b_document() -> RawNode {
    doc(&[("description", "bee")], Some(vec![doc(&[("name", "c"), ("type", "Link"), ("target", "c.toml")], None)]))
}

/// What an outside loop does: load pending links until the path is direct.
fn resolve(tree: &mut Tree, p: &NodePath, load: &dyn Fn(&LinkNode) -> (String, RawNode)) -> Result<(), Error> {
    loop {
        match tree.pending_link(p)? {
            None => return Ok(()),
            Some(link) => {
                let (from, raw) = load(&link);
                tree.load_link(&link, from, &raw, &vec![])?;
            }
        }
    }
}

#[test]
fn direct_path_needs_nothing() {
    let tree = linked_tree();
    assert!(tree.pending_link(&path("/a")).unwrap().is_none());
}

#[test]
fn link_is_reported_then_replaced() {
    let mut tree = linked_tree();
    let link = tree.pending_link(&path("/b")).unwrap().unwrap();
    assert_eq!(link.node_properties.name, "b");
    assert_eq!(link.target_path(), "/proj/b/LOOKME.toml");
    tree.load_link(&link, link.target_path(), &b_document(), &vec![]).unwrap();
    match tree.get_node(&path("/b")).unwrap() {
        Node::Direct(d) => {
            assert_eq!(d.node_properties.name, "b");
            assert_eq!(d.node_properties.record_file, "/proj/b/LOOKME.toml");
            assert!(d.properties.contains(&("description".to_string(), "bee".to_string())));
        }
        Node::Link(_) => panic!("the link must be replaced"),
    }
    assert!(tree.pending_link(&path("/b")).unwrap().is_none());
    assert!(matches!(tree.get_node(&path("/b/c")).unwrap(), Node::Link(_)));
}

#[test]
fn absent_path_resolves_through_its_parent() {
    let tree = linked_tree();
    let link = tree.pending_link(&path("/b/c")).unwrap().unwrap();
    assert_eq!(link.node_properties.name, "b");
}

#[test]
fn absent_path_under_direct_parent_is_not_found() {
    let tree = linked_tree();
    match tree.pending_link(&path("/a/zzz")) {
        Err(Error::PathNotFound(p)) => assert_eq!(p.to_string(), "/a/zzz"),
        _ => panic!("expected PathNotFound"),
    }
    let empty = Tree::new(&TreeConfig { project_name: "P".to_string() });
    assert!(matches!(empty.pending_link(&NodePath::new()), Err(Error::PathNotFound(_))));
}

#[test]
fn self_target_is_a_loop() {
    let mut tree = linked_tree();
    let link = tree.pending_link(&path("/b")).unwrap().unwrap();
    let res = tree.load_link(&link, "/proj/LOOKME.toml".to_string(), &b_document(), &vec![]);
    match res {
        Err(Error::LoopTarget(p)) => assert_eq!(p, "/proj/LOOKME.toml"),
        _ => panic!("expected LoopTarget"),
    }
    assert!(matches!(tree.get_node(&path("/b")).unwrap(), Node::Link(_)));
}

#[test]
fn resolved_path_stays_direct() {
    let mut tree = linked_tree();
    let loader = |l: &LinkNode| {
        if l.node_properties.name == "b" {
            (l.target_path(), b_document())
        } else {
            (l.target_path(), doc(&[("description", "sea")], None))
        }
    };
    resolve(&mut tree, &path("/b"), &loader).unwrap();
    assert!(matches!(tree.get_node(&path("/b")).unwrap(), Node::Direct(_)));
    resolve(&mut tree, &path("/b/c"), &loader).unwrap();
    assert!(matches!(tree.get_node(&path("/b")).unwrap(), Node::Direct(_)));
    assert!(matches!(tree.get_node(&path("/b/c")).unwrap(), Node::Direct(_)));
    resolve(&mut tree, &path("/b"), &loader).unwrap();
    assert!(matches!(tree.get_node(&path("/b")).unwrap(), Node::Direct(_)));
    tree.clear();
    assert!(tree.get_node(&path("/b")).is_none());
}

#[test]
fn depth_zero_looks_at_the_node_only() {
    let mut tree = Tree::new(&TreeConfig { project_name: "Proj".to_string() });
    let root = doc(&[("type", "Link"), ("target", "real.toml")], None);
    tree.insert_nodes_from_raw(&root, "/proj/LOOKME.toml".to_string(), None, &vec![]).unwrap();
    let link = tree.pending_in_depth(&NodePath::new(), 0).unwrap().unwrap();
    assert_eq!(link.target_path(), "/proj/real.toml");
    let real = doc(&[], Some(vec![doc(&[("name", "x"), ("type", "Link"), ("target", "x.toml")], None)]));
    tree.load_link(&link, link.target_path(), &real, &vec![]).unwrap();
    assert!(tree.pending_in_depth(&NodePath::new(), 0).unwrap().is_none());
    assert!(matches!(tree.root().unwrap(), Node::Direct(_)));
    assert!(matches!(tree.get_node(&path("/x")).unwrap(), Node::Link(_)));
    let next = tree.pending_in_depth(&NodePath::new(), 1).unwrap().unwrap();
    assert_eq!(next.node_properties.name, "x");
}

#[test]
fn depth_search_goes_in_child_order() {
    let tree = linked_tree();
    assert!(tree.pending_in_depth(&path("/a"), 5).unwrap().is_none());
    let first = tree.pending_in_depth(&NodePath::new(), 1).unwrap().unwrap();
    assert_eq!(first.node_properties.name, "b");
    assert!(tree.pending_in_depth(&NodePath::new(), 0).unwrap().is_none());
}

#[test]
fn absolute_target_is_kept() {
    let l = LinkNode {
        node_properties: NodeProperties {
            name: "n".to_string(),
            parent: None,
            record_file: "/x/y/LOOKME.toml".to_string(),
        },
        target: "/elsewhere/doc.toml".to_string(),
    };
    assert_eq!(l.target_path(), "/elsewhere/doc.toml");
}

#[test]
fn root_link_keeps_its_own_name() {
    let mut tree = Tree::new(&TreeConfig { project_name: "Proj".to_string() });
    let root = NodePath::new();
    let link = Node::Link(LinkNode {
        node_properties: NodeProperties { name: "Elsewhere".to_string(), parent: None, record_file: "/p/LOOKME.toml".to_string() },
        target: "real.toml".to_string(),
    });
    tree.insert_node(root.clone(), link);
    let l = tree.pending_link(&root).unwrap().unwrap();
    tree.load_link(&l, l.target_path(), &doc(&[("description", "d")], None), &vec![]).unwrap();
    match tree.root().unwrap() {
        Node::Direct(d) => {
            assert_eq!(d.node_properties.name, "Elsewhere");
            assert_eq!(d.node_properties.record_file, "/p/real.toml");
        }
        Node::Link(_) => panic!("the root must be direct"),
    }
}

#[test]
fn repeated_load_is_a_cycle() {
    let trail = vec![(path("/b"), "/proj/b.toml".to_string()), (path("/b"), "/proj/a.toml".to_string())];
    assert!(repeats_load(&trail, &path("/b"), &"/proj/b.toml".to_string()));
    assert!(!repeats_load(&trail, &path("/c"), &"/proj/b.toml".to_string()));
    assert!(!repeats_load(&trail, &path("/b"), &"/proj/c.toml".to_string()));
    assert!(!repeats_load(&vec![], &path("/b"), &"/proj/b.toml".to_string()));
}
