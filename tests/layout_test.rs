use libwispha::de::RawNode;
use libwispha::layout::{LineLayout, PlainLayout, TriangleLayout};
use libwispha::path::NodePath;
use libwispha::tree::{Tree, TreeConfig};

fn doc(props: &[(&str, &str)], children: Option<Vec<RawNode>>) -> RawNode {
    RawNode {
        properties: props.iter().map(|(k, v)| (k.to_string(), v.to_string())).collect(),
        children,
    }
}

fn sample() -> Tree {
    let mut tree = Tree::new(&TreeConfig { project_name: "Proj".to_string() });
    let root = doc(
        &[("description", "root"), ("owner", "me")],
        Some(vec![
            doc(&[("name", "a"), ("description", "A")], None),
            doc(&[("name", "b")], Some(vec![doc(&[("name", "c"), ("description", "C")], None)])),
        ]),
    );
    tree.insert_nodes_from_raw(&root, "/p/LOOKME.toml".to_string(), None, &vec![]).unwrap();
    tree
}

fn desc() -> Vec<String> {
    vec!["description".to_string()]
}

#[test]
fn plain_layout_text() {
    let tree = sample();
    let text = PlainLayout::layout(&tree, &NodePath::new(), 2, &desc(), false);
    let expected = [
        "Proj         description: root",
        "    a        description: A",
        "    b        ",
        "        c    description: C",
    ]
    .join("\n");
    assert_eq!(text, expected);
}

#[test]
fn plain_layout_depth_limit() {
    let tree = sample();
    let text = PlainLayout::layout(&tree, &NodePath::new(), 0, &desc(), true);
    assert_eq!(text, "Proj    root");
}

#[test]
fn plain_layout_several_keys() {
    let tree = sample();
    let keys = vec!["description".to_string(), "owner".to_string()];
    let text = PlainLayout::layout(&tree, &NodePath::new(), 0, &keys, true);
    assert_eq!(text, "Proj    description: root\t\towner: me\t\t");
}

#[test]
fn line_layout_text() {
    let tree = sample();
    let text = LineLayout::layout(&tree, &NodePath::new(), 2, &desc(), false);
    let expected = [
        "Proj         description: root",
        "├── a        description: A",
        "└── b        ",
        "│   └── c    description: C",
    ]
    .join("\n");
    assert_eq!(text, expected);
}

#[test]
fn triangle_layout_text() {
    let tree = sample();
    let text = TriangleLayout::layout(&tree, &NodePath::new(), 2, &desc(), true);
    assert_eq!(text, "▾ Proj\t\troot\n  a\t\tA\n  ▾ b\n    c\t\tC");
    let shallow = TriangleLayout::layout(&tree, &NodePath::new(), 1, &desc(), false);
    assert_eq!(shallow, "▾ Proj\t\tdescription: root\n  a\t\tdescription: A\n  b");
}

#[test]
fn layout_names() {
    assert_eq!(PlainLayout::info().name, "plain");
    assert_eq!(LineLayout::info().name, "line");
    assert_eq!(TriangleLayout::info().name, "triangle");
    assert_eq!(TriangleLayout::info().version, "1.0");
}
