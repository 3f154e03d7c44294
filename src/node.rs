use vstd::prelude::*;

use crate::path::NodePath;

verus! {

/// The view of a sequence of paths.
pub open spec fn path_views(v: Seq<NodePath>) -> Seq<Seq<Seq<char>>> {
    v.map_values(|p: NodePath| p@)
}

/// The view of a sequence of key/value string pairs.
pub open spec fn pair_views(v: Seq<(String, String)>) -> Seq<(Seq<char>, Seq<char>)> {
    v.map_values(|kv: (String, String)| (kv.0@, kv.1@))
}

/// The view of an optional path.
pub open spec fn opt_path_view(p: Option<NodePath>) -> Option<Seq<Seq<char>>> {
    match p {
        Some(q) => Some(q@),
        None => None,
    }
}

/// The value stored under `key` in a list of pairs: the first match.
pub open spec fn lookup(props: Seq<(Seq<char>, Seq<char>)>, key: Seq<char>) -> Option<Seq<char>>
    decreases props.len(),
{
    if props.len() == 0 {
        None
    } else if props[0].0 == key {
        Some(props[0].1)
    } else {
        lookup(props.drop_first(), key)
    }
}

/// Fields that every node has.
#[derive(Debug, Clone)]
pub struct NodeProperties {
    /// The last component of the node's path (the project name for the root).
    pub name: String,
    /// The node's parent path; `None` only for the root.
    pub parent: Option<NodePath>,
    /// The document that the node was read from.
    pub record_file: String,
}

pub struct PropsView {
    pub name: Seq<char>,
    pub parent: Option<Seq<Seq<char>>>,
    pub record_file: Seq<char>,
}

impl View for NodeProperties {
    type V = PropsView;

    open spec fn view(&self) -> PropsView {
        PropsView {
            name: self.name@,
            parent: opt_path_view(self.parent),
            record_file: self.record_file@,
        }
    }
}

/// A node that holds its metadata and the paths of its children.
#[derive(Debug, Clone)]
pub struct DirectNode {
    pub children: Vec<NodePath>,
    pub node_properties: NodeProperties,
    /// User metadata, in document order.
    pub properties: Vec<(String, String)>,
}

/// A stub that names the document defining the real subtree.
#[derive(Debug, Clone)]
pub struct LinkNode {
    pub node_properties: NodeProperties,
    /// Relative to the directory of `record_file`, unless absolute.
    pub target: String,
}

#[derive(Debug, Clone)]
pub enum Node {
    Direct(DirectNode),
    Link(LinkNode),
}

pub enum NodeView {
    Direct {
        props: PropsView,
        children: Seq<Seq<Seq<char>>>,
        properties: Seq<(Seq<char>, Seq<char>)>,
    },
    Link { props: PropsView, target: Seq<char> },
}

impl NodeView {
    pub open spec fn props(self) -> PropsView {
        match self {
            NodeView::Direct { props, .. } => props,
            NodeView::Link { props, .. } => props,
        }
    }
}

impl View for DirectNode {
    type V = NodeView;

    open spec fn view(&self) -> NodeView {
        NodeView::Direct {
            props: self.node_properties@,
            children: path_views(self.children@),
            properties: pair_views(self.properties@),
        }
    }
}

impl View for LinkNode {
    type V = NodeView;

    open spec fn view(&self) -> NodeView {
        NodeView::Link { props: self.node_properties@, target: self.target@ }
    }
}

impl View for Node {
    type V = NodeView;

    open spec fn view(&self) -> NodeView {
        match self {
            Node::Direct(d) => d@,
            Node::Link(l) => l@,
        }
    }
}

/// A copy of a list of paths.
pub fn duplicate_paths(v: &Vec<NodePath>) -> (r: Vec<NodePath>)
    ensures
        path_views(r@) == path_views(v@),
{
    let mut r: Vec<NodePath> = Vec::new();
    let mut i: usize = 0;
    while i < v.len()
        invariant
            i <= v.len(),
            r@.len() == i,
            forall|j: int| 0 <= j < i ==> #[trigger] r@[j]@ == v@[j]@,
        decreases v.len() - i,
    {
        let p = v[i].duplicate();
        r.push(p);
        i = i + 1;
    }
    assert(path_views(r@) =~= path_views(v@));
    r
}

/// A copy of a list of string pairs.
pub fn duplicate_pairs(v: &Vec<(String, String)>) -> (r: Vec<(String, String)>)
    ensures
        pair_views(r@) == pair_views(v@),
{
    let mut r: Vec<(String, String)> = Vec::new();
    let mut i: usize = 0;
    while i < v.len()
        invariant
            i <= v.len(),
            r@.len() == i,
            forall|j: int| 0 <= j < i ==> #[trigger] r@[j].0@ == v@[j].0@ && r@[j].1@ == v@[j].1@,
        decreases v.len() - i,
    {
        let (k, x) = &v[i];
        r.push((k.clone(), x.clone()));
        i = i + 1;
    }
    assert(pair_views(r@) =~= pair_views(v@));
    r
}

/// The value under `key`, if any: the first pair with that key.
pub fn lookup_property<'a>(props: &'a Vec<(String, String)>, key: &String) -> (r: Option<&'a String>)
    ensures
        match r {
            Some(v) => lookup(pair_views(props@), key@) == Some(v@),
            None => lookup(pair_views(props@), key@) is None,
        },
{
    let mut i: usize = 0;
    assert(pair_views(props@).skip(0) =~= pair_views(props@));
    while i < props.len()
        invariant
            i <= props.len(),
            lookup(pair_views(props@), key@) == lookup(pair_views(props@).skip(i as int), key@),
        decreases props.len() - i,
    {
        let ghost rest = pair_views(props@).skip(i as int);
        assert(rest.drop_first() =~= pair_views(props@).skip(i as int + 1));
        if props[i].0 == *key {
            return Some(&props[i].1);
        }
        i = i + 1;
    }
    assert(pair_views(props@).skip(i as int).len() == 0);
    None
}

impl NodeProperties {
    /// A copy of these properties.
    pub fn duplicate(&self) -> (r: NodeProperties)
        ensures
            r@ == self@,
    {
        let parent = match &self.parent {
            Some(p) => Some(p.duplicate()),
            None => None,
        };
        NodeProperties { name: self.name.clone(), parent, record_file: self.record_file.clone() }
    }
}

impl Node {
    /// A copy of the properties shared by both variants.
    pub fn node_properties(&self) -> (r: NodeProperties)
        ensures
            r@ == self@.props(),
    {
        match self {
            Node::Direct(d) => d.node_properties.duplicate(),
            Node::Link(l) => l.node_properties.duplicate(),
        }
    }

    /// The direct node, if this is one.
    pub fn get_direct(&self) -> (r: Option<&DirectNode>)
        ensures
            match r {
                Some(d) => self is Direct && d@ == self@,
                None => self is Link,
            },
    {
        match self {
            Node::Direct(d) => Some(d),
            Node::Link(_) => None,
        }
    }

    /// A copy of this node.
    pub fn duplicate(&self) -> (r: Node)
        ensures
            r@ == self@,
    {
        match self {
            Node::Direct(d) => Node::Direct(
                DirectNode {
                    children: duplicate_paths(&d.children),
                    node_properties: d.node_properties.duplicate(),
                    properties: duplicate_pairs(&d.properties),
                },
            ),
            Node::Link(l) => Node::Link(
                LinkNode { node_properties: l.node_properties.duplicate(), target: l.target.clone() },
            ),
        }
    }
}

} // verus!
