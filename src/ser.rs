use vstd::prelude::*;
use vstd::string::*;

use crate::de::{convert_spec, drop_key, first_reserved, raw_children, without_name, Entries, RawNode};
use crate::error::{Error, ErrorView};
use crate::node::{lookup, pair_views, Node, NodeView, PropsView};
use crate::path::NodePath;
use crate::tree::{join_dir, join_directory, placed_at, Tree};

verus! {

broadcast use {vstd::std_specs::vec::axiom_vec_index_decreases, vstd::std_specs::vec::axiom_vec_decreases_to_view, vstd::seq::axiom_seq_index_decreases};

/// The properties a node is written with: its name first, then, for a
/// direct node, its own properties (but a `name` of their own), and for a
/// link its type and target.
pub open spec fn doc_props(n: NodeView) -> Seq<(Seq<char>, Seq<char>)> {
    match n {
        NodeView::Direct { props, properties, .. } => seq![("name"@, props.name)] + drop_key(
            properties,
            "name"@,
        ),
        NodeView::Link { props, target } => seq![
            ("name"@, props.name),
            ("type"@, "Link"@),
            ("target"@, target),
        ],
    }
}

/// `doc` is the document of the node at `p`: its properties as
/// `doc_props` gives them, and, for a direct node with children, the
/// documents of its children in order.
pub open spec fn serializes(m: Map<Seq<Seq<char>>, NodeView>, p: Seq<Seq<char>>, doc: RawNode) -> bool
    decreases doc, 1nat, 0int,
{
    &&& m.contains_key(p)
    &&& pair_views(doc.properties@) == doc_props(m[p])
    &&& match m[p] {
        NodeView::Direct { children, .. } => if children.len() == 0 {
            doc.children is None
        } else {
            &&& doc.children is Some
            &&& raw_children(doc).len() == children.len()
            &&& serializes_all(m, children, doc, children.len() as int)
        },
        NodeView::Link { .. } => doc.children is None,
    }
}

/// The first `n` nested documents of `doc` are those of the paths `cs`.
pub open spec fn serializes_all(
    m: Map<Seq<Seq<char>>, NodeView>,
    cs: Seq<Seq<Seq<char>>>,
    doc: RawNode,
    n: int,
) -> bool
    decreases doc, 0nat, n,
{
    if n <= 0 {
        true
    } else if n > raw_children(doc).len() || n > cs.len() {
        false
    } else {
        serializes_all(m, cs, doc, n - 1) && serializes(m, cs[n - 1], raw_children(doc)[n - 1])
    }
}

pub proof fn lemma_serializes_all_each(
    m: Map<Seq<Seq<char>>, NodeView>,
    cs: Seq<Seq<Seq<char>>>,
    doc: RawNode,
    n: int,
    i: int,
)
    requires
        serializes_all(m, cs, doc, n),
        0 <= i < n,
    ensures
        serializes(m, cs[i], raw_children(doc)[i]),
    decreases n,
{
    if i < n - 1 {
        lemma_serializes_all_each(m, cs, doc, n - 1, i);
    }
}

impl Tree {
    fn raw_of(&self, node_path: &NodePath, bound: usize) -> (r: Result<RawNode, Error>)
        requires
            self.wf(),
            self@.contains_key(node_path@),
            forall|k: Seq<Seq<char>>| #[trigger] self@.contains_key(k) ==> k.len() <= bound,
        ensures
            match r {
                Ok(doc) => serializes(self@, node_path@, doc),
                Err(e) => e is PathNotFound && forall|doc: RawNode|
                    !#[trigger] serializes(self@, node_path@, doc),
            },
        decreases bound - node_path@.len(),
    {
        proof {
            self.lemma_placed(node_path@);
        }
        let name_key = String::from_str("name");
        match self.get_node(node_path) {
            None => Err(Error::PathNotFound(node_path.duplicate())),
            Some(Node::Link(l)) => {
                let mut props: Vec<(String, String)> = Vec::new();
                props.push((name_key, l.node_properties.name.clone()));
                props.push((String::from_str("type"), String::from_str("Link")));
                props.push((String::from_str("target"), l.target.clone()));
                let doc = RawNode { properties: props, children: None };
                assert(pair_views(doc.properties@) =~= doc_props(self@[node_path@]));
                Ok(doc)
            },
            Some(Node::Direct(d)) => {
                let mut props: Vec<(String, String)> = Vec::new();
                props.push((name_key, d.node_properties.name.clone()));
                let mut rest = without_name(&d.properties);
                let ghost rv = pair_views(rest@);
                let ghost first = pair_views(props@);
                props.append(&mut rest);
                assert(pair_views(props@) =~= first + rv);
                assert(pair_views(props@) =~= doc_props(self@[node_path@]));
                if d.children.len() == 0 {
                    return Ok(RawNode { properties: props, children: None });
                }
                let ghost cs = crate::node::path_views(d.children@);
                assert(d@ == (NodeView::Direct {
                    props: d.node_properties@,
                    children: cs,
                    properties: pair_views(d.properties@),
                }));
                assert(placed_at(node_path@, d@));
                assert forall|j: int| 0 <= j < cs.len() implies #[trigger] cs[j].len() == node_path@.len()
                    + 1 by {
                    let v = d@;
                    match v {
                        NodeView::Direct { children, .. } => {
                            assert(children == cs);
                            assert(children[j].len() == node_path@.len() + 1);
                        },
                        _ => {},
                    }
                }
                let mut docs: Vec<RawNode> = Vec::new();
                let mut i: usize = 0;
                while i < d.children.len()
                    invariant
                        self.wf(),
                        forall|k: Seq<Seq<char>>| #[trigger] self@.contains_key(k) ==> k.len() <= bound,
                        self@.contains_key(node_path@),
                        self@[node_path@] == d@,
                        forall|j: int| 0 <= j < cs.len() ==> #[trigger] cs[j].len() == node_path@.len() + 1,
                        d@ == (NodeView::Direct {
                            props: d.node_properties@,
                            children: cs,
                            properties: pair_views(d.properties@),
                        }),
                        cs == crate::node::path_views(d.children@),
                        i <= d.children.len(),
                        docs@.len() == i,
                        d.children@.len() > 0,
                        pair_views(props@) == doc_props(self@[node_path@]),
                        forall|j: int| 0 <= j < i ==> serializes(self@, cs[j], #[trigger] docs@[j]),
                    decreases d.children.len() - i,
                {
                    let c = &d.children[i];
                    assert(cs[i as int] == c@);
                    assert(cs[i as int].len() == node_path@.len() + 1);
                    if self.get_node(c).is_none() {
                        proof {
                            assert forall|doc: RawNode| !#[trigger] serializes(self@, node_path@, doc) by {
                                if serializes(self@, node_path@, doc) {
                                    lemma_serializes_all_each(self@, cs, doc, cs.len() as int, i as int);
                                }
                            }
                        }
                        return Err(Error::PathNotFound(c.duplicate()));
                    }
                    match self.raw_of(c, bound) {
                        Ok(sub) => {
                            docs.push(sub);
                        },
                        Err(e) => {
                            proof {
                                assert forall|doc: RawNode| !#[trigger] serializes(self@, node_path@, doc) by {
                                    if serializes(self@, node_path@, doc) {
                                        lemma_serializes_all_each(self@, cs, doc, cs.len() as int, i as int);
                                    }
                                }
                            }
                            return Err(e);
                        },
                    }
                    i = i + 1;
                }
                let doc = RawNode { properties: props, children: Some(docs) };
                proof {
                    assert(raw_children(doc) == docs@);
                    assert(cs.len() == docs@.len());
                    assert forall|n: int| 0 <= n <= cs.len() implies serializes_all(self@, cs, doc, n) by {
                        lemma_serializes_prefix(self@, cs, doc, n);
                    }
                    assert(serializes_all(self@, cs, doc, cs.len() as int));
                    assert(pair_views(doc.properties@) == doc_props(self@[node_path@]));
                }
                Ok(doc)
            },
        }
    }

    /// The document of the node at `node_path` and the nodes below it.
    /// Fails with `PathNotFound` when it, or a listed child, is not stored.
    pub fn to_raw_at(&self, node_path: &NodePath) -> (r: Result<RawNode, Error>)
        requires
            self.wf(),
        ensures
            match r {
                Ok(doc) => serializes(self@, node_path@, doc),
                Err(e) => e is PathNotFound && forall|doc: RawNode|
                    !#[trigger] serializes(self@, node_path@, doc),
            },
    {
        if self.get_node(node_path).is_none() {
            return Err(Error::PathNotFound(node_path.duplicate()));
        }
        let bound = self.max_path_len();
        self.raw_of(node_path, bound)
    }

    /// The document of the whole tree, from the root down through the
    /// children of direct nodes. Fails with `EmptyTree` when there is no
    /// root, and with `PathNotFound` when a listed child is not stored.
    pub fn to_raw(&self) -> (r: Result<RawNode, Error>)
        requires
            self.wf(),
        ensures
            match r {
                Ok(doc) => serializes(self@, Seq::empty(), doc),
                Err(e) => if self@.contains_key(Seq::empty()) {
                    e is PathNotFound && forall|doc: RawNode| !#[trigger] serializes(self@, Seq::empty(), doc)
                } else {
                    e == Error::EmptyTree
                },
            },
            (r matches Err(Error::EmptyTree)) <==> !self@.contains_key(Seq::empty()),
    {
        let root = NodePath::new();
        if self.get_node(&root).is_none() {
            return Err(Error::EmptyTree);
        }
        let bound = self.max_path_len();
        self.raw_of(&root, bound)
    }
}

/// The documents gathered so far make every prefix of `cs` serialize.
pub proof fn lemma_serializes_prefix(
    m: Map<Seq<Seq<char>>, NodeView>,
    cs: Seq<Seq<Seq<char>>>,
    doc: RawNode,
    n: int,
)
    requires
        0 <= n <= cs.len(),
        raw_children(doc).len() == cs.len(),
        forall|j: int| 0 <= j < cs.len() ==> serializes(m, cs[j], #[trigger] raw_children(doc)[j]),
    ensures
        serializes_all(m, cs, doc, n),
    decreases n,
{
    if n > 0 {
        lemma_serializes_prefix(m, cs, doc, n - 1);
        assert(serializes(m, cs[n - 1], raw_children(doc)[n - 1]));
    }
}

pub proof fn lemma_lookup_absent(props: Seq<(Seq<char>, Seq<char>)>, k: Seq<char>)
    requires
        forall|i: int| 0 <= i < props.len() ==> #[trigger] props[i].0 != k,
    ensures
        lookup(props, k) is None,
    decreases props.len(),
{
    if props.len() > 0 {
        assert forall|i: int| 0 <= i < props.drop_first().len() implies #[trigger] props.drop_first()[i].0
            != k by {
            assert(props.drop_first()[i] == props[i + 1]);
        }
        lemma_lookup_absent(props.drop_first(), k);
    }
}

pub proof fn lemma_no_reserved(props: Seq<(Seq<char>, Seq<char>)>, reserved: Seq<Seq<char>>)
    requires
        forall|i: int| 0 <= i < props.len() ==> !reserved.contains(#[trigger] props[i].0),
    ensures
        first_reserved(props, reserved) is None,
    decreases props.len(),
{
    if props.len() > 0 {
        assert forall|i: int| 0 <= i < props.drop_first().len() implies !reserved.contains(
            #[trigger] props.drop_first()[i].0,
        ) by {
            assert(props.drop_first()[i] == props[i + 1]);
        }
        lemma_no_reserved(props.drop_first(), reserved);
    }
}

pub proof fn lemma_drop_absent(props: Seq<(Seq<char>, Seq<char>)>, k: Seq<char>)
    requires
        forall|i: int| 0 <= i < props.len() ==> #[trigger] props[i].0 != k,
    ensures
        drop_key(props, k) == props,
    decreases props.len(),
{
    if props.len() > 0 {
        assert forall|i: int| 0 <= i < props.drop_last().len() implies #[trigger] props.drop_last()[i].0
            != k by {
            assert(props.drop_last()[i] == props[i]);
        }
        lemma_drop_absent(props.drop_last(), k);
        assert(props.drop_last().push(props.last()) =~= props);
    }
}

/// Dropping `k` from a list that starts with a `k` pair and has no other
/// gives the rest.
pub proof fn lemma_drop_leading(k: Seq<char>, v: Seq<char>, props: Seq<(Seq<char>, Seq<char>)>)
    requires
        forall|i: int| 0 <= i < props.len() ==> #[trigger] props[i].0 != k,
    ensures
        drop_key(seq![(k, v)] + props, k) == props,
    decreases props.len(),
{
    let s = seq![(k, v)] + props;
    if props.len() == 0 {
        assert(s.drop_last() =~= Seq::<(Seq<char>, Seq<char>)>::empty());
        assert(s.last().0 == k);
        assert(drop_key(s.drop_last(), k) == Seq::<(Seq<char>, Seq<char>)>::empty());
        assert(drop_key(s, k) =~= props);
    } else {
        assert forall|i: int| 0 <= i < props.drop_last().len() implies #[trigger] props.drop_last()[i].0
            != k by {
            assert(props.drop_last()[i] == props[i]);
        }
        lemma_drop_leading(k, v, props.drop_last());
        assert(s.drop_last() =~= seq![(k, v)] + props.drop_last());
        assert(s.last() == props.last());
        assert(props.drop_last().push(props.last()) =~= props);
    }
}

/// A named document whose keys are all plain user keys reads as a direct
/// node with its children in order.
proof fn lemma_plain_keys(props: Seq<(Seq<char>, Seq<char>)>, reserved: Seq<Seq<char>>, name: Seq<char>)
    requires
        !reserved.contains("name"@),
        forall|i: int|
            0 <= i < props.len() ==> #[trigger] props[i].0 != "name"@ && props[i].0 != "type"@
                && !reserved.contains(props[i].0),
    ensures
        lookup(seq![("name"@, name)] + props, "type"@) is None,
        lookup(seq![("name"@, name)] + props, "name"@) == Some(name),
        first_reserved(seq![("name"@, name)] + props, reserved) is None,
{
    reveal_strlit("name");
    reveal_strlit("type");
    assert("name"@ != "type"@) by {
        assert("name"@[0] != "type"@[0]);
    }
    let all = seq![("name"@, name)] + props;
    assert(all.drop_first() =~= props);
    assert forall|i: int| 0 <= i < props.len() implies #[trigger] props[i].0 != "type"@ by {}
    lemma_lookup_absent(props, "type"@);
    assert forall|i: int| 0 <= i < props.len() implies !reserved.contains(#[trigger] props[i].0) by {}
    lemma_no_reserved(props, reserved);
}

/// Writing out a direct root that has one direct child, and reading the
/// document back as the root document under the root's own name, gives the
/// same two nodes: the same paths, names, children and properties. The
/// user keys must not be `name`, `type` or reserved.
pub proof fn lemma_round_trip(
    m: Map<Seq<Seq<char>>, NodeView>,
    doc: RawNode,
    root: PropsView,
    child: PropsView,
    x: Seq<char>,
    root_props: Seq<(Seq<char>, Seq<char>)>,
    child_props: Seq<(Seq<char>, Seq<char>)>,
    record: Seq<char>,
    reserved: Seq<Seq<char>>,
)
    requires
        m.contains_key(Seq::empty()),
        m.contains_key(seq![x]),
        m[Seq::empty()] == (NodeView::Direct {
            props: root,
            children: seq![seq![x]],
            properties: root_props,
        }),
        m[seq![x]] == (NodeView::Direct {
            props: child,
            children: Seq::empty(),
            properties: child_props,
        }),
        child.name == x,
        !reserved.contains("name"@),
        forall|i: int|
            0 <= i < root_props.len() ==> #[trigger] root_props[i].0 != "name"@ && root_props[i].0
                != "type"@ && !reserved.contains(root_props[i].0),
        forall|i: int|
            0 <= i < child_props.len() ==> #[trigger] child_props[i].0 != "name"@
                && child_props[i].0 != "type"@ && !reserved.contains(child_props[i].0),
        serializes(m, Seq::empty(), doc),
    ensures
        convert_spec(doc, None, Some(root.name), record, reserved) == Ok::<Entries, ErrorView>(
            seq![
                (
                    seq![x],
                    NodeView::Direct {
                        props: PropsView { name: x, parent: Some(Seq::empty()), record_file: record },
                        children: Seq::empty(),
                        properties: child_props,
                    },
                ),
                (
                    Seq::empty(),
                    NodeView::Direct {
                        props: PropsView { name: root.name, parent: None, record_file: record },
                        children: seq![seq![x]],
                        properties: root_props,
                    },
                ),
            ],
        ),
{
    lemma_drop_leading("name"@, root.name, root_props);
    lemma_drop_leading("name"@, x, child_props);
    let e = Seq::<Seq<char>>::empty();
    lemma_drop_absent(root_props, "name"@);
    lemma_drop_absent(child_props, "name"@);
    let rp = seq![("name"@, root.name)] + root_props;
    let cp = seq![("name"@, x)] + child_props;
    assert(pair_views(doc.properties@) == rp);
    lemma_serializes_all_each(m, seq![seq![x]], doc, 1, 0);
    let cdoc = raw_children(doc)[0];
    assert(serializes(m, seq![x], cdoc));
    assert(pair_views(cdoc.properties@) == cp);
    assert(cdoc.children is None);
    lemma_plain_keys(root_props, reserved, root.name);
    lemma_plain_keys(child_props, reserved, x);
    assert(e.push(x) =~= seq![x]);
    let cv = convert_spec(cdoc, Some(e), None, record, reserved);
    assert(raw_children(cdoc).len() == 0);
    let cres = crate::de::children_spec(cdoc, 0, seq![x], record, reserved);
    assert(cres == Ok::<(Entries, Seq<Seq<Seq<char>>>), ErrorView>((Seq::empty(), Seq::empty())));
    assert(cres->Ok_0.0.push((
        seq![x],
        NodeView::Direct {
            props: PropsView { name: x, parent: Some(e), record_file: record },
            children: Seq::empty(),
            properties: child_props,
        },
    )) =~= seq![(
        seq![x],
        NodeView::Direct {
            props: PropsView { name: x, parent: Some(e), record_file: record },
            children: Seq::empty(),
            properties: child_props,
        },
    )]);
    let r0 = crate::de::children_spec(doc, 0, e, record, reserved);
    let r1 = crate::de::children_spec(doc, 1, e, record, reserved);
    assert(r1->Ok_0.0 =~= cv->Ok_0);
    assert(r1->Ok_0.1 =~= seq![seq![x]]);
    let full = convert_spec(doc, None, Some(root.name), record, reserved)->Ok_0;
    assert(full =~= seq![
        (
            seq![x],
            NodeView::Direct {
                props: PropsView { name: x, parent: Some(e), record_file: record },
                children: Seq::empty(),
                properties: child_props,
            },
        ),
        (
            e,
            NodeView::Direct {
                props: PropsView { name: root.name, parent: None, record_file: record },
                children: seq![seq![x]],
                properties: root_props,
            },
        ),
    ]);
}

/// The document a directory starts with: one child per entry, in order;
/// a file as a direct node named after it, a directory as a link to the
/// document `file_name` inside it.
pub open spec fn generated_child(name: Seq<char>, is_dir: bool, file_name: Seq<char>) -> Seq<
    (Seq<char>, Seq<char>),
> {
    if is_dir {
        seq![("name"@, name), ("type"@, "Link"@), ("target"@, join_dir(name, file_name))]
    } else {
        seq![("name"@, name)]
    }
}

/// A fresh document for a directory whose entries are `entries`
/// (name, whether it is a directory): no properties of its own, and the
/// children `generated_child` states.
pub fn generated_document(entries: &Vec<(String, bool)>, file_name: &String) -> (r: RawNode)
    ensures
        r.properties@.len() == 0,
        r.children is Some,
        raw_children(r).len() == entries@.len(),
        forall|i: int|
            0 <= i < entries@.len() ==> pair_views(#[trigger] raw_children(r)[i].properties@)
                == generated_child(entries@[i].0@, entries@[i].1, file_name@) && raw_children(
                r,
            )[i].children is None,
{
    let mut docs: Vec<RawNode> = Vec::new();
    let mut i: usize = 0;
    while i < entries.len()
        invariant
            i <= entries@.len(),
            docs@.len() == i,
            forall|j: int|
                0 <= j < i ==> pair_views(#[trigger] docs@[j].properties@) == generated_child(
                    entries@[j].0@,
                    entries@[j].1,
                    file_name@,
                ) && docs@[j].children is None,
        decreases entries.len() - i,
    {
        let (name, is_dir) = &entries[i];
        let mut props: Vec<(String, String)> = Vec::new();
        props.push((String::from_str("name"), name.clone()));
        if *is_dir {
            props.push((String::from_str("type"), String::from_str("Link")));
            props.push((String::from_str("target"), join_directory(name.clone(), file_name)));
        }
        assert(pair_views(props@) =~= generated_child(name@, *is_dir, file_name@));
        docs.push(RawNode { properties: props, children: None });
        i = i + 1;
    }
    RawNode { properties: Vec::new(), children: Some(docs) }
}

} // verus!
