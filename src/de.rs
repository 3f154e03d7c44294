use vstd::prelude::*;
use vstd::string::*;

use crate::error::{Error, ErrorView};
use crate::node::{
    duplicate_pairs, lookup, lookup_property, opt_path_view, pair_views, path_views, DirectNode,
    LinkNode, Node, NodeProperties, NodeView, PropsView,
};
use crate::path::{string_views, NodePath};
use crate::tree::{placed_at, Tree};

verus! {

broadcast use {vstd::std_specs::vec::axiom_vec_index_decreases, vstd::std_specs::vec::axiom_vec_decreases_to_view, vstd::seq::axiom_seq_index_decreases};

/// One parsed document: its string properties in document order, and the
/// nested documents of its children, if it lists any.
#[derive(Debug)]
pub struct RawNode {
    pub properties: Vec<(String, String)>,
    pub children: Option<Vec<RawNode>>,
}

/// The two kinds of node a document can declare.
pub enum RawNodeType {
    Direct,
    Link,
}

impl RawNodeType {
    /// The kind a `type` property names: `Direct` or `Link`, nothing else.
    pub fn from_str(s: &String) -> (r: Option<RawNodeType>)
        ensures
            s@ == "Direct"@ ==> r matches Some(RawNodeType::Direct),
            s@ == "Link"@ ==> r matches Some(RawNodeType::Link),
            s@ != "Direct"@ && s@ != "Link"@ ==> r is None,
    {
        proof {
            reveal_strlit("Link");
            reveal_strlit("Direct");
            assert("Link"@.len() != "Direct"@.len());
        }
        if *s == String::from_str("Direct") {
            Some(RawNodeType::Direct)
        } else if *s == String::from_str("Link") {
            Some(RawNodeType::Link)
        } else {
            None
        }
    }
}

/// A list of (path, node) pairs as the codec produces them.
pub type Entries = Seq<(Seq<Seq<char>>, NodeView)>;

pub open spec fn entry_views(v: Seq<(NodePath, Node)>) -> Entries {
    v.map_values(|e: (NodePath, Node)| (e.0@, e.1@))
}

pub open spec fn opt_string_view(s: Option<String>) -> Option<Seq<char>> {
    match s {
        Some(t) => Some(t@),
        None => None,
    }
}

/// Whether a node is a link, from its `type` property (direct by default).
pub open spec fn node_kind(props: Seq<(Seq<char>, Seq<char>)>) -> Result<bool, ErrorView> {
    match lookup(props, "type"@) {
        None => Ok(false),
        Some(t) => if t == "Direct"@ {
            Ok(false)
        } else if t == "Link"@ {
            Ok(true)
        } else {
            Err(ErrorView::UnknownType(t))
        },
    }
}

/// A node's name: the caller's name first, else its `name` property.
pub open spec fn node_name(props: Seq<(Seq<char>, Seq<char>)>, given: Option<Seq<char>>) -> Option<
    Seq<char>,
> {
    match given {
        Some(n) => Some(n),
        None => lookup(props, "name"@),
    }
}

/// Where a node goes: under its parent, or at the root when it has none.
pub open spec fn node_path_of(parent: Option<Seq<Seq<char>>>, name: Seq<char>) -> Seq<Seq<char>> {
    match parent {
        Some(p) => p.push(name),
        None => Seq::empty(),
    }
}

/// The first key, in document order, that is reserved.
pub open spec fn first_reserved(props: Seq<(Seq<char>, Seq<char>)>, reserved: Seq<Seq<char>>) -> Option<
    Seq<char>,
>
    decreases props.len(),
{
    if props.len() == 0 {
        None
    } else if reserved.contains(props[0].0) {
        Some(props[0].0)
    } else {
        first_reserved(props.drop_first(), reserved)
    }
}

/// The nested documents of a node, none when it lists no children.
pub open spec fn raw_children(raw: RawNode) -> Seq<RawNode> {
    match raw.children {
        Some(c) => c@,
        None => Seq::empty(),
    }
}

/// No key appears twice among `props`.
pub open spec fn keys_unique(props: Seq<(Seq<char>, Seq<char>)>) -> bool {
    forall|i: int, j: int| 0 <= i < j < props.len() ==> #[trigger] props[i].0 != #[trigger] props[j].0
}

/// A document and all the documents nested in it have unique keys, as
/// the properties of a map do.
pub open spec fn doc_keys_unique(raw: RawNode) -> bool
    decreases raw, 1nat, 0int,
{
    keys_unique(pair_views(raw.properties@)) && children_keys_unique(
        raw,
        raw_children(raw).len() as int,
    )
}

/// The first `n` nested documents of `raw` have unique keys throughout.
pub open spec fn children_keys_unique(raw: RawNode, n: int) -> bool
    decreases raw, 0nat, n,
{
    if n <= 0 {
        true
    } else if n > raw_children(raw).len() {
        false
    } else {
        children_keys_unique(raw, n - 1) && doc_keys_unique(raw_children(raw)[n - 1])
    }
}

pub proof fn lemma_child_keys_unique(raw: RawNode, n: int, i: int)
    requires
        children_keys_unique(raw, n),
        0 <= i < n,
    ensures
        doc_keys_unique(raw_children(raw)[i]),
    decreases n,
{
    if i < n - 1 {
        lemma_child_keys_unique(raw, n - 1, i);
    }
}

pub proof fn lemma_children_keys_prefix(raw: RawNode, n: int)
    requires
        0 <= n <= raw_children(raw).len(),
        forall|j: int| 0 <= j < raw_children(raw).len() ==> doc_keys_unique(#[trigger] raw_children(raw)[j]),
    ensures
        children_keys_unique(raw, n),
    decreases n,
{
    if n > 0 {
        lemma_children_keys_prefix(raw, n - 1);
    }
}

impl RawNode {
    /// Whether no key appears twice in this document or in any document
    /// nested in it.
    pub fn has_unique_keys(&self) -> (r: bool)
        ensures
            r == doc_keys_unique(*self),
        decreases self,
    {
        let ghost pv = pair_views(self.properties@);
        let n = self.properties.len();
        let mut i: usize = 0;
        while i < n
            invariant
                n == self.properties@.len(),
                pv == pair_views(self.properties@),
                i <= n,
                forall|a: int, b: int| 0 <= a < b < n && a < i ==> #[trigger] pv[a].0 != #[trigger] pv[b].0,
            decreases n - i,
        {
            let mut j: usize = i + 1;
            while j < n
                invariant
                    n == self.properties@.len(),
                    pv == pair_views(self.properties@),
                    i < n,
                    i + 1 <= j <= n,
                    forall|a: int, b: int| 0 <= a < b < n && a < i ==> #[trigger] pv[a].0 != #[trigger] pv[b].0,
                    forall|b: int| i < b < j ==> pv[i as int].0 != #[trigger] pv[b].0,
                decreases n - j,
            {
                if self.properties[i].0 == self.properties[j].0 {
                    assert(pv[i as int].0 == pv[j as int].0);
                    return false;
                }
                j = j + 1;
            }
            i = i + 1;
        }
        assert(keys_unique(pv));
        match &self.children {
            None => {
                true
            },
            Some(children) => {
                let mut k: usize = 0;
                while k < children.len()
                    invariant
                        self.children == Some(*children),
                        keys_unique(pair_views(self.properties@)),
                        k <= children.len(),
                        forall|j: int| 0 <= j < k ==> doc_keys_unique(#[trigger] children@[j]),
                    decreases children.len() - k,
                {
                    assert(raw_children(*self)[k as int] == children@[k as int]);
                    if !children[k].has_unique_keys() {
                        proof {
                            if doc_keys_unique(*self) {
                                lemma_child_keys_unique(*self, children.len() as int, k as int);
                            }
                        }
                        return false;
                    }
                    k = k + 1;
                }
                proof {
                    lemma_children_keys_prefix(*self, children.len() as int);
                }
                true
            },
        }
    }
}

/// The pairs that a document yields: each child's pairs in order, then the
/// node itself; or the first rule it breaks.
pub open spec fn convert_spec(
    raw: RawNode,
    parent: Option<Seq<Seq<char>>>,
    given: Option<Seq<char>>,
    record: Seq<char>,
    reserved: Seq<Seq<char>>,
) -> Result<Entries, ErrorView>
    decreases raw, 1nat, 0int,
{
    let props = pair_views(raw.properties@);
    match node_kind(props) {
        Err(e) => Err(e),
        Ok(is_link) => match node_name(props, given) {
            None => Err(ErrorView::LackName),
            Some(name) => {
                let path = node_path_of(parent, name);
                let np = PropsView { name, parent, record_file: record };
                if is_link {
                    match lookup(props, "target"@) {
                        None => Err(ErrorView::LackTarget),
                        Some(t) => Ok(seq![(path, NodeView::Link { props: np, target: t })]),
                    }
                } else {
                    match first_reserved(props, reserved) {
                        Some(k) => Err(ErrorView::PreservedKey(k)),
                        None => match children_spec(raw, raw_children(raw).len() as int, path, record, reserved) {
                            Err(e) => Err(e),
                            Ok(r) => Ok(
                                r.0.push(
                                    (
                                        path,
                                        NodeView::Direct {
                                            props: np,
                                            children: r.1,
                                            properties: drop_key(props, "name"@),
                                        },
                                    ),
                                ),
                            ),
                        },
                    }
                }
            },
        },
    }
}

/// The pairs of the first `n` children of `raw`, placed under `path`,
/// with the path of each child's own node.
pub open spec fn children_spec(
    raw: RawNode,
    n: int,
    path: Seq<Seq<char>>,
    record: Seq<char>,
    reserved: Seq<Seq<char>>,
) -> Result<(Entries, Seq<Seq<Seq<char>>>), ErrorView>
    decreases raw, 0nat, n,
{
    if n <= 0 || n > raw_children(raw).len() {
        Ok((Seq::empty(), Seq::empty()))
    } else {
        match children_spec(raw, n - 1, path, record, reserved) {
            Err(e) => Err(e),
            Ok(r) => match convert_spec(raw_children(raw)[n - 1], Some(path), None, record, reserved) {
                Err(e) => Err(e),
                Ok(v) => Ok((r.0 + v, r.1.push(v.last().0))),
            },
        }
    }
}

/// `q` is `p` or lies below it.
pub open spec fn under(p: Seq<Seq<char>>, q: Seq<Seq<char>>) -> bool {
    q.len() >= p.len() && q.take(p.len() as int) == p
}

/// The store after inserting the pairs in order.
pub open spec fn insert_all(m: Map<Seq<Seq<char>>, NodeView>, v: Entries) -> Map<
    Seq<Seq<char>>,
    NodeView,
>
    decreases v.len(),
{
    if v.len() == 0 {
        m
    } else {
        insert_all(m, v.drop_last()).insert(v.last().0, v.last().1)
    }
}

/// Every pair a document yields is placed at its own path and lies under
/// the document's top path, which is the last pair's.
pub proof fn lemma_convert_placed(
    raw: RawNode,
    parent: Option<Seq<Seq<char>>>,
    given: Option<Seq<char>>,
    record: Seq<char>,
    reserved: Seq<Seq<char>>,
)
    requires
        convert_spec(raw, parent, given, record, reserved) is Ok,
    ensures
        ({
            let v = convert_spec(raw, parent, given, record, reserved)->Ok_0;
            let top = node_path_of(parent, node_name(pair_views(raw.properties@), given)->Some_0);
            &&& v.len() > 0
            &&& v.last().0 == top
            &&& forall|i: int| 0 <= i < v.len() ==> placed_at(#[trigger] v[i].0, v[i].1) && under(top, v[i].0)
        }),
    decreases raw, 1nat, 0int,
{
    let props = pair_views(raw.properties@);
    let name = node_name(props, given)->Some_0;
    let path = node_path_of(parent, name);
    let v = convert_spec(raw, parent, given, record, reserved)->Ok_0;
    assert(under(path, path)) by {
        assert(path.take(path.len() as int) =~= path);
    }
    match parent {
        Some(p) => {
            assert(path.drop_last() =~= p);
        },
        None => {},
    }
    if node_kind(props) == Ok::<bool, ErrorView>(false) {
        let n = raw_children(raw).len() as int;
        lemma_children_placed(raw, n, path, record, reserved);
        let c = children_spec(raw, n, path, record, reserved)->Ok_0.0;
        assert(v == c.push(v.last()));
        assert(v.last().1.props().parent == parent);
        assert(v.last().1.props().name == name);
        match parent {
            Some(p) => {
                assert(path.drop_last() =~= p);
            },
            None => {},
        }
        assert(placed_at(path, v.last().1));
        assert forall|i: int| 0 <= i < v.len() implies placed_at(#[trigger] v[i].0, v[i].1) && under(path, v[i].0) by {
            if i < c.len() {
                assert(v[i] == c[i]);
            }
        }
    }
}

/// The pairs of the first `n` children all lie strictly below `path`, each
/// placed at its own path.
pub proof fn lemma_children_placed(
    raw: RawNode,
    n: int,
    path: Seq<Seq<char>>,
    record: Seq<char>,
    reserved: Seq<Seq<char>>,
)
    requires
        children_spec(raw, n, path, record, reserved) is Ok,
    ensures
        ({
            let c = children_spec(raw, n, path, record, reserved)->Ok_0.0;
            let t = children_spec(raw, n, path, record, reserved)->Ok_0.1;
            &&& forall|i: int|
                0 <= i < c.len() ==> placed_at(#[trigger] c[i].0, c[i].1) && under(path, c[i].0)
                    && c[i].0.len() > path.len()
            &&& forall|j: int|
                0 <= j < t.len() ==> #[trigger] t[j].len() == path.len() + 1 && t[j].drop_last() == path
        }),
    decreases raw, 0nat, n,
{
    if n <= 0 || n > raw_children(raw).len() {
    } else {
        lemma_children_placed(raw, n - 1, path, record, reserved);
        let child = raw_children(raw)[n - 1];
        lemma_convert_placed(child, Some(path), None, record, reserved);
        let r = children_spec(raw, n - 1, path, record, reserved)->Ok_0;
        let v = convert_spec(child, Some(path), None, record, reserved)->Ok_0;
        let top = path.push(node_name(pair_views(child.properties@), None::<Seq<char>>)->Some_0);
        let c = children_spec(raw, n, path, record, reserved)->Ok_0.0;
        assert(c == r.0 + v);
        let t = children_spec(raw, n, path, record, reserved)->Ok_0.1;
        assert(t == r.1.push(v.last().0));
        assert(top.drop_last() =~= path);
        assert forall|j: int| 0 <= j < t.len() implies #[trigger] t[j].len() == path.len() + 1
            && t[j].drop_last() == path by {
            if j < r.1.len() {
                assert(t[j] == r.1[j]);
            }
        }
        assert forall|i: int| 0 <= i < c.len() implies placed_at(#[trigger] c[i].0, c[i].1) && under(path, c[i].0)
            && c[i].0.len() > path.len() by {
            if i >= r.0.len() {
                let j = i - r.0.len();
                assert(c[i] == v[j]);
                assert(under(top, v[j].0));
                assert(v[j].0.take(path.len() as int) =~= v[j].0.take(top.len() as int).take(path.len() as int));
                assert(top.take(path.len() as int) =~= path);
            }
        }
    }
}

/// `props` without the pairs whose key is `k`.
pub open spec fn drop_key(props: Seq<(Seq<char>, Seq<char>)>, k: Seq<char>) -> Seq<(Seq<char>, Seq<char>)>
    decreases props.len(),
{
    if props.len() == 0 {
        Seq::empty()
    } else {
        let r = drop_key(props.drop_last(), k);
        if props.last().0 == k {
            r
        } else {
            r.push(props.last())
        }
    }
}

/// The pairs of `props` whose key is not `name`.
pub fn without_name(props: &Vec<(String, String)>) -> (r: Vec<(String, String)>)
    ensures
        pair_views(r@) == drop_key(pair_views(props@), "name"@),
{
    let ghost pv = pair_views(props@);
    let name_key = String::from_str("name");
    let mut r: Vec<(String, String)> = Vec::new();
    let mut i: usize = 0;
    while i < props.len()
        invariant
            pv == pair_views(props@),
            name_key@ == "name"@,
            i <= props.len(),
            pair_views(r@) == drop_key(pv.take(i as int), "name"@),
        decreases props.len() - i,
    {
        let ghost before = r@;
        assert(pv.take(i as int + 1).drop_last() =~= pv.take(i as int));
        if props[i].0 != name_key {
            r.push((props[i].0.clone(), props[i].1.clone()));
            assert(pair_views(r@) =~= pair_views(before).push(pv[i as int]));
        }
        i = i + 1;
    }
    assert(pv.take(props.len() as int) =~= pv);
    r
}

/// Whether `v` holds a string equal to `s`.
fn contains_string(v: &Vec<String>, s: &String) -> (r: bool)
    ensures
        r == string_views(v@).contains(s@),
{
    let mut i: usize = 0;
    while i < v.len()
        invariant
            i <= v.len(),
            forall|j: int| 0 <= j < i ==> #[trigger] v@[j]@ != s@,
        decreases v.len() - i,
    {
        if v[i] == *s {
            assert(string_views(v@)[i as int] == s@);
            return true;
        }
        i = i + 1;
    }
    proof {
        if string_views(v@).contains(s@) {
            let j = choose|j: int| 0 <= j < string_views(v@).len() && string_views(v@)[j] == s@;
            assert(v@[j]@ == s@);
        }
    }
    false
}

/// The first reserved key among `props`, in document order.
fn first_reserved_key(props: &Vec<(String, String)>, reserved: &Vec<String>) -> (r: Option<String>)
    ensures
        opt_string_view(r) == first_reserved(pair_views(props@), string_views(reserved@)),
{
    let mut i: usize = 0;
    assert(pair_views(props@).skip(0) =~= pair_views(props@));
    while i < props.len()
        invariant
            i <= props.len(),
            first_reserved(pair_views(props@), string_views(reserved@)) == first_reserved(
                pair_views(props@).skip(i as int),
                string_views(reserved@),
            ),
        decreases props.len() - i,
    {
        let ghost rest = pair_views(props@).skip(i as int);
        assert(rest.drop_first() =~= pair_views(props@).skip(i as int + 1));
        if contains_string(reserved, &props[i].0) {
            return Some(props[i].0.clone());
        }
        i = i + 1;
    }
    assert(pair_views(props@).skip(i as int).len() == 0);
    None
}

/// Turns one document into (path, node) pairs: each child's pairs in
/// order, then the node itself. `parent` is where the node goes (the root
/// when `None`); `given_name` takes precedence over the `name` property.
pub fn convert_to_nodes(
    raw: &RawNode,
    parent: Option<NodePath>,
    given_name: Option<String>,
    record_file: &String,
    preserved_keys: &Vec<String>,
) -> (r: Result<Vec<(NodePath, Node)>, Error>)
    requires
        doc_keys_unique(*raw),
    ensures
        match r {
            Ok(v) => convert_spec(
                *raw,
                opt_path_view(parent),
                opt_string_view(given_name),
                record_file@,
                string_views(preserved_keys@),
            ) == Ok::<Entries, ErrorView>(entry_views(v@)),
            Err(e) => convert_spec(
                *raw,
                opt_path_view(parent),
                opt_string_view(given_name),
                record_file@,
                string_views(preserved_keys@),
            ) == Err::<Entries, ErrorView>(e@),
        },
    decreases raw,
{
    let ghost pv = opt_path_view(parent);
    let ghost reserved = string_views(preserved_keys@);
    let ghost gv = opt_string_view(given_name);
    let type_key = String::from_str("type");
    let is_link: bool = match lookup_property(&raw.properties, &type_key) {
        None => false,
        Some(t) => match RawNodeType::from_str(t) {
            Some(RawNodeType::Direct) => false,
            Some(RawNodeType::Link) => true,
            None => {
                return Err(Error::UnknownType(t.clone()));
            },
        },
    };
    let name_key = String::from_str("name");
    let name: String = match given_name {
        Some(n) => n,
        None => match lookup_property(&raw.properties, &name_key) {
            Some(n) => n.clone(),
            None => {
                return Err(Error::LackName);
            },
        },
    };
    let path = match &parent {
        Some(p) => p.push(name.clone()),
        None => NodePath::new(),
    };
    let node_properties = NodeProperties { name, parent, record_file: record_file.clone() };
    if is_link {
        let target_key = String::from_str("target");
        match lookup_property(&raw.properties, &target_key) {
            None => Err(Error::LackTarget),
            Some(t) => {
                let mut v: Vec<(NodePath, Node)> = Vec::new();
                v.push((path, Node::Link(LinkNode { node_properties, target: t.clone() })));
                assert(entry_views(v@) =~= convert_spec(
                    *raw,
                    pv,
                    opt_string_view(given_name),
                    record_file@,
                    reserved,
                )->Ok_0);
                Ok(v)
            },
        }
    } else {
        match first_reserved_key(&raw.properties, preserved_keys) {
            Some(k) => {
                return Err(Error::PreservedKey(k));
            },
            None => {},
        }
        let mut nodes: Vec<(NodePath, Node)> = Vec::new();
        let mut tops: Vec<NodePath> = Vec::new();
        let ghost n_children = raw_children(*raw).len() as int;
        match &raw.children {
            None => {},
            Some(children) => {
                let mut i: usize = 0;
                assert(entry_views(nodes@) =~= Seq::<(Seq<Seq<char>>, NodeView)>::empty());
                assert(path_views(tops@) =~= Seq::<Seq<Seq<char>>>::empty());
                while i < children.len()
                    invariant
                        raw.children == Some(*children),
                        doc_keys_unique(*raw),
                        reserved == string_views(preserved_keys@),
                        pv == opt_path_view(parent),
                        gv == opt_string_view(given_name),
                        node_kind(pair_views(raw.properties@)) == Ok::<bool, ErrorView>(false),
                        first_reserved(pair_views(raw.properties@), reserved) is None,
                        node_name(pair_views(raw.properties@), gv) == Some(node_properties.name@),
                        node_path_of(pv, node_properties.name@) == path@,
                        i <= children.len(),
                        children_spec(*raw, i as int, path@, record_file@, reserved) == Ok::<
                            (Entries, Seq<Seq<Seq<char>>>),
                            ErrorView,
                        >((entry_views(nodes@), path_views(tops@))),
                    decreases children.len() - i,
                {
                    let ghost before_nodes = nodes@;
                    let ghost before_tops = tops@;
                    proof {
                        lemma_child_keys_unique(*raw, children.len() as int, i as int);
                        assert(raw_children(*raw)[i as int] == children@[i as int]);
                    }
                    let child_parent = Some(path.duplicate());
                    let ghost cp = opt_path_view(child_parent);
                    assert(cp == Some(path@));
                    let no_name: Option<String> = None;
                    match convert_to_nodes(
                        &children[i],
                        child_parent,
                        no_name,
                        record_file,
                        preserved_keys,
                    ) {
                        Err(e) => {
                            assert(raw_children(*raw)[i as int] == children@[i as int]);
                            proof {
                                lemma_children_err(*raw, i as int + 1, path@, record_file@, reserved);
                            }
                            return Err(e);
                        },
                        Ok(sub) => {
                            assert(raw_children(*raw)[i as int] == children@[i as int]);
                            let mut sub = sub;
                            let top = sub[sub.len() - 1].0.duplicate();
                            let ghost sv = entry_views(sub@);
                            nodes.append(&mut sub);
                            tops.push(top);
                            assert(entry_views(nodes@) =~= entry_views(before_nodes) + sv);
                            assert(path_views(tops@) =~= path_views(before_tops).push(sv.last().0));
                        },
                    }
                    i = i + 1;
                }
            },
        }
        let properties = without_name(&raw.properties);
        let ghost before = nodes@;
        proof {
            if raw.children is None {
                assert(entry_views(nodes@) =~= Seq::<(Seq<Seq<char>>, NodeView)>::empty());
                assert(path_views(tops@) =~= Seq::<Seq<Seq<char>>>::empty());
            }
        }
        nodes.push(
            (path, Node::Direct(DirectNode { children: tops, node_properties, properties })),
        );
        proof {
            assert(before =~= nodes@.drop_last());
            assert(entry_views(nodes@) =~= entry_views(before).push(entry_views(nodes@).last()));
            let given = opt_string_view(given_name);
            let props = pair_views(raw.properties@);
            assert(node_kind(props) == Ok::<bool, ErrorView>(false));
            assert(node_name(props, given) == Some(node_properties.name@));
            assert(node_path_of(pv, node_properties.name@) == path@);
            assert(first_reserved(props, reserved) is None);
            let r = children_spec(*raw, n_children, path@, record_file@, reserved);
            assert(r == Ok::<(Entries, Seq<Seq<Seq<char>>>), ErrorView>(
                (entry_views(before), path_views(tops@)),
            ));
        }
        Ok(nodes)
    }
}

/// Once a child breaks a rule, every longer prefix of the children, and
/// so the whole node, fails with the same error.
pub proof fn lemma_children_err(
    raw: RawNode,
    n: int,
    path: Seq<Seq<char>>,
    record: Seq<char>,
    reserved: Seq<Seq<char>>,
)
    requires
        0 < n <= raw_children(raw).len(),
        children_spec(raw, n, path, record, reserved) is Err,
    ensures
        children_spec(raw, raw_children(raw).len() as int, path, record, reserved) == children_spec(
            raw,
            n,
            path,
            record,
            reserved,
        ),
    decreases raw_children(raw).len() - n,
{
    if n < raw_children(raw).len() {
        assert(children_spec(raw, n + 1, path, record, reserved) == children_spec(
            raw,
            n,
            path,
            record,
            reserved,
        ));
        lemma_children_err(raw, n + 1, path, record, reserved);
    }
}

/// The parent a document's top node goes under.
pub open spec fn doc_parent(pg: Option<(NodePath, String)>) -> Option<Seq<Seq<char>>> {
    match pg {
        Some(x) => Some(x.0@),
        None => None,
    }
}

/// The name a document's top node takes: the link's name, or the project
/// name for the root document.
pub open spec fn doc_name(pg: Option<(NodePath, String)>, project: Seq<char>) -> Seq<char> {
    match pg {
        Some(x) => x.1@,
        None => project,
    }
}

impl Tree {
    /// Reads one document into the store; its keys must be unique, as a
    /// parser of maps gives them. For the root document
    /// `parent_and_given_name` is `None` and the top node takes the project
    /// name; for a linked document it holds the link's parent and name.
    /// Nothing is stored unless the whole document is valid. Returns the
    /// document's top node.
    pub fn insert_nodes_from_raw(
        &mut self,
        raw: &RawNode,
        recorded_file: String,
        parent_and_given_name: Option<(NodePath, String)>,
        preserved_keys: &Vec<String>,
    ) -> (r: Result<Node, Error>)
        requires
            old(self).wf(),
            doc_keys_unique(*raw),
        ensures
            final(self).wf(),
            final(self).project_name() == old(self).project_name(),
            ({
                let res = convert_spec(
                    *raw,
                    doc_parent(parent_and_given_name),
                    Some(doc_name(parent_and_given_name, old(self).project_name())),
                    recorded_file@,
                    string_views(preserved_keys@),
                );
                match res {
                    Ok(v) => r matches Ok(n) && n@ == v.last().1 && final(self)@ == insert_all(
                        old(self)@,
                        v,
                    ),
                    Err(e) => r matches Err(x) && x@ == e && final(self)@ == old(self)@,
                }
            }),
    {
        let (parent, given_name) = match parent_and_given_name {
            Some((p, n)) => (Some(p), n),
            None => (None, self.config().project_name),
        };
        self.insert_document(raw, recorded_file, parent, given_name, preserved_keys)
    }

    /// Reads one document into the store with its top node under `parent`
    /// (the root when `None`) and named `given_name`. Nothing is stored
    /// unless the whole document is valid. Returns the top node.
    pub fn insert_document(
        &mut self,
        raw: &RawNode,
        recorded_file: String,
        parent: Option<NodePath>,
        given_name: String,
        preserved_keys: &Vec<String>,
    ) -> (r: Result<Node, Error>)
        requires
            old(self).wf(),
            doc_keys_unique(*raw),
        ensures
            final(self).wf(),
            final(self).project_name() == old(self).project_name(),
            ({
                let res = convert_spec(
                    *raw,
                    opt_path_view(parent),
                    Some(given_name@),
                    recorded_file@,
                    string_views(preserved_keys@),
                );
                match res {
                    Ok(v) => r matches Ok(n) && n@ == v.last().1 && final(self)@ == insert_all(
                        old(self)@,
                        v,
                    ),
                    Err(e) => r matches Err(x) && x@ == e && final(self)@ == old(self)@,
                }
            }),
    {
        let ghost pv = opt_path_view(parent);
        let ghost gv = given_name@;
        let ghost reserved = string_views(preserved_keys@);
        let nodes = match convert_to_nodes(raw, parent, Some(given_name), &recorded_file, preserved_keys) {
            Ok(v) => v,
            Err(e) => {
                return Err(e);
            },
        };
        let ghost v = entry_views(nodes@);
        proof {
            lemma_convert_placed(*raw, pv, Some(gv), recorded_file@, reserved);
        }
        let top = nodes[nodes.len() - 1].1.duplicate();
        let ghost start = self@;
        let mut i: usize = 0;
        assert(v.take(0) =~= Seq::<(Seq<Seq<char>>, NodeView)>::empty());
        while i < nodes.len()
            invariant
                self.wf(),
                self.project_name() == old(self).project_name(),
                start == old(self)@,
                v == entry_views(nodes@),
                i <= nodes.len(),
                forall|j: int| 0 <= j < v.len() ==> placed_at(#[trigger] v[j].0, v[j].1),
                self@ == insert_all(start, v.take(i as int)),
            decreases nodes.len() - i,
        {
            let path = nodes[i].0.duplicate();
            let node = nodes[i].1.duplicate();
            assert(v[i as int] == (path@, node@));
            assert(placed_at(v[i as int].0, v[i as int].1));
            self.insert_node(path, node);
            assert(v.take(i as int + 1).drop_last() =~= v.take(i as int));
            i = i + 1;
        }
        assert(v.take(nodes.len() as int) =~= v);
        Ok(top)
    }
}

/// A document with no properties and no children yields exactly one
/// direct node, named by the caller and placed where the caller says.
pub proof fn lemma_empty_document(
    raw: RawNode,
    parent: Option<Seq<Seq<char>>>,
    name: Seq<char>,
    record: Seq<char>,
    reserved: Seq<Seq<char>>,
)
    requires
        raw.properties@.len() == 0,
        raw.children is None,
    ensures
        convert_spec(raw, parent, Some(name), record, reserved) == Ok::<Entries, ErrorView>(
            seq![
                (
                    node_path_of(parent, name),
                    NodeView::Direct {
                        props: PropsView { name, parent, record_file: record },
                        children: Seq::empty(),
                        properties: Seq::empty(),
                    },
                ),
            ],
        ),
{
    let props = pair_views(raw.properties@);
    assert(props =~= Seq::<(Seq<char>, Seq<char>)>::empty());
    let path = node_path_of(parent, name);
    let c = children_spec(raw, 0, path, record, reserved)->Ok_0;
    assert(c.0 =~= Seq::<(Seq<Seq<char>>, NodeView)>::empty());
    assert(convert_spec(raw, parent, Some(name), record, reserved)->Ok_0 =~= seq![
        (
            path,
            NodeView::Direct {
                props: PropsView { name, parent, record_file: record },
                children: Seq::empty(),
                properties: Seq::empty(),
            },
        ),
    ]);
}

/// A named document of type `Link` without a `target` fails with
/// `LackTarget`.
pub proof fn lemma_link_without_target(
    raw: RawNode,
    parent: Option<Seq<Seq<char>>>,
    name: Seq<char>,
    record: Seq<char>,
    reserved: Seq<Seq<char>>,
)
    requires
        lookup(pair_views(raw.properties@), "type"@) == Some("Link"@),
        lookup(pair_views(raw.properties@), "target"@) is None,
    ensures
        convert_spec(raw, parent, Some(name), record, reserved) == Err::<Entries, ErrorView>(
            ErrorView::LackTarget,
        ),
{
    reveal_strlit("Link");
    reveal_strlit("Direct");
    assert("Link"@.len() != "Direct"@.len());
}

/// Some reserved key among `props` makes `first_reserved` find one.
pub proof fn lemma_first_reserved_found(
    props: Seq<(Seq<char>, Seq<char>)>,
    reserved: Seq<Seq<char>>,
    i: int,
)
    requires
        0 <= i < props.len(),
        reserved.contains(props[i].0),
    ensures
        first_reserved(props, reserved) matches Some(k) && reserved.contains(k),
    decreases props.len(),
{
    if i > 0 && !reserved.contains(props[0].0) {
        lemma_first_reserved_found(props.drop_first(), reserved, i - 1);
    }
}

/// A named direct document that carries a reserved key fails with
/// `PreservedKey`, naming a reserved key.
pub proof fn lemma_reserved_key_rejected(
    raw: RawNode,
    parent: Option<Seq<Seq<char>>>,
    name: Seq<char>,
    record: Seq<char>,
    reserved: Seq<Seq<char>>,
    i: int,
)
    requires
        node_kind(pair_views(raw.properties@)) == Ok::<bool, ErrorView>(false),
        0 <= i < raw.properties@.len(),
        reserved.contains(raw.properties@[i].0@),
    ensures
        convert_spec(raw, parent, Some(name), record, reserved) matches Err(ErrorView::PreservedKey(k))
            && reserved.contains(k),
{
    let props = pair_views(raw.properties@);
    assert(props[i].0 == raw.properties@[i].0@);
    lemma_first_reserved_found(props, reserved, i);
}

} // verus!
