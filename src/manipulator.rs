use vstd::prelude::*;
use vstd::string::*;

use crate::de::{convert_spec, doc_keys_unique, insert_all, lemma_convert_placed, node_name, node_path_of, under, Entries, RawNode};
use crate::error::{Error, ErrorView};
use crate::node::{LinkNode, Node, NodeView};
use crate::path::{string_views, NodePath};
use crate::tree::{dir_of, directory_of, join_dir, join_directory, placed_at, Tree};

verus! {

/// What a search for the next link yields, as a view.
pub open spec fn pending_view(r: Result<Option<LinkNode>, Error>) -> Result<Option<NodeView>, ErrorView> {
    match r {
        Ok(Some(l)) => Ok(Some(l@)),
        Ok(None) => Ok(None),
        Err(e) => Err(e@),
    }
}

/// The link that must be loaded next so that `p` holds a direct node:
/// `p`'s own link, or, when `p` is absent, the one its parent needs.
/// `Ok(None)` when `p` is already direct.
pub open spec fn pending_spec(m: Map<Seq<Seq<char>>, NodeView>, p: Seq<Seq<char>>) -> Result<
    Option<NodeView>,
    ErrorView,
>
    decreases p.len(),
{
    if m.contains_key(p) {
        match m[p] {
            NodeView::Direct { .. } => Ok(None),
            NodeView::Link { .. } => Ok(Some(m[p])),
        }
    } else if p.len() == 0 {
        Err(ErrorView::PathNotFound(p))
    } else {
        match pending_spec(m, p.drop_last()) {
            Err(e) => Err(e),
            Ok(Some(l)) => Ok(Some(l)),
            Ok(None) => Err(ErrorView::PathNotFound(p)),
        }
    }
}

/// The first link, in depth-first order, within `d` levels below `p` (`p`
/// itself at level 0); `Ok(None)` when that part of the tree is all direct.
pub open spec fn depth_spec(m: Map<Seq<Seq<char>>, NodeView>, p: Seq<Seq<char>>, d: nat) -> Result<
    Option<NodeView>,
    ErrorView,
>
    decreases d, 1nat, 0int,
{
    if !m.contains_key(p) {
        Err(ErrorView::PathNotFound(p))
    } else {
        match m[p] {
            NodeView::Link { .. } => Ok(Some(m[p])),
            NodeView::Direct { children, .. } => if d == 0 {
                Ok(None)
            } else {
                children_depth_spec(m, children, children.len() as int, d)
            },
        }
    }
}

/// `depth_spec` over the first `n` of the paths `cs`, one level down.
pub open spec fn children_depth_spec(
    m: Map<Seq<Seq<char>>, NodeView>,
    cs: Seq<Seq<Seq<char>>>,
    n: int,
    d: nat,
) -> Result<Option<NodeView>, ErrorView>
    decreases d, 0nat, n,
{
    if n <= 0 || n > cs.len() || d == 0 {
        Ok(None)
    } else {
        match children_depth_spec(m, cs, n - 1, d) {
            Ok(None) => depth_spec(m, cs[n - 1], (d - 1) as nat),
            other => other,
        }
    }
}

/// Where a link's target document lies: the target itself when absolute,
/// else under the directory of the link's own document.
pub open spec fn target_path_spec(l: NodeView) -> Seq<char> {
    match l {
        NodeView::Link { props, target } => if target.len() > 0 && target[0] == '/' {
            target
        } else {
            join_dir(dir_of(props.record_file), target)
        },
        _ => Seq::empty(),
    }
}

/// The parent under which a link's document is read.
pub open spec fn link_parent(l: NodeView) -> Option<Seq<Seq<char>>> {
    l.props().parent
}

/// What loading `raw`, read from `loaded`, in place of link `l` yields:
/// the document's nodes, its top node taking the link's place, parent and
/// name.
pub open spec fn load_spec(
    l: NodeView,
    loaded: Seq<char>,
    raw: RawNode,
    reserved: Seq<Seq<char>>,
) -> Result<Entries, ErrorView> {
    if loaded == l.props().record_file {
        Err(ErrorView::LoopTarget(loaded))
    } else {
        convert_spec(raw, link_parent(l), Some(l.props().name), loaded, reserved)
    }
}

/// Whether `(at, file)` is among the loads made so far.
pub open spec fn repeats_load_spec(trail: Seq<(Seq<Seq<char>>, Seq<char>)>, at: Seq<Seq<char>>, file: Seq<char>) -> bool {
    exists|i: int| 0 <= i < trail.len() && trail[i] == (at, file)
}

/// Whether loading `file` at `at` repeats an earlier load of the same
/// resolution: then the links form a cycle, such as A to B and back to A.
pub fn repeats_load(trail: &Vec<(NodePath, String)>, at: &NodePath, file: &String) -> (r: bool)
    ensures
        r == repeats_load_spec(
            trail@.map_values(|e: (NodePath, String)| (e.0@, e.1@)),
            at@,
            file@,
        ),
{
    let ghost tv = trail@.map_values(|e: (NodePath, String)| (e.0@, e.1@));
    let mut i: usize = 0;
    while i < trail.len()
        invariant
            i <= trail.len(),
            tv == trail@.map_values(|e: (NodePath, String)| (e.0@, e.1@)),
            forall|j: int| 0 <= j < i ==> #[trigger] tv[j] != (at@, file@),
        decreases trail.len() - i,
    {
        if trail[i].0.same_as(at) && trail[i].1 == *file {
            assert(tv[i as int] == (at@, file@));
            return true;
        }
        i = i + 1;
    }
    false
}

impl LinkNode {
    /// A copy of this link.
    pub fn duplicate(&self) -> (r: LinkNode)
        ensures
            r@ == self@,
    {
        LinkNode { node_properties: self.node_properties.duplicate(), target: self.target.clone() }
    }

    /// Where the target document lies: `target` when absolute, else
    /// relative to the directory of `record_file`.
    pub fn target_path(&self) -> (r: String)
        ensures
            r@ == target_path_spec(self@),
    {
        let t = self.target.as_str();
        if t.unicode_len() > 0 && t.get_char(0) == '/' {
            self.target.clone()
        } else {
            join_directory(directory_of(&self.node_properties.record_file), &self.target)
        }
    }
}

impl Tree {
    /// The link that must be loaded next so that `node_path` holds a direct
    /// node; `Ok(None)` once it does. A path that is absent after its parent
    /// is direct fails with `PathNotFound`. A chain of links that leads back
    /// to a document already loaded at the same path never ends on its own;
    /// a caller that loads step by step checks each load with
    /// `repeats_load` first.
    pub fn pending_link(&self, node_path: &NodePath) -> (r: Result<Option<LinkNode>, Error>)
        requires
            self.wf(),
        ensures
            pending_view(r) == pending_spec(self@, node_path@),
        decreases node_path@.len(),
    {
        match self.get_node(node_path) {
            Some(Node::Direct(_)) => Ok(None),
            Some(Node::Link(l)) => Ok(Some(l.duplicate())),
            None => match node_path.parent() {
                None => Err(Error::PathNotFound(node_path.duplicate())),
                Some(parent) => match self.pending_link(&parent) {
                    Err(e) => Err(e),
                    Ok(Some(l)) => Ok(Some(l)),
                    Ok(None) => Err(Error::PathNotFound(node_path.duplicate())),
                },
            },
        }
    }

    /// The first link, depth first, within `depth` levels below
    /// `node_path` (the path itself at level 0); `Ok(None)` once that part
    /// of the tree is all direct. A child path that is not stored fails
    /// with `PathNotFound`.
    pub fn pending_in_depth(&self, node_path: &NodePath, depth: usize) -> (r: Result<
        Option<LinkNode>,
        Error,
    >)
        requires
            self.wf(),
        ensures
            pending_view(r) == depth_spec(self@, node_path@, depth as nat),
        decreases depth, 1nat, 0int,
    {
        match self.get_node(node_path) {
            None => Err(Error::PathNotFound(node_path.duplicate())),
            Some(Node::Link(l)) => Ok(Some(l.duplicate())),
            Some(Node::Direct(d)) => {
                if depth == 0 {
                    return Ok(None);
                }
                let ghost cs = crate::node::path_views(d.children@);
                let mut i: usize = 0;
                while i < d.children.len()
                    invariant
                        self.wf(),
                        depth > 0,
                        cs == crate::node::path_views(d.children@),
                        self@.contains_key(node_path@),
                        self@[node_path@] == d@,
                        i <= d.children.len(),
                        children_depth_spec(self@, cs, i as int, depth as nat) == Ok::<
                            Option<NodeView>,
                            ErrorView,
                        >(None),
                    decreases d.children.len() - i,
                {
                    let r = self.pending_in_depth(&d.children[i], depth - 1);
                    assert(cs[i as int] == d.children@[i as int]@);
                    match r {
                        Ok(None) => {},
                        _ => {
                            proof {
                                assert(children_depth_spec(self@, cs, i as int + 1, depth as nat)
                                    == depth_spec(self@, cs[i as int], (depth - 1) as nat));
                                lemma_children_depth_done(self@, cs, i as int + 1, depth as nat);
                            }
                            return r;
                        },
                    }
                    i = i + 1;
                }
                Ok(None)
            },
        }
    }

    /// Puts the document `raw`, read from `loaded_from`, in place of `link`.
    /// A document that is the link's own `record_file` fails with
    /// `LoopTarget`; longer cycles are caught by `repeats_load`. Nothing
    /// changes on failure.
    pub fn load_link(
        &mut self,
        link: &LinkNode,
        loaded_from: String,
        raw: &RawNode,
        preserved_keys: &Vec<String>,
    ) -> (r: Result<(), Error>)
        requires
            old(self).wf(),
            doc_keys_unique(*raw),
        ensures
            final(self).wf(),
            final(self).project_name() == old(self).project_name(),
            match load_spec(
                link@,
                loaded_from@,
                *raw,
                string_views(preserved_keys@),
            ) {
                Ok(v) => r is Ok && final(self)@ == insert_all(old(self)@, v),
                Err(e) => r matches Err(x) && x@ == e && final(self)@ == old(self)@,
            },
    {
        if loaded_from == link.node_properties.record_file {
            return Err(Error::LoopTarget(loaded_from));
        }
        let parent = match &link.node_properties.parent {
            Some(p) => Some(p.duplicate()),
            None => None,
        };
        let name = link.node_properties.name.clone();
        match self.insert_document(raw, loaded_from, parent, name, preserved_keys) {
            Ok(_) => Ok(()),
            Err(e) => Err(e),
        }
    }
}

/// Once a child yields a link or an error, so do all longer prefixes of
/// the children.
pub proof fn lemma_children_depth_done(
    m: Map<Seq<Seq<char>>, NodeView>,
    cs: Seq<Seq<Seq<char>>>,
    n: int,
    d: nat,
)
    requires
        0 < n <= cs.len(),
        d > 0,
        children_depth_spec(m, cs, n, d) != Ok::<Option<NodeView>, ErrorView>(None),
    ensures
        children_depth_spec(m, cs, cs.len() as int, d) == children_depth_spec(m, cs, n, d),
    decreases cs.len() - n,
{
    if n < cs.len() {
        lemma_children_depth_done(m, cs, n + 1, d);
    }
}

/// `p` and all its ancestors hold direct nodes.
pub open spec fn resolved_chain(m: Map<Seq<Seq<char>>, NodeView>, p: Seq<Seq<char>>) -> bool {
    forall|k: int|
        0 <= k <= p.len() ==> m.contains_key(#[trigger] p.take(k)) && m[p.take(k)] is Direct
}

/// No stored node lies below a link: every stored path below the root has
/// its parent stored, as a direct node. Stores read from documents and
/// resolved step by step have this shape.
pub open spec fn links_are_leaves(m: Map<Seq<Seq<char>>, NodeView>) -> bool {
    forall|k: Seq<Seq<char>>|
        #[trigger] m.contains_key(k) && k.len() > 0 ==> m.contains_key(k.drop_last())
            && m[k.drop_last()] is Direct
}

/// In a store where no node lies below a link, a path whose search finds
/// nothing to load is direct all the way from the root.
pub proof fn lemma_resolved_is_chain(m: Map<Seq<Seq<char>>, NodeView>, p: Seq<Seq<char>>)
    requires
        links_are_leaves(m),
        pending_spec(m, p) == Ok::<Option<NodeView>, ErrorView>(None),
    ensures
        resolved_chain(m, p),
    decreases p.len(),
{
    if p.len() > 0 {
        let q = p.drop_last();
        assert(m.contains_key(p));
        assert(m.contains_key(q) && m[q] is Direct);
        lemma_resolved_is_chain(m, q);
        assert forall|k: int| 0 <= k <= p.len() implies m.contains_key(#[trigger] p.take(k))
            && m[p.take(k)] is Direct by {
            if k < p.len() {
                assert(p.take(k) =~= q.take(k));
            } else {
                assert(p.take(k) =~= p);
            }
        }
    } else {
        assert forall|k: int| 0 <= k <= p.len() implies m.contains_key(#[trigger] p.take(k))
            && m[p.take(k)] is Direct by {
            assert(p.take(k) =~= p);
        }
    }
}

/// A resolved path stays direct. Once the search for `p` finds nothing to
/// load in a store where no node lies below a link, loading any stored
/// link leaves every node from the root to `p` unchanged and direct; by
/// `lemma_load_keeps_resolved` this goes on through every later load,
/// and resolution changes the store by nothing else.
pub proof fn lemma_resolved_stays(
    m: Map<Seq<Seq<char>>, NodeView>,
    p: Seq<Seq<char>>,
    q: Seq<Seq<char>>,
    loaded: Seq<char>,
    raw: RawNode,
    reserved: Seq<Seq<char>>,
)
    requires
        links_are_leaves(m),
        pending_spec(m, p) == Ok::<Option<NodeView>, ErrorView>(None),
        m.contains_key(q),
        m[q] is Link,
        placed_at(q, m[q]),
        load_spec(m[q], loaded, raw, reserved) is Ok,
    ensures
        ({
            let after = insert_all(m, load_spec(m[q], loaded, raw, reserved)->Ok_0);
            &&& resolved_chain(after, p)
            &&& after.contains_key(p)
            &&& after[p] == m[p]
            &&& after[p] is Direct
        }),
{
    lemma_resolved_is_chain(m, p);
    lemma_load_keeps_resolved(m, p, q, loaded, raw, reserved);
    let after = insert_all(m, load_spec(m[q], loaded, raw, reserved)->Ok_0);
    assert(p.take(p.len() as int) =~= p);
    assert(after[p.take(p.len() as int)] == m[p.take(p.len() as int)]);
}

/// When the search finds nothing to load, the path holds a direct node.
pub proof fn lemma_pending_done_is_direct(m: Map<Seq<Seq<char>>, NodeView>, p: Seq<Seq<char>>)
    requires
        pending_spec(m, p) == Ok::<Option<NodeView>, ErrorView>(None),
    ensures
        m.contains_key(p),
        m[p] is Direct,
{
}

/// The link the search names is stored at `p` or at one of its
/// ancestors, so resolving `p` only ever loads documents above it.
pub proof fn lemma_pending_is_ancestor(m: Map<Seq<Seq<char>>, NodeView>, p: Seq<Seq<char>>)
    requires
        pending_spec(m, p) matches Ok(Some(_)),
    ensures
        exists|k: int|
            0 <= k <= p.len() && m.contains_key(#[trigger] p.take(k)) && m[p.take(k)] is Link && Ok::<
                Option<NodeView>,
                ErrorView,
            >(Some(m[p.take(k)])) == pending_spec(m, p),
    decreases p.len(),
{
    if m.contains_key(p) {
        assert(p.take(p.len() as int) =~= p);
    } else {
        let q = p.drop_last();
        lemma_pending_is_ancestor(m, q);
        let k = choose|k: int|
            0 <= k <= q.len() && m.contains_key(#[trigger] q.take(k)) && m[q.take(k)] is Link && Ok::<
                Option<NodeView>,
                ErrorView,
            >(Some(m[q.take(k)])) == pending_spec(m, q);
        assert(q.take(k) =~= p.take(k));
    }
}

/// Inserting pairs none of which is at `r` leaves `r` as it was.
pub proof fn lemma_insert_all_elsewhere(
    m: Map<Seq<Seq<char>>, NodeView>,
    v: Entries,
    r: Seq<Seq<char>>,
)
    requires
        forall|i: int| 0 <= i < v.len() ==> #[trigger] v[i].0 != r,
    ensures
        insert_all(m, v).contains_key(r) == m.contains_key(r),
        m.contains_key(r) ==> insert_all(m, v)[r] == m[r],
    decreases v.len(),
{
    if v.len() > 0 {
        let w = v.drop_last();
        assert forall|i: int| 0 <= i < w.len() implies #[trigger] w[i].0 != r by {
            assert(w[i] == v[i]);
        }
        lemma_insert_all_elsewhere(m, w, r);
        assert(v.last().0 != r);
    }
}

/// A resolved path stays resolved: loading any stored link puts every node
/// on the chain from the root to `p` back unchanged, so they all stay
/// direct. Resolution changes the store only by such loads.
pub proof fn lemma_load_keeps_resolved(
    m: Map<Seq<Seq<char>>, NodeView>,
    p: Seq<Seq<char>>,
    q: Seq<Seq<char>>,
    loaded: Seq<char>,
    raw: RawNode,
    reserved: Seq<Seq<char>>,
)
    requires
        resolved_chain(m, p),
        m.contains_key(q),
        m[q] is Link,
        placed_at(q, m[q]),
        load_spec(m[q], loaded, raw, reserved) is Ok,
    ensures
        ({
            let after = insert_all(m, load_spec(m[q], loaded, raw, reserved)->Ok_0);
            &&& resolved_chain(after, p)
            &&& forall|k: int| 0 <= k <= p.len() ==> after[#[trigger] p.take(k)] == m[p.take(k)]
        }),
{
    let l = m[q];
    let name = l.props().name;
    let v = load_spec(l, loaded, raw, reserved)->Ok_0;
    lemma_convert_placed(raw, link_parent(l), Some(name), loaded, reserved);
    let top = node_path_of(link_parent(l), node_name(crate::node::pair_views(raw.properties@), Some(name))->Some_0);
    if q.len() > 0 {
        assert(top =~= q);
    } else {
        assert(top =~= q);
    }
    let after = insert_all(m, v);
    assert forall|k: int| 0 <= k <= p.len() implies after.contains_key(#[trigger] p.take(k))
        && after[p.take(k)] == m[p.take(k)] && after[p.take(k)] is Direct by {
        let r = p.take(k);
        assert forall|i: int| 0 <= i < v.len() implies #[trigger] v[i].0 != r by {
            if v[i].0 == r {
                assert(under(q, r));
                assert(p.take(q.len() as int) =~= r.take(q.len() as int));
                assert(m[p.take(q.len() as int)] is Direct);
            }
        }
        lemma_insert_all_elsewhere(m, v, r);
    }
}

/// At depth 0 only the node itself is looked at: its link, if it is one.
pub proof fn lemma_depth_zero(m: Map<Seq<Seq<char>>, NodeView>, p: Seq<Seq<char>>)
    ensures
        depth_spec(m, p, 0) == (if !m.contains_key(p) {
            Err(ErrorView::PathNotFound(p))
        } else if m[p] is Link {
            Ok(Some(m[p]))
        } else {
            Ok::<Option<NodeView>, ErrorView>(None)
        }),
{
}

/// A link whose target is the document it was recorded in fails with
/// `LoopTarget`, whatever that document holds.
pub proof fn lemma_self_target_loops(
    l: NodeView,
    raw: RawNode,
    reserved: Seq<Seq<char>>,
)
    ensures
        load_spec(l, l.props().record_file, raw, reserved) == Err::<Entries, ErrorView>(
            ErrorView::LoopTarget(l.props().record_file),
        ),
{
}

} // verus!
