use vstd::prelude::*;
use vstd::string::*;

use crate::error::Error;
use crate::node::{Node, NodeView};
use crate::path::NodePath;

verus! {

/// Settings that hold for the whole tree.
#[derive(Debug, Clone)]
pub struct TreeConfig {
    /// The display name of the root when its document gives none.
    pub project_name: String,
}

/// A node stored at `p` records `p`'s parent, and, below the root, `p`'s
/// last component as its name; a direct node's children lie one level
/// below `p`.
pub open spec fn placed_at(p: Seq<Seq<char>>, n: NodeView) -> bool {
    &&& (p.len() == 0 ==> n.props().parent is None)
    &&& (p.len() > 0 ==> n.props().parent == Some(p.drop_last()) && n.props().name == p.last())
    &&& match n {
        NodeView::Direct { children, .. } => forall|i: int|
            0 <= i < children.len() ==> #[trigger] children[i].len() == p.len() + 1
                && children[i].drop_last() == p,
        _ => true,
    }
}

/// Index of the last `/` in `s`, or -1.
pub open spec fn last_slash(s: Seq<char>) -> int
    decreases s.len(),
{
    if s.len() == 0 {
        -1
    } else if s.last() == '/' {
        s.len() - 1
    } else {
        last_slash(s.drop_last())
    }
}

/// The directory part of a file path: what stands before its last `/`
/// (`/` itself when that is the first character; empty when there is none).
pub open spec fn dir_of(f: Seq<char>) -> Seq<char> {
    let i = last_slash(f);
    if i < 0 {
        Seq::empty()
    } else if i == 0 {
        seq!['/']
    } else {
        f.take(i)
    }
}

/// `name` placed under directory `d`.
pub open spec fn join_dir(d: Seq<char>, name: Seq<char>) -> Seq<char> {
    if d.len() == 0 {
        name
    } else if d.last() == '/' {
        d + name
    } else {
        d + seq!['/'] + name
    }
}

/// The on-disk location of the node at `p`: the directory of the root's
/// document, joined with the components of `p`. `None` when `p` or one of
/// its ancestors is not stored.
pub open spec fn fs_path(m: Map<Seq<Seq<char>>, NodeView>, p: Seq<Seq<char>>) -> Option<Seq<char>>
    decreases p.len(),
{
    if !m.contains_key(p) {
        None
    } else if p.len() == 0 {
        Some(dir_of(m[p].props().record_file))
    } else {
        match fs_path(m, p.drop_last()) {
            Some(d) => Some(join_dir(d, p.last())),
            None => None,
        }
    }
}

/// The longest of `p` and its ancestors that is not stored, looking
/// upwards from `p`.
pub open spec fn first_missing(m: Map<Seq<Seq<char>>, NodeView>, p: Seq<Seq<char>>) -> Seq<
    Seq<char>,
>
    decreases p.len(),
{
    if !m.contains_key(p) || p.len() == 0 {
        p
    } else {
        first_missing(m, p.drop_last())
    }
}

/// The store: one node per path, and the tree's settings.
pub struct Tree {
    entries: Vec<(NodePath, Node)>,
    model: Ghost<Map<Seq<Seq<char>>, NodeView>>,
    config: TreeConfig,
}

impl View for Tree {
    type V = Map<Seq<Seq<char>>, NodeView>;

    closed spec fn view(&self) -> Map<Seq<Seq<char>>, NodeView> {
        self.model@
    }
}

impl Tree {
    /// The store's internal consistency: one entry per path, agreeing with
    /// the view, and every node placed at its own path.
    pub closed spec fn wf(&self) -> bool {
        let e = self.entries@;
        let m = self.model@;
        &&& forall|i: int, j: int|
            0 <= i < j < e.len() ==> #[trigger] e[i].0@ != #[trigger] e[j].0@
        &&& forall|i: int|
            0 <= i < e.len() ==> m.contains_key(#[trigger] e[i].0@) && m[e[i].0@] == e[i].1@
        &&& forall|k: Seq<Seq<char>>|
            m.contains_key(k) ==> exists|i: int| 0 <= i < e.len() && #[trigger] e[i].0@ == k
        &&& forall|k: Seq<Seq<char>>| #[trigger] m.contains_key(k) ==> placed_at(k, m[k])
    }

    /// The project name the tree was made with.
    pub closed spec fn project_name(&self) -> Seq<char> {
        self.config.project_name@
    }

    /// Every stored node is placed at its own path.
    pub proof fn lemma_placed(&self, p: Seq<Seq<char>>)
        requires
            self.wf(),
            self@.contains_key(p),
        ensures
            placed_at(p, self@[p]),
    {
    }

    /// The length of the longest stored path.
    pub fn max_path_len(&self) -> (r: usize)
        requires
            self.wf(),
        ensures
            forall|k: Seq<Seq<char>>| #[trigger] self@.contains_key(k) ==> k.len() <= r,
    {
        let mut r: usize = 0;
        let mut i: usize = 0;
        while i < self.entries.len()
            invariant
                self.wf(),
                i <= self.entries@.len(),
                forall|j: int| 0 <= j < i ==> #[trigger] self.entries@[j].0@.len() <= r,
            decreases self.entries.len() - i,
        {
            let n = self.entries[i].0.components.len();
            if n > r {
                r = n;
            }
            i = i + 1;
        }
        assert forall|k: Seq<Seq<char>>| #[trigger] self@.contains_key(k) implies k.len() <= r by {
            let j = choose|j: int| 0 <= j < self.entries@.len() && #[trigger] self.entries@[j].0@ == k;
            assert(self.entries@[j].0@ == k);
        }
        r
    }

    /// An empty store.
    pub fn new(config: &TreeConfig) -> (r: Tree)
        ensures
            r.wf(),
            r@ == Map::<Seq<Seq<char>>, NodeView>::empty(),
            r.project_name() == config.project_name@,
    {
        Tree {
            entries: Vec::new(),
            model: Ghost(Map::empty()),
            config: TreeConfig { project_name: config.project_name.clone() },
        }
    }

    /// A copy of the settings.
    pub fn config(&self) -> (r: TreeConfig)
        ensures
            r.project_name@ == self.project_name(),
    {
        TreeConfig { project_name: self.config.project_name.clone() }
    }

    fn find(&self, node_path: &NodePath) -> (r: Option<usize>)
        requires
            self.wf(),
        ensures
            match r {
                Some(i) => i < self.entries@.len() && self.entries@[i as int].0@ == node_path@,
                None => !self@.contains_key(node_path@),
            },
    {
        let mut i: usize = 0;
        while i < self.entries.len()
            invariant
                self.wf(),
                i <= self.entries@.len(),
                forall|j: int| 0 <= j < i ==> #[trigger] self.entries@[j].0@ != node_path@,
            decreases self.entries.len() - i,
        {
            if self.entries[i].0.same_as(node_path) {
                return Some(i);
            }
            i = i + 1;
        }
        None
    }

    /// The node at `node_path`, if stored.
    pub fn get_node(&self, node_path: &NodePath) -> (r: Option<&Node>)
        requires
            self.wf(),
        ensures
            match r {
                Some(n) => self@.contains_key(node_path@) && n@ == self@[node_path@],
                None => !self@.contains_key(node_path@),
            },
    {
        match self.find(node_path) {
            Some(i) => Some(&self.entries[i].1),
            None => None,
        }
    }

    /// The root node, if stored.
    pub fn root(&self) -> (r: Option<&Node>)
        requires
            self.wf(),
        ensures
            match r {
                Some(n) => self@.contains_key(Seq::empty()) && n@ == self@[Seq::empty()],
                None => !self@.contains_key(Seq::empty()),
            },
    {
        let root_path = NodePath::new();
        self.get_node(&root_path)
    }

    /// Stores `node` at `node_path`, replacing and returning what was there.
    pub fn insert_node(&mut self, node_path: NodePath, node: Node) -> (r: Option<Node>)
        requires
            old(self).wf(),
            placed_at(node_path@, node@),
        ensures
            final(self).wf(),
            final(self)@ == old(self)@.insert(node_path@, node@),
            final(self).project_name() == old(self).project_name(),
            match r {
                Some(n) => old(self)@.contains_key(node_path@) && n@ == old(self)@[node_path@],
                None => !old(self)@.contains_key(node_path@),
            },
    {
        let ghost key = node_path@;
        let ghost val = node@;
        let ghost old_entries = self.entries@;
        match self.find(&node_path) {
            Some(i) => {
                let (_, previous) = self.entries.remove(i);
                self.entries.insert(i, (node_path, node));
                self.model = Ghost(self.model@.insert(key, val));
                proof {
                    assert(self.entries@ =~= old_entries.update(i as int, self.entries@[i as int]));
                    let e = self.entries@;
                    let m = self.model@;
                    assert forall|k: Seq<Seq<char>>| m.contains_key(k) implies exists|j: int|
                        0 <= j < e.len() && #[trigger] e[j].0@ == k by {
                        if k != key {
                            let j = choose|j: int| 0 <= j < old_entries.len() && #[trigger] old_entries[j].0@ == k;
                            assert(e[j].0@ == k);
                        } else {
                            assert(e[i as int].0@ == k);
                        }
                    }
                }
                Some(previous)
            },
            None => {
                self.entries.push((node_path, node));
                self.model = Ghost(self.model@.insert(key, val));
                proof {
                    let e = self.entries@;
                    let m = self.model@;
                    assert(e =~= old_entries.push(e.last()));
                    assert forall|k: Seq<Seq<char>>| m.contains_key(k) implies exists|j: int|
                        0 <= j < e.len() && #[trigger] e[j].0@ == k by {
                        if k != key {
                            let j = choose|j: int| 0 <= j < old_entries.len() && #[trigger] old_entries[j].0@ == k;
                            assert(e[j].0@ == k);
                        } else {
                            assert(e[e.len() - 1].0@ == k);
                        }
                    }
                }
                None
            },
        }
    }

    /// The path of `node`, rebuilt from its parent and its name.
    pub fn get_node_path(&self, node: &Node) -> (r: NodePath)
        ensures
            r@ == match node@.props().parent {
                Some(p) => p.push(node@.props().name),
                None => Seq::empty(),
            },
    {
        let props = node.node_properties();
        match props.parent {
            Some(parent) => parent.push(props.name),
            None => NodePath::new(),
        }
    }

    /// The on-disk location of the node at `node_path`: the directory of the
    /// root's document joined with the path's components.
    pub fn get_path_buf(&self, node_path: &NodePath) -> (r: Result<String, Error>)
        requires
            self.wf(),
        ensures
            match r {
                Ok(s) => fs_path(self@, node_path@) == Some(s@),
                Err(e) => fs_path(self@, node_path@) is None && (e matches Error::PathNotFound(q)
                    && q@ == first_missing(self@, node_path@)),
            },
        decreases node_path@.len(),
    {
        match self.get_node(node_path) {
            None => Err(Error::PathNotFound(node_path.duplicate())),
            Some(node) => match node_path.parent() {
                None => {
                    let record_file = match node {
                        Node::Direct(d) => &d.node_properties.record_file,
                        Node::Link(l) => &l.node_properties.record_file,
                    };
                    Ok(directory_of(record_file))
                },
                Some(parent) => {
                    let d = self.get_path_buf(&parent)?;
                    let name = node_path.name().unwrap();
                    Ok(join_directory(d, &name))
                },
            },
        }
    }

    /// Drops every node.
    pub fn clear(&mut self)
        requires
            old(self).wf(),
        ensures
            final(self).wf(),
            final(self)@ == Map::<Seq<Seq<char>>, NodeView>::empty(),
            final(self).project_name() == old(self).project_name(),
    {
        self.entries = Vec::new();
        self.model = Ghost(Map::empty());
    }
}

/// The directory part of a file path, as `dir_of` states it.
pub fn directory_of(f: &String) -> (r: String)
    ensures
        r@ == dir_of(f@),
{
    let s = f.as_str();
    let n = s.unicode_len();
    let mut i: usize = n;
    assert(f@.take(n as int) =~= f@);
    while i > 0 && s.get_char(i - 1) != '/'
        invariant
            i <= n == f@.len(),
            s@ == f@,
            last_slash(f@) == last_slash(f@.take(i as int)),
        decreases i,
    {
        proof {
            let t = f@.take(i as int);
            assert(t.drop_last() =~= f@.take(i as int - 1));
        }
        i = i - 1;
    }
    if i == 0 {
        assert(f@.take(0).len() == 0);
        String::new()
    } else if i == 1 {
        proof {
            reveal_strlit("/");
        }
        let r = String::from_str("/");
        assert(r@ =~= seq!['/']);
        r
    } else {
        s.substring_char(0, i - 1).to_string()
    }
}

/// `name` placed under directory `d`, as `join_dir` states it.
pub fn join_directory(d: String, name: &String) -> (r: String)
    ensures
        r@ == join_dir(d@, name@),
{
    let n = d.as_str().unicode_len();
    if n == 0 {
        name.clone()
    } else if d.as_str().get_char(n - 1) == '/' {
        d.concat(name.as_str())
    } else {
        proof {
            reveal_strlit("/");
        }
        let r = d.concat("/").concat(name.as_str());
        assert(r@ =~= join_dir(d@, name@));
        r
    }
}

} // verus!
