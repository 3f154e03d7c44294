use vstd::prelude::*;
use vstd::string::*;

use crate::error::ErrorView;
use crate::manipulator::{children_depth_spec, depth_spec};
use crate::node::{lookup, lookup_property, pair_views, path_views, Node, NodeView};
use crate::path::{string_views, NodePath};
use crate::tree::Tree;

verus! {

/// The name and version of a layout template.
#[derive(Debug, Clone)]
pub struct LayoutInfo {
    pub name: String,
    pub version: String,
}

/// `u` repeated `n` times.
pub open spec fn repeat(u: Seq<char>, n: nat) -> Seq<char>
    decreases n,
{
    if n == 0 {
        Seq::empty()
    } else {
        repeat(u, (n - 1) as nat) + u
    }
}

/// Lines joined by newlines.
pub open spec fn join_lines(lines: Seq<Seq<char>>) -> Seq<char>
    decreases lines.len(),
{
    if lines.len() == 0 {
        Seq::empty()
    } else if lines.len() == 1 {
        lines[0]
    } else {
        join_lines(lines.drop_last()) + seq!['\n'] + lines.last()
    }
}

/// `key: value` followed by two tabs for each key the node has, in the
/// order of `keys`.
pub open spec fn keyed_values(props: Seq<(Seq<char>, Seq<char>)>, keys: Seq<Seq<char>>) -> Seq<char>
    decreases keys.len(),
{
    if keys.len() == 0 {
        Seq::empty()
    } else {
        keyed_values(props, keys.drop_last()) + match lookup(props, keys.last()) {
            Some(v) => keys.last() + ": "@ + v + "\t\t"@,
            None => Seq::empty(),
        }
    }
}

/// What is shown beside a node: with one key its value (after `key: `
/// unless `hide_key`), with more keys each `key: value` the node has.
pub open spec fn appendix(props: Seq<(Seq<char>, Seq<char>)>, keys: Seq<Seq<char>>, hide_key: bool) -> Seq<
    char,
> {
    if keys.len() == 1 {
        match lookup(props, keys[0]) {
            Some(v) => if hide_key {
                v
            } else {
                keys[0] + ": "@ + v
            },
            None => Seq::empty(),
        }
    } else {
        keyed_values(props, keys)
    }
}

/// The longest name among the rows, in characters.
pub open spec fn widest(rows: Seq<(Seq<char>, Seq<char>)>) -> nat
    decreases rows.len(),
{
    if rows.len() == 0 {
        0
    } else {
        let w = widest(rows.drop_last());
        if w > rows.last().0.len() {
            w
        } else {
            rows.last().0.len()
        }
    }
}

/// Each row's name padded with spaces to `width`, four more spaces, then
/// its appendix.
pub open spec fn padded(rows: Seq<(Seq<char>, Seq<char>)>, width: nat) -> Seq<Seq<char>>
    decreases rows.len(),
{
    if rows.len() == 0 {
        Seq::empty()
    } else {
        let r = rows.last();
        padded(rows.drop_last(), width).push(
            r.0 + repeat(" "@, (width - r.0.len()) as nat) + "    "@ + r.1,
        )
    }
}

/// Rows as one text: names in a column, appendices aligned four spaces past
/// the widest name.
pub open spec fn appender_spec(rows: Seq<(Seq<char>, Seq<char>)>) -> Seq<char> {
    join_lines(padded(rows, widest(rows)))
}

/// Once a part of the tree is resolved, so is each child's part one level
/// less deep.
pub proof fn lemma_children_resolved(
    m: Map<Seq<Seq<char>>, NodeView>,
    cs: Seq<Seq<Seq<char>>>,
    n: int,
    d: nat,
    i: int,
)
    requires
        d > 0,
        0 <= i < n <= cs.len(),
        children_depth_spec(m, cs, n, d) == Ok::<Option<NodeView>, ErrorView>(None),
    ensures
        depth_spec(m, cs[i], (d - 1) as nat) == Ok::<Option<NodeView>, ErrorView>(None),
    decreases n,
{
    if i < n - 1 {
        lemma_children_resolved(m, cs, n - 1, d, i);
    }
}

/// Appends `u` to `s` `n` times.
fn append_repeat(s: &mut String, u: &str, n: usize)
    ensures
        final(s)@ == old(s)@ + repeat(u@, n as nat),
{
    let mut i: usize = 0;
    while i < n
        invariant
            i <= n,
            s@ == old(s)@ + repeat(u@, i as nat),
        decreases n - i,
    {
        s.append(u);
        i = i + 1;
        assert(s@ =~= old(s)@ + repeat(u@, i as nat));
    }
}

/// The text `appendix` states.
pub fn appendix_of(properties: &Vec<(String, String)>, keys: &Vec<String>, hide_key: bool) -> (r: String)
    ensures
        r@ == appendix(pair_views(properties@), string_views(keys@), hide_key),
{
    let ghost ks = string_views(keys@);
    let ghost props = pair_views(properties@);
    let mut r = String::new();
    if keys.len() == 1 {
        match lookup_property(properties, &keys[0]) {
            Some(v) => {
                if !hide_key {
                    r.append(keys[0].as_str());
                    r.append(": ");
                }
                r.append(v.as_str());
                assert(r@ =~= appendix(props, ks, hide_key));
            },
            None => {},
        }
        r
    } else {
        let mut i: usize = 0;
        while i < keys.len()
            invariant
                ks == string_views(keys@),
                props == pair_views(properties@),
                i <= keys.len(),
                r@ == keyed_values(props, ks.take(i as int)),
            decreases keys.len() - i,
        {
            let ghost before = r@;
            assert(ks.take(i as int + 1).drop_last() =~= ks.take(i as int));
            match lookup_property(properties, &keys[i]) {
                Some(v) => {
                    r.append(keys[i].as_str());
                    r.append(": ");
                    r.append(v.as_str());
                    r.append("\t\t");
                    assert(r@ =~= before + (ks[i as int] + ": "@ + v@ + "\t\t"@));
                },
                None => {
                    assert(r@ =~= before + Seq::<char>::empty());
                },
            }
            i = i + 1;
        }
        assert(ks.take(keys.len() as int) =~= ks);
        r
    }
}

/// The rows as one text: names in a column, appendices aligned after them.
pub fn appender(rows: Vec<(String, String)>) -> (r: String)
    ensures
        r@ == appender_spec(pair_views(rows@)),
{
    let ghost pv = pair_views(rows@);
    let mut width: usize = 0;
    let mut i: usize = 0;
    while i < rows.len()
        invariant
            pv == pair_views(rows@),
            i <= rows.len(),
            width == widest(pv.take(i as int)),
            i == 0 ==> width == 0,
            i > 0 ==> width == pv[widest_at(pv, i as int)].0.len(),
        decreases rows.len() - i,
    {
        assert(pv.take(i as int + 1).drop_last() =~= pv.take(i as int));
        let len = rows[i].0.as_str().unicode_len();
        if len > width {
            width = len;
        }
        i = i + 1;
        proof {
            lemma_widest_at(pv, i as int);
        }
    }
    assert(pv.take(rows.len() as int) =~= pv);
    proof {
        if rows.len() > 0 {
            lemma_widest_at(pv, rows.len() as int);
        }
    }
    let total = width;
    let mut r = String::new();
    let mut k: usize = 0;
    while k < rows.len()
        invariant
            pv == pair_views(rows@),
            k <= rows.len(),
            total == widest(pv),
            r@ == join_lines(padded(pv.take(k as int), total as nat)),
            forall|j: int| 0 <= j < pv.len() ==> #[trigger] pv[j].0.len() <= widest(pv),
        decreases rows.len() - k,
    {
        let ghost before = r@;
        let ghost t = pv.take(k as int + 1);
        assert(t.drop_last() =~= pv.take(k as int));
        if k > 0 {
            r.append("\n");
        }
        let name = rows[k].0.as_str();
        let len = name.unicode_len();
        assert(pv[k as int].0 == name@);
        r.append(name);
        append_repeat(&mut r, " ", total - len);
        r.append("    ");
        r.append(rows[k].1.as_str());
        proof {
            let lines = padded(t, total as nat);
            assert(lines.drop_last() == padded(pv.take(k as int), total as nat));
            assert(lines.len() == k + 1) by {
                lemma_padded_len(t, total as nat);
            }
            if k == 0 {
                assert(r@ =~= join_lines(lines));
            } else {
                reveal_strlit("\n");
                assert(r@ =~= join_lines(lines));
            }
        }
        k = k + 1;
    }
    proof {
        assert(pv.take(rows.len() as int) =~= pv);
    }
    r
}

/// An index of a widest row among the first `n`.
pub open spec fn widest_at(rows: Seq<(Seq<char>, Seq<char>)>, n: int) -> int
    decreases n,
{
    if n <= 1 {
        0
    } else {
        let j = widest_at(rows, n - 1);
        if rows[j].0.len() >= rows[n - 1].0.len() {
            j
        } else {
            n - 1
        }
    }
}

pub proof fn lemma_widest_at(rows: Seq<(Seq<char>, Seq<char>)>, n: int)
    requires
        0 < n <= rows.len(),
    ensures
        0 <= widest_at(rows, n) < n,
        widest(rows.take(n)) == rows[widest_at(rows, n)].0.len(),
        forall|j: int| 0 <= j < n ==> #[trigger] rows[j].0.len() <= widest(rows.take(n)),
    decreases n,
{
    assert(rows.take(n).drop_last() =~= rows.take(n - 1));
    if n > 1 {
        lemma_widest_at(rows, n - 1);
    } else {
        assert(rows.take(0).len() == 0);
    }
}

pub proof fn lemma_padded_len(rows: Seq<(Seq<char>, Seq<char>)>, width: nat)
    ensures
        padded(rows, width).len() == rows.len(),
    decreases rows.len(),
{
    if rows.len() > 0 {
        lemma_padded_len(rows.drop_last(), width);
    }
}

/// The plain layout's rows for the node at `p` on level `depth`, and its
/// descendants down to level `max`: each name indented four spaces per
/// level.
pub open spec fn plain_rows(
    m: Map<Seq<Seq<char>>, NodeView>,
    p: Seq<Seq<char>>,
    depth: int,
    max: int,
    keys: Seq<Seq<char>>,
    hide_key: bool,
) -> Seq<(Seq<char>, Seq<char>)>
    decreases max + 1 - depth, 0nat, 0int,
{
    if depth < 0 || depth > max || !m.contains_key(p) {
        Seq::empty()
    } else {
        match m[p] {
            NodeView::Direct { props, children, properties } => seq![
                (repeat("    "@, depth as nat) + props.name, appendix(properties, keys, hide_key)),
            ] + plain_children(m, children, children.len() as int, depth + 1, max, keys, hide_key),
            _ => Seq::empty(),
        }
    }
}

/// The plain layout's rows for the first `n` of the paths `cs`, on level
/// `depth`.
pub open spec fn plain_children(
    m: Map<Seq<Seq<char>>, NodeView>,
    cs: Seq<Seq<Seq<char>>>,
    n: int,
    depth: int,
    max: int,
    keys: Seq<Seq<char>>,
    hide_key: bool,
) -> Seq<(Seq<char>, Seq<char>)>
    decreases max + 1 - depth, 1nat, n,
{
    if n <= 0 || n > cs.len() || depth < 0 || depth > max {
        Seq::empty()
    } else {
        plain_children(m, cs, n - 1, depth, max, keys, hide_key) + plain_rows(
            m,
            cs[n - 1],
            depth,
            max,
            keys,
            hide_key,
        )
    }
}

/// The plain layout template.
pub struct PlainLayout {}

impl PlainLayout {
    pub fn new() -> PlainLayout {
        PlainLayout {  }
    }

    pub fn info() -> (r: LayoutInfo)
        ensures
            r.name@ == "plain"@,
            r.version@ == "1.0"@,
    {
        LayoutInfo { name: String::from_str("plain"), version: String::from_str("1.0") }
    }

    fn layout_helper(
        tree: &Tree,
        node_path: &NodePath,
        depth: usize,
        max: usize,
        keys: &Vec<String>,
        hide_key: bool,
    ) -> (r: Vec<(String, String)>)
        requires
            tree.wf(),
            depth <= max,
            depth_spec(tree@, node_path@, (max - depth) as nat) == Ok::<Option<NodeView>, ErrorView>(
                None,
            ),
        ensures
            pair_views(r@) == plain_rows(
                tree@,
                node_path@,
                depth as int,
                max as int,
                string_views(keys@),
                hide_key,
            ),
        decreases max - depth,
    {
        let ghost ks = string_views(keys@);
        let d = match tree.get_node(node_path) {
            Some(Node::Direct(d)) => d,
            _ => {
                return Vec::new();
            },
        };
        let mut line = String::new();
        append_repeat(&mut line, "    ", depth);
        line.append(d.node_properties.name.as_str());
        let extra = appendix_of(&d.properties, keys, hide_key);
        let mut rows: Vec<(String, String)> = Vec::new();
        rows.push((line, extra));
        let ghost cs = path_views(d.children@);
        let ghost head = pair_views(rows@);
        assert(cs.len() == d.children.len());
        if depth < max {
            let mut i: usize = 0;
            assert(plain_children(tree@, cs, 0, depth + 1, max as int, ks, hide_key)
                =~= Seq::<(Seq<char>, Seq<char>)>::empty());
            assert(pair_views(rows@) =~= head + Seq::<(Seq<char>, Seq<char>)>::empty());
            while i < d.children.len()
                invariant
                    tree.wf(),
                    depth < max,
                    ks == string_views(keys@),
                    cs == path_views(d.children@),
                    tree@.contains_key(node_path@),
                    tree@[node_path@] == d@,
                    depth_spec(tree@, node_path@, (max - depth) as nat) == Ok::<
                        Option<NodeView>,
                        ErrorView,
                    >(None),
                    i <= d.children.len(),
                    pair_views(rows@) == head + plain_children(
                        tree@,
                        cs,
                        i as int,
                        depth + 1,
                        max as int,
                        ks,
                        hide_key,
                    ),
                decreases d.children.len() - i,
            {
                proof {
                    lemma_children_resolved(tree@, cs, cs.len() as int, (max - depth) as nat, i as int);
                    assert(cs[i as int] == d.children@[i as int]@);
                }
                let ghost before = pair_views(rows@);
                let mut sub = PlainLayout::layout_helper(
                    tree,
                    &d.children[i],
                    depth + 1,
                    max,
                    keys,
                    hide_key,
                );
                let ghost sv = pair_views(sub@);
                rows.append(&mut sub);
                assert(pair_views(rows@) =~= before + sv);
                i = i + 1;
            }
        } else {
            assert(pair_views(rows@) =~= head + plain_children(
                tree@,
                cs,
                cs.len() as int,
                depth + 1,
                max as int,
                ks,
                hide_key,
            ));
        }
        assert(head =~= seq![(repeat("    "@, depth as nat) + d.node_properties.name@, appendix(pair_views(d.properties@), ks, hide_key))]);
        rows
    }

    /// The plain layout of the subtree at `node_path`, `depth` levels deep.
    /// The subtree must already be resolved that deep.
    pub fn layout(
        tree: &Tree,
        node_path: &NodePath,
        depth: usize,
        keys: &Vec<String>,
        hide_key: bool,
    ) -> (r: String)
        requires
            tree.wf(),
            depth_spec(tree@, node_path@, depth as nat) == Ok::<Option<NodeView>, ErrorView>(None),
        ensures
            r@ == appender_spec(
                plain_rows(tree@, node_path@, 0, depth as int, string_views(keys@), hide_key),
            ),
    {
        let rows = PlainLayout::layout_helper(tree, node_path, 0, depth, keys, hide_key);
        appender(rows)
    }
}

/// The tree-drawing columns before a node on level `n + 1`: four spaces
/// where the level is finished, a bar where it goes on.
pub open spec fn bars(fin: Seq<bool>, n: int) -> Seq<char>
    decreases n,
{
    if n <= 0 {
        Seq::empty()
    } else {
        bars(fin, n - 1) + if fin[n - 1] {
            "    "@
        } else {
            "│   "@
        }
    }
}

/// What stands before a node's name in the line layout.
pub open spec fn line_prefix(fin: Seq<bool>, depth: int, is_last: bool) -> Seq<char> {
    if depth == 0 {
        Seq::empty()
    } else {
        bars(fin, depth - 1) + if is_last {
            "└── "@
        } else {
            "├── "@
        }
    }
}

/// The line layout's rows for the node at `p` on level `depth` and its
/// descendants down to level `max`. `fin` marks the levels whose last
/// child has been reached.
pub open spec fn line_rows(
    m: Map<Seq<Seq<char>>, NodeView>,
    p: Seq<Seq<char>>,
    depth: int,
    max: int,
    fin: Seq<bool>,
    is_last: bool,
    keys: Seq<Seq<char>>,
    hide_key: bool,
) -> Seq<(Seq<char>, Seq<char>)>
    decreases max + 1 - depth, 0nat, 0int,
{
    if depth < 0 || depth > max || !m.contains_key(p) {
        Seq::empty()
    } else {
        match m[p] {
            NodeView::Direct { props, children, properties } => seq![
                (line_prefix(fin, depth, is_last) + props.name, appendix(properties, keys, hide_key)),
            ] + line_children(
                m,
                children,
                children.len() as int,
                depth + 1,
                max,
                fin,
                if depth > 0 {
                    fin.update(depth, true)
                } else {
                    fin
                },
                keys,
                hide_key,
            ),
            _ => Seq::empty(),
        }
    }
}

/// The line layout's rows for the first `n` of the paths `cs` on level
/// `depth`; the last of all `cs` is drawn with `fin_last`.
pub open spec fn line_children(
    m: Map<Seq<Seq<char>>, NodeView>,
    cs: Seq<Seq<Seq<char>>>,
    n: int,
    depth: int,
    max: int,
    fin: Seq<bool>,
    fin_last: Seq<bool>,
    keys: Seq<Seq<char>>,
    hide_key: bool,
) -> Seq<(Seq<char>, Seq<char>)>
    decreases max + 1 - depth, 1nat, n,
{
    if n <= 0 || n > cs.len() || depth < 0 || depth > max {
        Seq::empty()
    } else {
        line_children(m, cs, n - 1, depth, max, fin, fin_last, keys, hide_key) + line_rows(
            m,
            cs[n - 1],
            depth,
            max,
            if n == cs.len() {
                fin_last
            } else {
                fin
            },
            n == cs.len(),
            keys,
            hide_key,
        )
    }
}

/// A copy of `v` with position `i` set.
fn with_flag(v: &Vec<bool>, i: usize) -> (r: Vec<bool>)
    requires
        i < v@.len(),
    ensures
        r@ == v@.update(i as int, true),
{
    let mut r: Vec<bool> = Vec::new();
    let mut j: usize = 0;
    while j < v.len()
        invariant
            j <= v@.len(),
            i < v@.len(),
            r@ =~= v@.update(i as int, true).take(j as int),
        decreases v.len() - j,
    {
        if j == i {
            r.push(true);
        } else {
            r.push(v[j]);
        }
        j = j + 1;
    }
    r
}

/// The line layout template.
pub struct LineLayout {}

impl LineLayout {
    pub fn new() -> LineLayout {
        LineLayout {  }
    }

    pub fn info() -> (r: LayoutInfo)
        ensures
            r.name@ == "line"@,
            r.version@ == "1.0"@,
    {
        LayoutInfo { name: String::from_str("line"), version: String::from_str("1.0") }
    }

    fn layout_helper(
        tree: &Tree,
        node_path: &NodePath,
        depth: usize,
        max: usize,
        finished: &Vec<bool>,
        is_last: bool,
        keys: &Vec<String>,
        hide_key: bool,
    ) -> (r: Vec<(String, String)>)
        requires
            tree.wf(),
            depth <= max,
            finished@.len() == max + 1,
            depth_spec(tree@, node_path@, (max - depth) as nat) == Ok::<Option<NodeView>, ErrorView>(
                None,
            ),
        ensures
            pair_views(r@) == line_rows(
                tree@,
                node_path@,
                depth as int,
                max as int,
                finished@,
                is_last,
                string_views(keys@),
                hide_key,
            ),
        decreases max - depth,
    {
        let ghost ks = string_views(keys@);
        let ghost fin = finished@;
        let d = match tree.get_node(node_path) {
            Some(Node::Direct(d)) => d,
            _ => {
                return Vec::new();
            },
        };
        let mut line = String::new();
        if depth > 0 {
            let mut step: usize = 1;
            while step < depth
                invariant
                    1 <= step <= depth,
                    fin == finished@,
                    finished@.len() == max + 1,
                    depth <= max,
                    line@ == bars(fin, step - 1),
                decreases depth - step,
            {
                let ghost before = line@;
                if finished[step - 1] {
                    line.append("    ");
                } else {
                    line.append("│   ");
                }
                assert(line@ =~= bars(fin, step as int));
                step = step + 1;
            }
            if is_last {
                line.append("└── ");
            } else {
                line.append("├── ");
            }
        }
        let ghost prefix = line@;
        assert(prefix =~= line_prefix(fin, depth as int, is_last));
        line.append(d.node_properties.name.as_str());
        let extra = appendix_of(&d.properties, keys, hide_key);
        let mut rows: Vec<(String, String)> = Vec::new();
        rows.push((line, extra));
        let ghost cs = path_views(d.children@);
        let ghost head = pair_views(rows@);
        let ghost fin_last = if depth > 0 {
            fin.update(depth as int, true)
        } else {
            fin
        };
        assert(cs.len() == d.children.len());
        if depth < max {
            let last_flags = if depth > 0 {
                with_flag(finished, depth)
            } else {
                with_flag(finished, max)
            };
            let n = d.children.len();
            let mut i: usize = 0;
            assert(pair_views(rows@) =~= head + Seq::<(Seq<char>, Seq<char>)>::empty());
            while i < n
                invariant
                    tree.wf(),
                    depth < max,
                    n == d.children.len(),
                    ks == string_views(keys@),
                    cs == path_views(d.children@),
                    fin == finished@,
                    finished@.len() == max + 1,
                    depth > 0 ==> last_flags@ == fin_last,
                    fin_last == (if depth > 0 {
                        fin.update(depth as int, true)
                    } else {
                        fin
                    }),
                    last_flags@.len() == max + 1,
                    tree@.contains_key(node_path@),
                    tree@[node_path@] == d@,
                    depth_spec(tree@, node_path@, (max - depth) as nat) == Ok::<
                        Option<NodeView>,
                        ErrorView,
                    >(None),
                    i <= n,
                    pair_views(rows@) == head + line_children(
                        tree@,
                        cs,
                        i as int,
                        depth + 1,
                        max as int,
                        fin,
                        fin_last,
                        ks,
                        hide_key,
                    ),
                decreases n - i,
            {
                proof {
                    lemma_children_resolved(tree@, cs, cs.len() as int, (max - depth) as nat, i as int);
                    assert(cs[i as int] == d.children@[i as int]@);
                }
                let ghost before = pair_views(rows@);
                let last = i + 1 == n;
                let mut sub = if last && depth > 0 {
                    LineLayout::layout_helper(tree, &d.children[i], depth + 1, max, &last_flags, true, keys, hide_key)
                } else {
                    LineLayout::layout_helper(tree, &d.children[i], depth + 1, max, finished, last, keys, hide_key)
                };
                let ghost sv = pair_views(sub@);
                rows.append(&mut sub);
                assert(pair_views(rows@) =~= before + sv);
                i = i + 1;
            }
        } else {
            assert(pair_views(rows@) =~= head + line_children(
                tree@,
                cs,
                cs.len() as int,
                depth + 1,
                max as int,
                fin,
                fin_last,
                ks,
                hide_key,
            ));
        }
        rows
    }

    /// The line layout of the subtree at `node_path`, `depth` levels deep.
    /// The subtree must already be resolved that deep.
    pub fn layout(
        tree: &Tree,
        node_path: &NodePath,
        depth: usize,
        keys: &Vec<String>,
        hide_key: bool,
    ) -> (r: String)
        requires
            tree.wf(),
            depth < usize::MAX,
            depth_spec(tree@, node_path@, depth as nat) == Ok::<Option<NodeView>, ErrorView>(None),
        ensures
            r@ == appender_spec(
                line_rows(
                    tree@,
                    node_path@,
                    0,
                    depth as int,
                    Seq::new((depth + 1) as nat, |i: int| false),
                    false,
                    string_views(keys@),
                    hide_key,
                ),
            ),
    {
        let mut finished: Vec<bool> = Vec::new();
        let mut i: usize = 0;
        while i <= depth
            invariant
                i <= depth + 1,
                depth < usize::MAX,
                finished@ =~= Seq::new(i as nat, |j: int| false),
            decreases depth + 1 - i,
        {
            finished.push(false);
            i = i + 1;
        }
        let rows = LineLayout::layout_helper(tree, node_path, 0, depth, &finished, false, keys, hide_key);
        appender(rows)
    }
}

/// Two tabs and `key: value` for each key the node has, in the order of
/// `keys`.
pub open spec fn tabbed_values(props: Seq<(Seq<char>, Seq<char>)>, keys: Seq<Seq<char>>) -> Seq<char>
    decreases keys.len(),
{
    if keys.len() == 0 {
        Seq::empty()
    } else {
        tabbed_values(props, keys.drop_last()) + match lookup(props, keys.last()) {
            Some(v) => "\t\t"@ + keys.last() + ": "@ + v,
            None => Seq::empty(),
        }
    }
}

/// What the triangle layout puts after a name.
pub open spec fn tri_suffix(props: Seq<(Seq<char>, Seq<char>)>, keys: Seq<Seq<char>>, hide_key: bool) -> Seq<
    char,
> {
    if keys.len() == 1 {
        match lookup(props, keys[0]) {
            Some(v) => "\t\t"@ + if hide_key {
                v
            } else {
                keys[0] + ": "@ + v
            },
            None => Seq::empty(),
        }
    } else {
        tabbed_values(props, keys)
    }
}

/// The triangle layout's lines for the node at `p` on level `depth` and
/// its descendants down to level `max`: two spaces per level, and a
/// triangle before nodes whose children are shown.
pub open spec fn tri_lines(
    m: Map<Seq<Seq<char>>, NodeView>,
    p: Seq<Seq<char>>,
    depth: int,
    max: int,
    keys: Seq<Seq<char>>,
    hide_key: bool,
) -> Seq<Seq<char>>
    decreases max + 1 - depth, 0nat, 0int,
{
    if depth < 0 || depth > max || !m.contains_key(p) {
        Seq::empty()
    } else {
        match m[p] {
            NodeView::Direct { props, children, properties } => seq![
                repeat("  "@, depth as nat) + (if children.len() > 0 && depth != max {
                    "▾ "@
                } else {
                    Seq::empty()
                }) + props.name + tri_suffix(properties, keys, hide_key),
            ] + tri_children(m, children, children.len() as int, depth + 1, max, keys, hide_key),
            _ => Seq::empty(),
        }
    }
}

/// The triangle layout's lines for the first `n` of the paths `cs` on
/// level `depth`.
pub open spec fn tri_children(
    m: Map<Seq<Seq<char>>, NodeView>,
    cs: Seq<Seq<Seq<char>>>,
    n: int,
    depth: int,
    max: int,
    keys: Seq<Seq<char>>,
    hide_key: bool,
) -> Seq<Seq<char>>
    decreases max + 1 - depth, 1nat, n,
{
    if n <= 0 || n > cs.len() || depth < 0 || depth > max {
        Seq::empty()
    } else {
        tri_children(m, cs, n - 1, depth, max, keys, hide_key) + tri_lines(
            m,
            cs[n - 1],
            depth,
            max,
            keys,
            hide_key,
        )
    }
}

/// The text `tri_suffix` states.
fn tri_suffix_of(properties: &Vec<(String, String)>, keys: &Vec<String>, hide_key: bool) -> (r: String)
    ensures
        r@ == tri_suffix(pair_views(properties@), string_views(keys@), hide_key),
{
    let ghost ks = string_views(keys@);
    let ghost props = pair_views(properties@);
    let mut r = String::new();
    if keys.len() == 1 {
        match lookup_property(properties, &keys[0]) {
            Some(v) => {
                r.append("\t\t");
                if !hide_key {
                    r.append(keys[0].as_str());
                    r.append(": ");
                }
                r.append(v.as_str());
                assert(r@ =~= tri_suffix(props, ks, hide_key));
            },
            None => {},
        }
        r
    } else {
        let mut i: usize = 0;
        while i < keys.len()
            invariant
                ks == string_views(keys@),
                props == pair_views(properties@),
                i <= keys.len(),
                r@ == tabbed_values(props, ks.take(i as int)),
            decreases keys.len() - i,
        {
            let ghost before = r@;
            assert(ks.take(i as int + 1).drop_last() =~= ks.take(i as int));
            match lookup_property(properties, &keys[i]) {
                Some(v) => {
                    r.append("\t\t");
                    r.append(keys[i].as_str());
                    r.append(": ");
                    r.append(v.as_str());
                    assert(r@ =~= before + ("\t\t"@ + ks[i as int] + ": "@ + v@));
                },
                None => {
                    assert(r@ =~= before + Seq::<char>::empty());
                },
            }
            i = i + 1;
        }
        assert(ks.take(keys.len() as int) =~= ks);
        r
    }
}

/// The lines joined by newlines.
pub fn join_with_newlines(lines: &Vec<String>) -> (r: String)
    ensures
        r@ == join_lines(string_views(lines@)),
{
    let ghost lv = string_views(lines@);
    let mut r = String::new();
    let mut k: usize = 0;
    while k < lines.len()
        invariant
            lv == string_views(lines@),
            k <= lines.len(),
            r@ == join_lines(lv.take(k as int)),
        decreases lines.len() - k,
    {
        let ghost t = lv.take(k as int + 1);
        assert(t.drop_last() =~= lv.take(k as int));
        if k > 0 {
            r.append("\n");
        }
        r.append(lines[k].as_str());
        proof {
            reveal_strlit("\n");
            assert(r@ =~= join_lines(t));
        }
        k = k + 1;
    }
    assert(lv.take(lines.len() as int) =~= lv);
    r
}

/// The triangle layout template.
pub struct TriangleLayout {}

impl TriangleLayout {
    pub fn new() -> TriangleLayout {
        TriangleLayout {  }
    }

    pub fn info() -> (r: LayoutInfo)
        ensures
            r.name@ == "triangle"@,
            r.version@ == "1.0"@,
    {
        LayoutInfo { name: String::from_str("triangle"), version: String::from_str("1.0") }
    }

    fn layout_helper(
        tree: &Tree,
        node_path: &NodePath,
        depth: usize,
        max: usize,
        keys: &Vec<String>,
        hide_key: bool,
    ) -> (r: Vec<String>)
        requires
            tree.wf(),
            depth <= max,
            depth_spec(tree@, node_path@, (max - depth) as nat) == Ok::<Option<NodeView>, ErrorView>(
                None,
            ),
        ensures
            string_views(r@) == tri_lines(
                tree@,
                node_path@,
                depth as int,
                max as int,
                string_views(keys@),
                hide_key,
            ),
        decreases max - depth,
    {
        let ghost ks = string_views(keys@);
        let d = match tree.get_node(node_path) {
            Some(Node::Direct(d)) => d,
            _ => {
                return Vec::new();
            },
        };
        let mut line = String::new();
        append_repeat(&mut line, "  ", depth);
        if d.children.len() > 0 && depth != max {
            line.append("▾ ");
        }
        line.append(d.node_properties.name.as_str());
        let suffix = tri_suffix_of(&d.properties, keys, hide_key);
        line.append(suffix.as_str());
        let mut lines: Vec<String> = Vec::new();
        lines.push(line);
        let ghost cs = path_views(d.children@);
        let ghost head = string_views(lines@);
        assert(cs.len() == d.children.len());
        if depth < max {
            let mut i: usize = 0;
            assert(string_views(lines@) =~= head + Seq::<Seq<char>>::empty());
            while i < d.children.len()
                invariant
                    tree.wf(),
                    depth < max,
                    ks == string_views(keys@),
                    cs == path_views(d.children@),
                    tree@.contains_key(node_path@),
                    tree@[node_path@] == d@,
                    depth_spec(tree@, node_path@, (max - depth) as nat) == Ok::<
                        Option<NodeView>,
                        ErrorView,
                    >(None),
                    i <= d.children.len(),
                    string_views(lines@) == head + tri_children(
                        tree@,
                        cs,
                        i as int,
                        depth + 1,
                        max as int,
                        ks,
                        hide_key,
                    ),
                decreases d.children.len() - i,
            {
                proof {
                    lemma_children_resolved(tree@, cs, cs.len() as int, (max - depth) as nat, i as int);
                    assert(cs[i as int] == d.children@[i as int]@);
                }
                let ghost before = string_views(lines@);
                let mut sub = TriangleLayout::layout_helper(
                    tree,
                    &d.children[i],
                    depth + 1,
                    max,
                    keys,
                    hide_key,
                );
                let ghost sv = string_views(sub@);
                lines.append(&mut sub);
                assert(string_views(lines@) =~= before + sv);
                i = i + 1;
            }
        } else {
            assert(string_views(lines@) =~= head + tri_children(
                tree@,
                cs,
                cs.len() as int,
                depth + 1,
                max as int,
                ks,
                hide_key,
            ));
        }
        lines
    }

    /// The triangle layout of the subtree at `node_path`, `depth` levels
    /// deep. The subtree must already be resolved that deep.
    pub fn layout(
        tree: &Tree,
        node_path: &NodePath,
        depth: usize,
        keys: &Vec<String>,
        hide_key: bool,
    ) -> (r: String)
        requires
            tree.wf(),
            depth_spec(tree@, node_path@, depth as nat) == Ok::<Option<NodeView>, ErrorView>(None),
        ensures
            r@ == join_lines(tri_lines(tree@, node_path@, 0, depth as int, string_views(keys@), hide_key)),
    {
        let lines = TriangleLayout::layout_helper(tree, node_path, 0, depth, keys, hide_key);
        join_with_newlines(&lines)
    }
}

} // verus!
