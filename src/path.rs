use vstd::prelude::*;
use vstd::string::*;

use crate::error::Error;
use crate::text::push_char;

verus! {

/// The views of a sequence of strings.
pub open spec fn string_views(v: Seq<String>) -> Seq<Seq<char>> {
    v.map_values(|s: String| s@)
}

/// Components joined by `/`, without a leading separator.
pub open spec fn join_components(cs: Seq<Seq<char>>) -> Seq<char>
    decreases cs.len(),
{
    if cs.len() == 0 {
        Seq::empty()
    } else if cs.len() == 1 {
        cs[0]
    } else {
        join_components(cs.drop_last()) + seq!['/'] + cs.last()
    }
}

/// The canonical string of a path: a leading `/`, then the components
/// joined by `/`. The root is `/`.
pub open spec fn path_string(cs: Seq<Seq<char>>) -> Seq<char> {
    seq!['/'] + join_components(cs)
}

/// The pieces of `t` between `/` separators, read left to right.
pub open spec fn split_components(t: Seq<char>) -> Seq<Seq<char>>
    decreases t.len(),
{
    if t.len() == 0 {
        seq![Seq::empty()]
    } else {
        let s = split_components(t.drop_last());
        if t.last() == '/' {
            s.push(Seq::empty())
        } else {
            s.update(s.len() - 1, s.last().push(t.last()))
        }
    }
}

/// The part of an absolute path string after the leading `/`, with one
/// trailing `/` dropped.
pub open spec fn path_body(s: Seq<char>) -> Seq<char> {
    let t = s.drop_first();
    if t.len() > 0 && t.last() == '/' {
        t.drop_last()
    } else {
        t
    }
}

/// The components that a path string denotes, or `None` when it is not
/// absolute.
pub open spec fn parse_path(s: Seq<char>) -> Option<Seq<Seq<char>>> {
    if s.len() == 0 || s[0] != '/' {
        None
    } else if path_body(s).len() == 0 {
        Some(Seq::empty())
    } else {
        Some(split_components(path_body(s)))
    }
}

pub proof fn lemma_split_nonempty(t: Seq<char>)
    ensures
        split_components(t).len() >= 1,
    decreases t.len(),
{
    if t.len() > 0 {
        lemma_split_nonempty(t.drop_last());
    }
}

/// Joining the pieces of a split gives the string back.
pub proof fn lemma_join_split(t: Seq<char>)
    ensures
        join_components(split_components(t)) == t,
    decreases t.len(),
{
    if t.len() == 0 {
        assert(join_components(split_components(t)) =~= t);
    } else {
        let u = t.drop_last();
        let s = split_components(u);
        lemma_join_split(u);
        lemma_split_nonempty(u);
        if t.last() == '/' {
            let n = s.push(Seq::empty());
            assert(n.drop_last() =~= s);
            assert(join_components(n) =~= t);
        } else {
            let n = s.update(s.len() - 1, s.last().push(t.last()));
            if s.len() == 1 {
                assert(join_components(n) =~= t);
            } else {
                assert(n.drop_last() =~= s.drop_last());
                assert(n.last() == s.last().push(t.last()));
                assert(join_components(s) == join_components(s.drop_last()) + seq!['/'] + s.last());
                assert(t =~= u.push(t.last()));
                assert(join_components(n) =~= t);
            }
        }
    }
}

/// Parsing an absolute path string and printing the path gives the string
/// back, unless it is a non-root string that ends in `/`.
pub proof fn lemma_path_round_trip(s: Seq<char>)
    requires
        s.len() > 0,
        s[0] == '/',
        s.len() == 1 || s.last() != '/',
    ensures
        parse_path(s) is Some,
        path_string(parse_path(s).unwrap()) == s,
{
    let t = path_body(s);
    assert(t =~= s.drop_first());
    if t.len() == 0 {
        assert(path_string(Seq::empty()) =~= s);
    } else {
        lemma_join_split(t);
        assert(path_string(split_components(t)) =~= s);
    }
}

/// An address in the tree: the sequence of names from the root down. The
/// empty sequence is the root.
#[derive(Debug, Clone)]
pub struct NodePath {
    pub components: Vec<String>,
}

impl View for NodePath {
    type V = Seq<Seq<char>>;

    open spec fn view(&self) -> Seq<Seq<char>> {
        string_views(self.components@)
    }
}

impl NodePath {
    /// The root path.
    pub fn new() -> (r: NodePath)
        ensures
            r@ == Seq::<Seq<char>>::empty(),
    {
        let r = NodePath { components: Vec::new() };
        assert(r@ =~= Seq::<Seq<char>>::empty());
        r
    }

    /// A copy of this path.
    pub fn duplicate(&self) -> (r: NodePath)
        ensures
            r@ == self@,
    {
        let r = NodePath { components: self.components.clone() };
        assert(r@ =~= self@);
        r
    }

    /// The canonical string form: `/` followed by the components joined by
    /// `/`.
    pub fn to_string(&self) -> (r: String)
        ensures
            r@ == path_string(self@),
    {
        let mut r = String::from_str("/");
        proof {
            reveal_strlit("/");
        }
        let mut i: usize = 0;
        while i < self.components.len()
            invariant
                i <= self.components.len(),
                r@ == seq!['/'] + join_components(self@.take(i as int)),
            decreases self.components.len() - i,
        {
            let ghost before = r@;
            if i > 0 {
                proof {
                    reveal_strlit("/");
                }
                r.append("/");
                assert(r@ =~= before + seq!['/']);
            }
            let ghost mid = r@;
            let c = self.components[i].as_str();
            assert(c@ == self@[i as int]);
            r.append(c);
            assert(r@ == mid + self@[i as int]);
            proof {
                let t = self@.take(i as int + 1);
                assert(t.drop_last() =~= self@.take(i as int));
                assert(t.last() == self.components@[i as int]@);
                if i == 0 {
                    assert(join_components(t) == t[0]);
                    assert(mid == before);
                } else {
                    assert(join_components(t) == join_components(t.drop_last()) + seq!['/']
                        + t.last());
                }
                assert(r@ =~= seq!['/'] + join_components(t));
            }
            i = i + 1;
        }
        assert(self@.take(self.components.len() as int) =~= self@);
        r
    }

    /// Reads an absolute `/`-separated path string. One trailing `/` is
    /// ignored.
    pub fn from(raw_path: &String) -> (r: Result<NodePath, Error>)
        ensures
            match r {
                Ok(p) => parse_path(raw_path@) == Some(p@),
                Err(e) => parse_path(raw_path@) is None && e == Error::NodePathMustBeAbsolute(
                    *raw_path,
                ),
            },
    {
        let s = raw_path.as_str();
        let n = s.unicode_len();
        if n == 0 || s.get_char(0) != '/' {
            return Err(Error::NodePathMustBeAbsolute(raw_path.clone()));
        }
        let mut end: usize = n;
        if n > 1 && s.get_char(n - 1) == '/' {
            end = n - 1;
        }
        let ghost body = path_body(raw_path@);
        assert(body =~= raw_path@.subrange(1, end as int));
        let mut components: Vec<String> = Vec::new();
        if end > 1 {
            let mut cur = String::new();
            let mut i: usize = 1;
            while i < end
                invariant
                    1 <= i <= end <= n,
                    n == raw_path@.len(),
                    s@ == raw_path@,
                    string_views(components@).push(cur@) == split_components(
                        raw_path@.subrange(1, i as int),
                    ),
                decreases end - i,
            {
                let c = s.get_char(i);
                proof {
                    let u = raw_path@.subrange(1, i as int + 1);
                    assert(u.drop_last() =~= raw_path@.subrange(1, i as int));
                    assert(u.last() == c);
                }
                if c == '/' {
                    components.push(cur);
                    cur = String::new();
                } else {
                    push_char(&mut cur, c);
                }
                i = i + 1;
                proof {
                    let u = raw_path@.subrange(1, i as int);
                    assert(string_views(components@).push(cur@) =~= split_components(u));
                }
            }
            components.push(cur);
            assert(string_views(components@) =~= split_components(body));
        } else {
            assert(string_views(components@) =~= Seq::<Seq<char>>::empty());
        }
        Ok(NodePath { components })
    }

    /// The path one level further down, under `component`.
    pub fn push(&self, component: String) -> (r: NodePath)
        ensures
            r@ == self@.push(component@),
    {
        let mut components = self.components.clone();
        components.push(component);
        let r = NodePath { components };
        assert(r@ =~= self@.push(component@));
        r
    }

    /// The path one level up; `None` for the root.
    pub fn parent(&self) -> (r: Option<NodePath>)
        ensures
            self@.len() == 0 ==> r is None,
            self@.len() > 0 ==> r is Some && r.unwrap()@ == self@.drop_last(),
    {
        let mut components = self.components.clone();
        if components.len() == 0 {
            None
        } else {
            components.pop();
            let r = NodePath { components };
            assert(r@ =~= self@.drop_last());
            Some(r)
        }
    }

    /// The last component; `None` for the root.
    pub fn name(&self) -> (r: Option<String>)
        ensures
            self@.len() == 0 ==> r is None,
            self@.len() > 0 ==> r is Some && r.unwrap()@ == self@.last(),
    {
        let n = self.components.len();
        if n == 0 {
            None
        } else {
            Some(self.components[n - 1].clone())
        }
    }

    /// Whether two paths have the same components.
    pub fn same_as(&self, other: &NodePath) -> (r: bool)
        ensures
            r == (self@ == other@),
    {
        let n = self.components.len();
        if n != other.components.len() {
            assert(self@.len() != other@.len());
            return false;
        }
        let mut i: usize = 0;
        while i < n
            invariant
                n == self.components.len() == other.components.len(),
                i <= n,
                forall|j: int| 0 <= j < i ==> self@[j] == other@[j],
            decreases n - i,
        {
            if self.components[i] != other.components[i] {
                assert(self@[i as int] != other@[i as int]);
                return false;
            }
            i = i + 1;
        }
        assert(self@ =~= other@);
        true
    }
}

} // verus!
