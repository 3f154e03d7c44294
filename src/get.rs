use vstd::prelude::*;
use vstd::string::*;

use crate::error::Error;
use crate::layout::{join_lines, join_with_newlines};
use crate::node::{lookup, lookup_property, Node, NodeView};
use crate::path::{path_string, string_views, NodePath};
use crate::tree::{fs_path, Tree};

verus! {

/// The keys the tree supplies itself, which documents may not use.
pub open spec fn preserved_keys_spec() -> Seq<Seq<char>> {
    seq!["path"@, "parent"@, "record_file"@]
}

/// The keys the tree supplies itself: `path`, `parent` and `record_file`.
pub fn preserved_keys() -> (r: Vec<String>)
    ensures
        string_views(r@) == preserved_keys_spec(),
{
    let mut r: Vec<String> = Vec::new();
    r.push(String::from_str("path"));
    r.push(String::from_str("parent"));
    r.push(String::from_str("record_file"));
    assert(string_views(r@) =~= preserved_keys_spec());
    r
}

/// Why a `get` found nothing.
#[derive(Debug)]
pub enum GetError {
    /// Neither a property of the node nor a key the tree supplies.
    PropertyInexist(String),
    /// `parent` asked of the root.
    NoParent,
    /// The node's location could not be worked out.
    Tree(Error),
}

/// What `get` yields for a direct node: a property of its own first; else
/// its location (`path`), its children's paths one per line (`children`),
/// its parent's path (`parent`) or its document (`record_file`).
pub open spec fn get_spec(m: Map<Seq<Seq<char>>, NodeView>, p: Seq<Seq<char>>, key: Seq<char>) -> Option<
    Seq<char>,
> {
    match m[p] {
        NodeView::Direct { props, children, properties } => match lookup(properties, key) {
            Some(v) => Some(v),
            None => if key == "path"@ {
                fs_path(m, p)
            } else if key == "children"@ {
                Some(join_lines(children.map_values(|c: Seq<Seq<char>>| path_string(c))))
            } else if key == "parent"@ {
                match props.parent {
                    Some(q) => Some(path_string(q)),
                    None => None,
                }
            } else if key == "record_file"@ {
                Some(props.record_file)
            } else {
                None
            },
        },
        _ => None,
    }
}

/// The value of `key` for the direct node at `node_path`, as `get_spec`
/// states it; the error says why there is none.
pub fn get_value(tree: &Tree, node_path: &NodePath, key: &String) -> (r: Result<String, GetError>)
    requires
        tree.wf(),
        tree@.contains_key(node_path@),
        tree@[node_path@] is Direct,
    ensures
        match r {
            Ok(v) => get_spec(tree@, node_path@, key@) == Some(v@),
            Err(GetError::PropertyInexist(k)) => get_spec(tree@, node_path@, key@) is None && k@
                == key@,
            Err(GetError::NoParent) => get_spec(tree@, node_path@, key@) is None && key@ == "parent"@,
            Err(GetError::Tree(_)) => get_spec(tree@, node_path@, key@) is None && key@ == "path"@,
        },
{
    let d = match tree.get_node(node_path) {
        Some(Node::Direct(d)) => d,
        _ => {
            return Err(GetError::PropertyInexist(key.clone()));
        },
    };
    match lookup_property(&d.properties, key) {
        Some(v) => {
            return Ok(v.clone());
        },
        None => {},
    }
    if *key == String::from_str("path") {
        match tree.get_path_buf(node_path) {
            Ok(s) => Ok(s),
            Err(e) => Err(GetError::Tree(e)),
        }
    } else if *key == String::from_str("children") {
        let mut lines: Vec<String> = Vec::new();
        let mut i: usize = 0;
        while i < d.children.len()
            invariant
                i <= d.children.len(),
                lines@.len() == i,
                forall|j: int| 0 <= j < i ==> #[trigger] lines@[j]@ == path_string(d.children@[j]@),
            decreases d.children.len() - i,
        {
            lines.push(d.children[i].to_string());
            i = i + 1;
        }
        assert(string_views(lines@) =~= d@->children.map_values(|c: Seq<Seq<char>>| path_string(c)));
        Ok(join_with_newlines(&lines))
    } else if *key == String::from_str("parent") {
        match &d.node_properties.parent {
            Some(q) => Ok(q.to_string()),
            None => Err(GetError::NoParent),
        }
    } else if *key == String::from_str("record_file") {
        Ok(d.node_properties.record_file.clone())
    } else {
        Err(GetError::PropertyInexist(key.clone()))
    }
}

} // verus!
