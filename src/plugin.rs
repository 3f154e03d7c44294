use vstd::prelude::*;

use crate::path::NodePath;
use crate::tree::Tree;

verus! {

/// What a display plugin reports about itself.
pub struct PluginInfo {
    pub name: String,
    pub version: String,
}

/// A way of displaying a tree, supplied by users of the library: the text
/// for the subtree at `node_path`, `depth` levels deep, or a message saying
/// why there is none.
pub trait Plugin {
    fn info() -> PluginInfo;

    fn display(tree: &Tree, node_path: &NodePath, depth: usize) -> Result<String, String>;
}

} // verus!
