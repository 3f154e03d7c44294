//! An addressable, lazily materialized tree that mirrors a project's
//! directory layout. Each node carries string metadata read from small
//! sidecar documents; a node may hold its data directly or link to another
//! document that defines it.
//!
//! - `path`: node paths and their `/`-separated string form.
//! - `node`, `tree`: the node model and the store that owns every node.
//! - `de`, `ser`: documents to (path, node) pairs, and back.
//! - `manipulator`: resolution, one step at a time. `Tree::pending_link`
//!   (or `Tree::pending_in_depth`) names the link that must be loaded next;
//!   the caller reads that link's document and hands it to
//!   `Tree::load_link`, until nothing is pending; `repeats_load` tells a
//!   cycle of links. Reading files is left to the caller.
//! - `layout`: the plain, line and triangle renderings of a resolved
//!   subtree.
//! - `commandline_parser`, `commandline`, `get`: splitting command lines,
//!   option defaults, and the interactive `get` lookup.

pub mod path;
pub mod node;
pub mod tree;
pub mod de;
pub mod ser;
pub mod manipulator;
pub mod commandline_parser;
pub mod layout;
pub mod commandline;
pub mod get;
pub mod plugin;
pub mod error;
mod text;
