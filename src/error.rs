use vstd::prelude::*;

use crate::path::NodePath;

verus! {

/// Every failure the tree engine reports.
#[derive(Debug)]
pub enum Error {
    /// A path, or an ancestor on its chain, is not in the store.
    PathNotFound(NodePath),
    /// A path string that does not start with `/`.
    NodePathMustBeAbsolute(String),
    /// A `type` property that is neither `Direct` nor `Link`.
    UnknownType(String),
    /// A node whose name is neither given by the caller nor recorded.
    LackName,
    /// A `Link` node without a `target`.
    LackTarget,
    /// A direct node that carries a reserved property key.
    PreservedKey(String),
    /// A link whose target is the document it was recorded in.
    LoopTarget(String),
    /// Serializing a store that has no root.
    EmptyTree,
    /// A failure reported by a caller-supplied loader.
    Custom(String),
}

pub enum ErrorView {
    PathNotFound(Seq<Seq<char>>),
    NodePathMustBeAbsolute(Seq<char>),
    UnknownType(Seq<char>),
    LackName,
    LackTarget,
    PreservedKey(Seq<char>),
    LoopTarget(Seq<char>),
    EmptyTree,
    Custom(Seq<char>),
}

impl View for Error {
    type V = ErrorView;

    open spec fn view(&self) -> ErrorView {
        match self {
            Error::PathNotFound(p) => ErrorView::PathNotFound(p@),
            Error::NodePathMustBeAbsolute(s) => ErrorView::NodePathMustBeAbsolute(s@),
            Error::UnknownType(s) => ErrorView::UnknownType(s@),
            Error::LackName => ErrorView::LackName,
            Error::LackTarget => ErrorView::LackTarget,
            Error::PreservedKey(s) => ErrorView::PreservedKey(s@),
            Error::LoopTarget(s) => ErrorView::LoopTarget(s@),
            Error::EmptyTree => ErrorView::EmptyTree,
            Error::Custom(s) => ErrorView::Custom(s@),
        }
    }
}

} // verus!
