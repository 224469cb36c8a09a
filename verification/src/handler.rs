//! The server handler value the MCP runtime dispatches tool calls through.

use vstd::prelude::*;

verus! {

/// The handler of the tree-sitter code-navigation server; it holds no state.
#[derive(PartialEq, Eq, Structural, Clone, Copy, Debug)]
pub struct TreesitterServerHandler;

impl TreesitterServerHandler {
    /// A handler.
    pub fn new() -> (h: Self)
        ensures
            h == TreesitterServerHandler,
    {
        TreesitterServerHandler
    }
}

impl Default for TreesitterServerHandler {
    fn default() -> (h: Self)
        ensures
            h == TreesitterServerHandler,
    {
        TreesitterServerHandler
    }
}

} // verus!
