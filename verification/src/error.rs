//! The error every tool reports: a kind and a human-readable message.

use vstd::prelude::*;

verus! {

/// What went wrong, in the categories the tools report.
#[derive(PartialEq, Eq, Structural, Debug, Clone, Copy)]
pub enum ToolErrorKind {
    InvalidInput,
    NotFound,
    InvalidData,
    Unsupported,
    Other,
}

/// A tool failure: its kind and the message shown to the agent.
#[derive(Debug)]
pub struct ToolError {
    pub kind: ToolErrorKind,
    pub message: String,
}

} // verus!
