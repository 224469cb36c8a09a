//! Verified core of a tree-sitter based code-navigation server: compact row
//! encoding, next-step hints, did-you-mean suggestions, LSP output formatting,
//! call-graph traversal, budgeting and the small text heuristics the tools use.

pub mod text;
pub mod lines;
pub mod rows;
pub mod hints;
pub mod error;
pub mod sort;
pub mod suggest;
pub mod shape;
pub mod paths;
pub mod syntax;
pub mod call_graph;
pub mod walk;
pub mod json;
pub mod value;
pub mod lsp;
pub mod diagnostics;
pub mod relevant;
pub mod writes;
pub mod flow_text;
pub mod argflow;
pub mod cache;
pub mod index;
pub mod prompt_snippet;
pub mod handler;
pub mod tools;
pub mod search;
pub mod budget;
pub mod graph_rows;
pub mod graph_tool;
pub mod references;
pub mod edit;
pub mod typemap;
pub mod modmap;
pub mod rename;
pub mod boot;
pub mod planner;
pub mod callpath;
pub mod depends;
pub mod batch;
