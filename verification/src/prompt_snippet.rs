//! A short decision-rules fragment to paste into an agent's instructions.

use vstd::prelude::*;

verus! {

/// The snippet text (kept short enough for a system prompt).
pub const SNIPPET: &'static str = "treesitter-mcp rules: explore with session_bootstrap or code_map minimal, never cat. Overview: view_code detail=signatures. Edit one symbol: minimal_edit_context (or view_code focus+isolate). Find callers: call_graph rank=true; all refs: find_usages; writes only: find_writes; strings/keys/errors: search_text. Transitive: call_path (calls), depends_on (includes), arg_flow (arg values). Batch 2-5 reads via batch_view. Check estimate=true before big calls; page with offset/limit. After edits: parse_diff then affected_by_diff, apply_symbol_edit for splices. Precision is syntax-aware (conf/low homonyms); use LSP format_references for renames.";

/// The snippet.
pub fn snippet() -> (s: &'static str)
    ensures
        s@ == SNIPPET@,
{
    SNIPPET
}

} // verus!
