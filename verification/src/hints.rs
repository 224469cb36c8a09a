//! Next-step hints: one cheap line steering the follow-up call.
//!
//! Each builder takes the counts the tool already computed and suggests the
//! highest-leverage next call.

use vstd::prelude::*;
use vstd::string::StringExecFns;
use crate::text::{decimal, push_decimal};

verus! {

/// A string holding the characters of `s`.
fn owned(s: &str) -> (r: String)
    ensures
        r@ == s@,
{
    String::from_str(s)
}

/// The text of `search_hint`.
pub open spec fn search_hint_text(total: nat, truncated: bool, symbol: Seq<char>) -> Seq<char> {
    if total == 0 {
        "no hits; try search_text for string literals or regex=true"@
    } else if truncated {
        decimal(total) + " hits truncated; re-call with offset to page"@
    } else if total == 1 {
        "single hit; view_code isolate "@ + symbol + " for edit context"@
    } else if total > 20 {
        decimal(total) + " hits; narrow path/scope or batch_view top callers"@
    } else {
        "callers span hits; minimal_edit_context on "@ + symbol + " for focused edit"@
    }
}

/// Hint after a search with `total` hits (possibly truncated).
pub fn search_hint(total: usize, truncated: bool, symbol: &str) -> (h: String)
    ensures
        h@ == search_hint_text(total as nat, truncated, symbol@),
{
    if total == 0 {
        owned("no hits; try search_text for string literals or regex=true")
    } else if truncated {
        let mut s = String::new();
        push_decimal(&mut s, total);
        s.append(" hits truncated; re-call with offset to page");
        proof {
            assert(s@ =~= search_hint_text(total as nat, truncated, symbol@));
        }
        s
    } else if total == 1 {
        let mut s = owned("single hit; view_code isolate ");
        s.append(symbol);
        s.append(" for edit context");
        s
    } else if total > 20 {
        let mut s = String::new();
        push_decimal(&mut s, total);
        s.append(" hits; narrow path/scope or batch_view top callers");
        proof {
            assert(s@ =~= search_hint_text(total as nat, truncated, symbol@));
        }
        s
    } else {
        let mut s = owned("callers span hits; minimal_edit_context on ");
        s.append(symbol);
        s.append(" for focused edit");
        s
    }
}

/// The text of `graph_hint`.
pub open spec fn graph_hint_text(callers: nat, callees: nat, cycles: nat) -> Seq<char> {
    if cycles > 0 {
        "cycle detected; call_path self-query shows the loop"@
    } else if callers > 5 {
        decimal(callers) + " callers; rank=true prioritizes by freq/hints"@
    } else if callees == 0 && callers == 0 {
        "no edges; confirm symbol with symbol_at_line (overload/homonym?)"@
    } else {
        "depth=1 shown; depth=2 for transitive, call_path for A→B proof"@
    }
}

/// Hint after a call graph.
pub fn graph_hint(callers: usize, callees: usize, cycles: usize) -> (h: String)
    ensures
        h@ == graph_hint_text(callers as nat, callees as nat, cycles as nat),
{
    if cycles > 0 {
        owned("cycle detected; call_path self-query shows the loop")
    } else if callers > 5 {
        let mut s = String::new();
        push_decimal(&mut s, callers);
        s.append(" callers; rank=true prioritizes by freq/hints");
        proof {
            assert(s@ =~= graph_hint_text(callers as nat, callees as nat, cycles as nat));
        }
        s
    } else if callees == 0 && callers == 0 {
        owned("no edges; confirm symbol with symbol_at_line (overload/homonym?)")
    } else {
        owned("depth=1 shown; depth=2 for transitive, call_path for A→B proof")
    }
}

/// The text of `view_hint`.
pub open spec fn view_hint_text(has_focus: bool, truncated: bool) -> Seq<char> {
    if truncated {
        "truncated; isolate one symbol or raise max_tokens"@
    } else if has_focus {
        "focused; minimal_edit_context adds callees/types/imports"@
    } else {
        "overview; view_code isolate or batch_view for 2-3 symbols"@
    }
}

/// Hint after viewing code.
pub fn view_hint(has_focus: bool, truncated: bool) -> (h: String)
    ensures
        h@ == view_hint_text(has_focus, truncated),
{
    if truncated {
        owned("truncated; isolate one symbol or raise max_tokens")
    } else if has_focus {
        owned("focused; minimal_edit_context adds callees/types/imports")
    } else {
        owned("overview; view_code isolate or batch_view for 2-3 symbols")
    }
}

/// The text of `map_hint`.
pub open spec fn map_hint_text(files: nat, truncated: bool) -> Seq<char> {
    if truncated {
        decimal(files) + " files truncated; offset/limit to page or pattern to filter"@
    } else {
        "map done; batch_view entry points, type_map for key types"@
    }
}

/// Hint after a directory map.
pub fn map_hint(files: usize, truncated: bool) -> (h: String)
    ensures
        h@ == map_hint_text(files as nat, truncated),
{
    if truncated {
        let mut s = String::new();
        push_decimal(&mut s, files);
        s.append(" files truncated; offset/limit to page or pattern to filter");
        proof {
            assert(s@ =~= map_hint_text(files as nat, truncated));
        }
        s
    } else {
        owned("map done; batch_view entry points, type_map for key types")
    }
}

/// Hint after an edit-related response.
pub fn edit_hint() -> (h: String)
    ensures
        h@ == "verify with parse_diff then affected_by_diff before tests"@,
{
    owned("verify with parse_diff then affected_by_diff before tests")
}

/// `s` holds no line break.
pub open spec fn one_line(s: Seq<char>) -> bool {
    forall|i: int| 0 <= i < s.len() ==> s[i] != '\n'
}

proof fn lemma_one_line_concat(a: Seq<char>, b: Seq<char>)
    requires
        one_line(a),
        one_line(b),
    ensures
        one_line(a + b),
{
    assert forall|i: int| 0 <= i < (a + b).len() implies (a + b)[i] != '\n' by {
        if i >= a.len() {
            assert((a + b)[i] == b[i - a.len()]);
        }
    }
}

proof fn lemma_decimal_one_line(n: nat)
    ensures
        one_line(decimal(n)),
    decreases n,
{
    if n >= 10 {
        lemma_decimal_one_line(n / 10);
        lemma_one_line_concat(decimal(n / 10), seq![crate::text::digit_char(n % 10)]);
        assert(decimal(n) =~= decimal(n / 10) + seq![crate::text::digit_char(n % 10)]);
    }
}

/// Every hint is a single line, as long as the symbol it quotes is.
pub proof fn law_hints_one_line(total: nat, truncated: bool, has_focus: bool, symbol: Seq<char>, callers: nat, callees: nat, cycles: nat, files: nat)
    requires
        one_line(symbol),
    ensures
        one_line(search_hint_text(total, truncated, symbol)),
        one_line(graph_hint_text(callers, callees, cycles)),
        one_line(view_hint_text(has_focus, truncated)),
        one_line(map_hint_text(files, truncated)),
        one_line("verify with parse_diff then affected_by_diff before tests"@),
{
    reveal_strlit("no hits; try search_text for string literals or regex=true");
    reveal_strlit(" hits truncated; re-call with offset to page");
    reveal_strlit("single hit; view_code isolate ");
    reveal_strlit(" for edit context");
    reveal_strlit(" hits; narrow path/scope or batch_view top callers");
    reveal_strlit("callers span hits; minimal_edit_context on ");
    reveal_strlit(" for focused edit");
    reveal_strlit("cycle detected; call_path self-query shows the loop");
    reveal_strlit(" callers; rank=true prioritizes by freq/hints");
    reveal_strlit("no edges; confirm symbol with symbol_at_line (overload/homonym?)");
    reveal_strlit("depth=1 shown; depth=2 for transitive, call_path for A→B proof");
    reveal_strlit("truncated; isolate one symbol or raise max_tokens");
    reveal_strlit("focused; minimal_edit_context adds callees/types/imports");
    reveal_strlit("overview; view_code isolate or batch_view for 2-3 symbols");
    reveal_strlit(" files truncated; offset/limit to page or pattern to filter");
    reveal_strlit("map done; batch_view entry points, type_map for key types");
    reveal_strlit("verify with parse_diff then affected_by_diff before tests");
    lemma_decimal_one_line(total);
    lemma_decimal_one_line(callers);
    lemma_decimal_one_line(files);
    lemma_one_line_concat(decimal(total), " hits truncated; re-call with offset to page"@);
    lemma_one_line_concat(decimal(total), " hits; narrow path/scope or batch_view top callers"@);
    lemma_one_line_concat("single hit; view_code isolate "@, symbol);
    lemma_one_line_concat("single hit; view_code isolate "@ + symbol, " for edit context"@);
    lemma_one_line_concat("callers span hits; minimal_edit_context on "@, symbol);
    lemma_one_line_concat("callers span hits; minimal_edit_context on "@ + symbol, " for focused edit"@);
    lemma_one_line_concat(decimal(callers), " callers; rank=true prioritizes by freq/hints"@);
    lemma_one_line_concat(decimal(files), " files truncated; offset/limit to page or pattern to filter"@);
}

} // verus!
