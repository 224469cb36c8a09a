//! The `arg_flow` tool: the call at a line, one of its arguments, and the
//! same-file assignments that feed it, followed breadth-first for a few
//! hops with each (identifier, line) reported once.

use vstd::prelude::*;
use vstd::string::StringExecFns;
use crate::error::{ToolError, ToolErrorKind};
use crate::syntax::{SyntaxTree, Language, call_kind, call_name_of, call_name, is_call_node, lifo_order, lifo_kids, sat_dec};
use crate::flow_text::{
    ident_char, bare_identifier, is_bare_identifier, rhs_ident_list, rhs_idents, depth_marked, with_depth, before_char,
    split_on,
};
use crate::lines::{lines_of, split_lines, trimmed, trim};
use crate::rows::{row_of, views, format_row, join_with, join_strings};
use crate::text::{contains_seq, str_contains, str_eq, decimal, decimal_string, chars_of, push_char, first_at};
use crate::json::{json_quote, json_quoted};

verus! {

/// Arguments of the `arg_flow` tool.
pub struct ArgFlow {
    /// File with the call site.
    pub file_path: String,
    /// 1-based line of the call.
    pub line: u32,
    /// 0-based argument index (default 0).
    pub arg: Option<u32>,
    /// Only calls of this name.
    pub symbol: Option<String>,
    /// Hop depth (default 3, at most 5).
    pub depth: Option<u32>,
}

/// The call a search has picked so far: node, name, row span.
pub struct CallPick {
    pub node: int,
    pub name: Seq<char>,
    pub span: int,
}

/// One step of the call search at node `n`: a call spanning `row` whose
/// name passes the filter replaces the pick when it spans fewer rows.
pub open spec fn call_step(t: SyntaxTree, lang: Language, row: nat, filter: Option<Seq<char>>, best: Option<CallPick>, n: int) -> Option<CallPick> {
    let node = t.nodes@[n];
    if call_kind(node.kind@, lang) && node.start_row <= row && row <= node.end_row {
        let name = match call_name_of(t, n) {
            Some(x) => x,
            None => seq![],
        };
        let span = node.end_row - node.start_row;
        if (match filter {
            Some(f) => name == f,
            None => true,
        }) && (match best {
            Some(b) => span < b.span,
            None => true,
        }) {
            Some(CallPick { node: n, name, span })
        } else {
            best
        }
    } else {
        best
    }
}

/// The call search over the nodes `s`, in order, from `init`.
pub open spec fn call_search(t: SyntaxTree, lang: Language, row: nat, filter: Option<Seq<char>>, s: Seq<int>, init: Option<CallPick>) -> Option<CallPick>
    decreases s.len(),
{
    if s.len() == 0 {
        init
    } else {
        call_step(t, lang, row, filter, call_search(t, lang, row, filter, s.drop_last(), init), s.last())
    }
}

/// Searching `a + b` is searching `b` from where `a` left off.
pub proof fn lemma_call_search_concat(t: SyntaxTree, lang: Language, row: nat, filter: Option<Seq<char>>, a: Seq<int>, b: Seq<int>, init: Option<CallPick>)
    ensures
        call_search(t, lang, row, filter, a + b, init) == call_search(t, lang, row, filter, b, call_search(t, lang, row, filter, a, init)),
    decreases b.len(),
{
    if b.len() == 0 {
        assert(a + b =~= a);
    } else {
        assert((a + b).drop_last() =~= a + b.drop_last());
        lemma_call_search_concat(t, lang, row, filter, a, b.drop_last(), init);
    }
}

/// A pick held in executable form.
pub struct Picked {
    pub node: usize,
    pub name: String,
    pub span: usize,
}

/// The pick as plain values.
pub open spec fn picked_view(p: Option<Picked>) -> Option<CallPick> {
    match p {
        Some(x) => Some(CallPick { node: x.node as int, name: x.name@, span: x.span as int }),
        None => None,
    }
}

/// An optional string's view.
pub open spec fn opt_view(o: Option<&str>) -> Option<Seq<char>> {
    match o {
        Some(s) => Some(s@),
        None => None,
    }
}

/// Runs the call search over the walk of node `i`.
fn search_calls(t: &SyntaxTree, lang: Language, row: usize, filter: Option<&str>, i: usize, best: &mut Option<Picked>)
    requires
        t.wf(),
        i < t.nodes.len(),
        *old(best) matches Some(p) ==> p.node < t.nodes.len(),
    ensures
        picked_view(*final(best)) == call_search(*t, lang, row as nat, opt_view(filter), lifo_order(*t, i as int), picked_view(*old(best))),
        *final(best) matches Some(p) ==> p.node < t.nodes.len(),
    decreases t.nodes.len() - i,
{
    let n = &t.nodes[i];
    let ghost init = picked_view(*best);
    let ghost kids = lifo_kids(*t, i as int, n.children.len() as int);
    proof {
        assert(t.node_wf(i as int));
    }
    if is_call_node(n.kind.as_str(), lang) && n.start_row <= row && row <= n.end_row {
        let name = match call_name(t, i) {
            Some(x) => x,
            None => String::new(),
        };
        let span = n.end_row - n.start_row;
        let pass = match filter {
            Some(f) => str_eq(name.as_str(), f),
            None => true,
        };
        let better = match best {
            Some(b) => span < b.span,
            None => true,
        };
        proof {
            reveal_strlit("");
        }
        if pass && better {
            *best = Some(Picked { node: i, name, span });
        }
    }
    proof {
        assert(seq![i as int].drop_last() =~= Seq::<int>::empty());
        assert(seq![i as int].last() == i as int);
        assert(call_search(*t, lang, row as nat, opt_view(filter), Seq::<int>::empty(), init) == init);
        assert(picked_view(*best) == call_search(*t, lang, row as nat, opt_view(filter), seq![i as int], init));
        lemma_call_search_concat(*t, lang, row as nat, opt_view(filter), seq![i as int], kids, init);
    }
    let mut k: usize = n.children.len();
    while k > 0
        invariant
            t.wf(),
            i < t.nodes.len(),
            n == t.nodes@[i as int],
            k <= n.children.len(),
            kids == lifo_kids(*t, i as int, n.children.len() as int),
            *best matches Some(p) ==> p.node < t.nodes.len(),
            call_search(*t, lang, row as nat, opt_view(filter), lifo_order(*t, i as int), init)
                == call_search(*t, lang, row as nat, opt_view(filter), lifo_kids(*t, i as int, k as int), picked_view(*best)),
        decreases k,
    {
        proof {
            assert(t.node_wf(i as int));
        }
        let c = n.children[k - 1];
        proof {
            assert(i < n.children@[k - 1] < t.nodes.len());
        }
        let ghost b0 = picked_view(*best);
        let ghost part = match t.named_child(i as int, k - 1) {
            Some(c) => lifo_order(*t, c),
            None => seq![],
        };
        proof {
            lemma_call_search_concat(*t, lang, row as nat, opt_view(filter), part, lifo_kids(*t, i as int, k - 1), b0);
        }
        if t.nodes[c].is_named {
            search_calls(t, lang, row, filter, c, best);
        }
        k -= 1;
    }
    proof {
        assert(lifo_kids(*t, i as int, 0) =~= Seq::<int>::empty());
    }
}

/// The smallest call spanning 1-based `line` (named `symbol` when a filter
/// is given): its node and name.
pub fn find_call_at_line(t: &SyntaxTree, lang: Language, line: usize, filter: Option<&str>) -> (r: Option<(usize, String)>)
    requires
        t.wf(),
    ensures
        match call_search(*t, lang, sat_dec(line as nat), opt_view(filter), lifo_order(*t, 0), None) {
            Some(p) => r matches Some(x) && x.0 == p.node && x.1@ == p.name,
            None => r is None,
        },
        r matches Some(x) ==> x.0 < t.nodes.len(),
{
    let mut best: Option<Picked> = None;
    search_calls(t, lang, line.saturating_sub(1), filter, 0, &mut best);
    match best {
        Some(p) => Some((p.node, p.name)),
        None => None,
    }
}

/// Kinds of argument lists.
pub open spec fn arglist_kind(k: Seq<char>) -> bool {
    k == "argument_list"@ || k == "arguments"@
}

/// The first argument list in the walk of node `i`.
pub open spec fn arglist_in(t: SyntaxTree, i: int) -> Option<int>
    decreases t.nodes.len() - i, t.nodes@[i].children.len() + 1,
{
    if !(0 <= i < t.nodes.len()) {
        None
    } else if arglist_kind(t.nodes@[i].kind@) {
        Some(i)
    } else {
        arglist_kids(t, i, t.nodes@[i].children.len() as int)
    }
}

/// The first argument list in the walks of the named children of `i`
/// before child `k`, the last child first.
pub open spec fn arglist_kids(t: SyntaxTree, i: int, k: int) -> Option<int>
    decreases t.nodes.len() - i, k,
{
    if !(0 <= i < t.nodes.len()) || k <= 0 || k > t.nodes@[i].children.len() {
        None
    } else {
        match (match t.named_child(i, k - 1) {
            Some(c) => arglist_in(t, c),
            None => None,
        }) {
            Some(x) => Some(x),
            None => arglist_kids(t, i, k - 1),
        }
    }
}

/// The first argument list under node `i`.
fn find_arglist(t: &SyntaxTree, i: usize) -> (r: Option<usize>)
    requires
        t.wf(),
        i < t.nodes.len(),
    ensures
        match arglist_in(*t, i as int) {
            Some(x) => r == Some(x as usize) && 0 <= x < t.nodes.len(),
            None => r is None,
        },
        r matches Some(x) ==> x < t.nodes.len(),
    decreases t.nodes.len() - i,
{
    let n = &t.nodes[i];
    if str_eq(n.kind.as_str(), "argument_list") || str_eq(n.kind.as_str(), "arguments") {
        return Some(i);
    }
    let mut k: usize = n.children.len();
    while k > 0
        invariant
            t.wf(),
            i < t.nodes.len(),
            n == t.nodes@[i as int],
            k <= n.children.len(),
            !arglist_kind(n.kind@),
            arglist_in(*t, i as int) == arglist_kids(*t, i as int, k as int),
        decreases k,
    {
        proof {
            assert(t.node_wf(i as int));
        }
        let c = n.children[k - 1];
        proof {
            assert(i < n.children@[k - 1] < t.nodes.len());
        }
        if t.nodes[c].is_named {
            match find_arglist(t, c) {
                Some(x) => {
                    return Some(x);
                },
                None => {},
            }
        }
        k -= 1;
    }
    None
}

/// The argument texts of an argument list: each named child's trimmed text,
/// skipping punctuation and empty ones.
pub open spec fn arg_texts(t: SyntaxTree, a: int, k: int) -> Seq<Seq<char>>
    decreases k,
{
    if k <= 0 || k > t.nodes@[a].children.len() {
        seq![]
    } else {
        arg_texts(t, a, k - 1) + match t.named_child(a, k - 1) {
            Some(c) => {
                let kind = t.nodes@[c].kind@;
                if kind == ","@ || kind == "("@ || kind == ")"@ {
                    seq![]
                } else {
                    match t.nodes@[c].text {
                        Some(s) => {
                            let tt = trimmed(s@);
                            if tt.len() > 0 && tt != ","@ { seq![tt] } else { seq![] }
                        },
                        None => seq![],
                    }
                }
            },
            None => seq![],
        }
    }
}

/// The arguments of call node `c`.
pub open spec fn call_arg_list(t: SyntaxTree, c: int) -> Seq<Seq<char>> {
    match arglist_in(t, c) {
        Some(a) => arg_texts(t, a, t.nodes@[a].children.len() as int),
        None => seq![],
    }
}

/// The argument texts of call node `c`.
pub fn call_args(t: &SyntaxTree, c: usize) -> (r: Vec<String>)
    requires
        t.wf(),
        c < t.nodes.len(),
    ensures
        views(r@) == call_arg_list(*t, c as int),
{
    let a = match find_arglist(t, c) {
        Some(a) => a,
        None => {
            return Vec::new();
        },
    };
    let n = &t.nodes[a];
    let mut out: Vec<String> = Vec::new();
    let mut k: usize = 0;
    proof {
        assert(views(out@) =~= arg_texts(*t, a as int, 0));
    }
    while k < n.children.len()
        invariant
            t.wf(),
            a < t.nodes.len(),
            n == t.nodes@[a as int],
            k <= n.children.len(),
            views(out@) == arg_texts(*t, a as int, k as int),
        decreases n.children.len() - k,
    {
        proof {
            assert(t.node_wf(a as int));
        }
        let ch = n.children[k];
        proof {
            assert(a < n.children@[k as int] < t.nodes.len());
        }
        let ghost before = views(out@);
        let cn = &t.nodes[ch];
        if cn.is_named {
            let kind = cn.kind.as_str();
            if !(str_eq(kind, ",") || str_eq(kind, "(") || str_eq(kind, ")")) {
                match &cn.text {
                    Some(s) => {
                        let tt = trim(s.as_str());
                        if !tt.as_str().is_empty() && !str_eq(tt.as_str(), ",") {
                            out.push(tt);
                        }
                    },
                    None => {},
                }
            }
        }
        proof {
            assert(t.named_child(a as int, k as int) == (if cn.is_named { Some(ch as int) } else { None::<int> }));
            assert(views(out@) =~= arg_texts(*t, a as int, k + 1));
        }
        k += 1;
    }
    out
}

/// The assignment a search has picked so far: its 1-based row, the text
/// after its first `=`, and its first line.
pub struct AssignPick {
    pub row: nat,
    pub rhs: Seq<char>,
    pub first_line: Seq<char>,
}

/// Kinds that assign.
pub open spec fn assign_like(k: Seq<char>) -> bool {
    contains_seq(k, "assignment"@) || k == "variable_declarator"@ || k == "lexical_declaration"@
}

/// The first line of a text, trimmed.
pub open spec fn first_line_of(text: Seq<char>) -> Seq<char> {
    let ls = lines_of(text);
    trimmed(if ls.len() > 0 { ls[0] } else { seq![] })
}

/// The part of `s` after the first `c` (empty when there is none).
pub open spec fn after_char(s: Seq<char>, c: char) -> Seq<char>
    decreases s.len(),
{
    if s.len() == 0 {
        seq![]
    } else if s[0] == c {
        s.drop_first()
    } else {
        after_char(s.drop_first(), c)
    }
}

/// The left side of the line (before its first `=`) has `ident` as a token.
pub open spec fn lhs_names(line: Seq<char>, ident: Seq<char>) -> bool {
    split_on(before_char(line, '='), |c: char| !ident_char(c)).contains(ident)
}

/// One step of the search for the latest assignment to `ident` above line
/// `before`: a later one replaces the pick.
pub open spec fn assign_step(t: SyntaxTree, ident: Seq<char>, before: nat, best: Option<AssignPick>, n: int) -> Option<AssignPick> {
    let node = t.nodes@[n];
    let row = (node.start_row + 1) as nat;
    if assign_like(node.kind@) && row < before {
        match node.text {
            Some(text) => {
                let fl = first_line_of(text@);
                if lhs_names(fl, ident) && (match best {
                    Some(b) => b.row < row,
                    None => true,
                }) {
                    Some(AssignPick { row, rhs: after_char(fl, '='), first_line: fl })
                } else {
                    best
                }
            },
            None => best,
        }
    } else {
        best
    }
}

/// The assignment search over the nodes `s`, in order, from `init`.
pub open spec fn assign_search(t: SyntaxTree, ident: Seq<char>, before: nat, s: Seq<int>, init: Option<AssignPick>) -> Option<AssignPick>
    decreases s.len(),
{
    if s.len() == 0 {
        init
    } else {
        assign_step(t, ident, before, assign_search(t, ident, before, s.drop_last(), init), s.last())
    }
}

/// Searching `a + b` is searching `b` from where `a` left off.
pub proof fn lemma_assign_search_concat(t: SyntaxTree, ident: Seq<char>, before: nat, a: Seq<int>, b: Seq<int>, init: Option<AssignPick>)
    ensures
        assign_search(t, ident, before, a + b, init) == assign_search(t, ident, before, b, assign_search(t, ident, before, a, init)),
    decreases b.len(),
{
    if b.len() == 0 {
        assert(a + b =~= a);
    } else {
        assert((a + b).drop_last() =~= a + b.drop_last());
        lemma_assign_search_concat(t, ident, before, a, b.drop_last(), init);
    }
}

/// The latest assignment to `ident` above line `before` in the tree.
pub open spec fn latest_assign(t: SyntaxTree, ident: Seq<char>, before: nat) -> Option<AssignPick> {
    assign_search(t, ident, before, lifo_order(t, 0), None)
}

/// An assignment pick in executable form.
pub struct Assigned {
    pub row: usize,
    pub rhs: String,
    pub first_line: String,
}

/// The pick as plain values.
pub open spec fn assigned_view(p: Option<Assigned>) -> Option<AssignPick> {
    match p {
        Some(x) => Some(AssignPick { row: x.row as nat, rhs: x.rhs@, first_line: x.first_line@ }),
        None => None,
    }
}

/// The text after the first `c`.
fn suffix_after(s: &str, c: char) -> (r: String)
    ensures
        r@ == after_char(s@, c),
{
    let cs = chars_of(s);
    let mut i: usize = 0;
    proof {
        assert(cs@.skip(0) =~= cs@);
    }
    while i < cs.len() && cs[i] != c
        invariant
            i <= cs.len(),
            cs@ == s@,
            after_char(s@, c) == after_char(cs@.skip(i as int), c),
        decreases cs.len() - i,
    {
        proof {
            assert(cs@.skip(i as int).drop_first() =~= cs@.skip(i + 1));
        }
        i += 1;
    }
    let mut out = String::new();
    if i < cs.len() {
        let mut k: usize = i + 1;
        while k < cs.len()
            invariant
                i < cs.len(),
                i + 1 <= k <= cs.len(),
                out@ == cs@.subrange(i + 1, k as int),
            decreases cs.len() - k,
        {
            push_char(&mut out, cs[k]);
            proof {
                assert(cs@.subrange(i + 1, k + 1) =~= cs@.subrange(i + 1, k as int).push(cs@[k as int]));
            }
            k += 1;
        }
        proof {
            assert(cs@.skip(i as int)[0] == c);
            assert(cs@.skip(i as int).drop_first() =~= cs@.subrange(i + 1, cs.len() as int));
        }
    } else {
        proof {
            assert(cs@.skip(i as int) =~= Seq::<char>::empty());
        }
    }
    out
}

/// Whether the left side of `line` has `ident` as a token.
fn lhs_has(line: &str, ident: &str) -> (b: bool)
    ensures
        b == lhs_names(line@, ident@),
{
    let lhs = crate::flow_text::prefix_before(line, '=');
    let cs = chars_of(lhs.as_str());
    let ghost sep = |c: char| !ident_char(c);
    let mut cur = String::new();
    let mut found = false;
    let mut i: usize = 0;
    proof {
        assert(cs@.take(0) =~= Seq::<char>::empty());
        assert(split_on(cs@.take(0), sep) == seq![Seq::<char>::empty()]);
        assert(split_on(cs@.take(0), sep).drop_last() =~= Seq::<Seq<char>>::empty());
    }
    while i < cs.len()
        invariant
            i <= cs.len(),
            cs@ == before_char(line@, '='),
            sep == (|c: char| !ident_char(c)),
            split_on(cs@.take(i as int), sep).len() >= 1,
            split_on(cs@.take(i as int), sep).last() == cur@,
            found == split_on(cs@.take(i as int), sep).drop_last().contains(ident@),
        decreases cs.len() - i,
    {
        let c = cs[i];
        let ghost p = split_on(cs@.take(i as int), sep);
        proof {
            assert(cs@.take(i + 1).drop_last() =~= cs@.take(i as int));
            assert(cs@.take(i + 1).last() == c);
        }
        if !crate::flow_text::is_ident_char(c) {
            let eq = str_eq(cur.as_str(), ident);
            proof {
                assert(split_on(cs@.take(i + 1), sep) == p.push(seq![]));
                assert(p.push(seq![]).drop_last() =~= p);
                assert(p =~= p.drop_last().push(p.last()));
                assert(p.contains(ident@) == (p.drop_last().contains(ident@) || p.last() == ident@)) by {
                    if p.last() == ident@ {
                        assert(p[p.len() - 1] == ident@);
                    }
                    if p.drop_last().contains(ident@) {
                        let w = choose|w: int| 0 <= w < p.drop_last().len() && p.drop_last()[w] == ident@;
                        assert(p[w] == ident@);
                    }
                }
            }
            found = found || eq;
            cur = String::new();
            proof {
                reveal_strlit("");
            }
        } else {
            push_char(&mut cur, c);
            proof {
                let q = p.update(p.len() - 1, p.last().push(c));
                assert(split_on(cs@.take(i + 1), sep) == q);
                assert(q.drop_last() =~= p.drop_last());
            }
        }
        i += 1;
    }
    proof {
        assert(cs@.take(cs.len() as int) =~= cs@);
        let p = split_on(cs@, sep);
        assert(p =~= p.drop_last().push(p.last()));
        assert(p.contains(ident@) == (p.drop_last().contains(ident@) || p.last() == ident@)) by {
            if p.last() == ident@ {
                assert(p[p.len() - 1] == ident@);
            }
            if p.drop_last().contains(ident@) {
                let w = choose|w: int| 0 <= w < p.drop_last().len() && p.drop_last()[w] == ident@;
                assert(p[w] == ident@);
            }
        }
    }
    found || str_eq(cur.as_str(), ident)
}

/// The first line of a text, trimmed.
fn first_line(text: &str) -> (r: String)
    ensures
        r@ == first_line_of(text@),
{
    let ls = split_lines(text);
    if ls.len() > 0 {
        proof {
            assert(views(ls@)[0] == ls@[0]@);
        }
        trim(ls[0].as_str())
    } else {
        proof {
            reveal_strlit("");
        }
        trim("")
    }
}

/// Runs the assignment search over the walk of node `i`.
fn search_assigns(t: &SyntaxTree, ident: &str, before: usize, i: usize, best: &mut Option<Assigned>)
    requires
        t.wf(),
        i < t.nodes.len(),
    ensures
        assigned_view(*final(best)) == assign_search(*t, ident@, before as nat, lifo_order(*t, i as int), assigned_view(*old(best))),
    decreases t.nodes.len() - i,
{
    let n = &t.nodes[i];
    let ghost init = assigned_view(*best);
    let ghost kids = lifo_kids(*t, i as int, n.children.len() as int);
    proof {
        assert(t.node_wf(i as int));
    }
    let k0 = n.kind.as_str();
    let row = n.start_row + 1;
    if (str_contains(k0, "assignment") || str_eq(k0, "variable_declarator") || str_eq(k0, "lexical_declaration")) && row < before {
        match &n.text {
            Some(text) => {
                let fl = first_line(text.as_str());
                if lhs_has(fl.as_str(), ident) {
                    let later = match best {
                        Some(b) => b.row < row,
                        None => true,
                    };
                    if later {
                        let rhs = suffix_after(fl.as_str(), '=');
                        *best = Some(Assigned { row, rhs, first_line: fl });
                    }
                }
            },
            None => {},
        }
    }
    proof {
        assert(seq![i as int].drop_last() =~= Seq::<int>::empty());
        assert(seq![i as int].last() == i as int);
        assert(assign_search(*t, ident@, before as nat, Seq::<int>::empty(), init) == init);
        assert(assigned_view(*best) == assign_search(*t, ident@, before as nat, seq![i as int], init));
        lemma_assign_search_concat(*t, ident@, before as nat, seq![i as int], kids, init);
    }
    let mut k: usize = n.children.len();
    while k > 0
        invariant
            t.wf(),
            i < t.nodes.len(),
            n == t.nodes@[i as int],
            k <= n.children.len(),
            kids == lifo_kids(*t, i as int, n.children.len() as int),
            assign_search(*t, ident@, before as nat, lifo_order(*t, i as int), init)
                == assign_search(*t, ident@, before as nat, lifo_kids(*t, i as int, k as int), assigned_view(*best)),
        decreases k,
    {
        proof {
            assert(t.node_wf(i as int));
        }
        let c = n.children[k - 1];
        proof {
            assert(i < n.children@[k - 1] < t.nodes.len());
        }
        let ghost b0 = assigned_view(*best);
        let ghost part = match t.named_child(i as int, k - 1) {
            Some(c) => lifo_order(*t, c),
            None => seq![],
        };
        proof {
            lemma_assign_search_concat(*t, ident@, before as nat, part, lifo_kids(*t, i as int, k - 1), b0);
        }
        if t.nodes[c].is_named {
            search_assigns(t, ident, before, c, best);
        }
        k -= 1;
    }
    proof {
        assert(lifo_kids(*t, i as int, 0) =~= Seq::<int>::empty());
    }
}

/// The latest assignment to `ident` above line `before`.
pub fn latest_assignment(t: &SyntaxTree, ident: &str, before: usize) -> (r: Option<Assigned>)
    requires
        t.wf(),
    ensures
        assigned_view(r) == latest_assign(*t, ident@, before as nat),
{
    let mut best: Option<Assigned> = None;
    search_assigns(t, ident, before, 0, &mut best);
    best
}

/// The row of an assignment hop: ident, `assign`, file, line, first line.
pub open spec fn assign_row(ident: Seq<char>, rel: Seq<char>, p: AssignPick) -> Seq<char> {
    row_of(seq![ident, "assign"@, rel, decimal(p.row), p.first_line])
}

/// One level of the flow walk: each queued (identifier, line) whose latest
/// assignment above the line was not reported yet gives a row, and queues
/// the identifiers of its right side at the assignment's line.
pub open spec fn flow_level(
    t: SyntaxTree,
    rel: Seq<char>,
    items: Seq<(Seq<char>, nat)>,
    seen: Seq<(Seq<char>, nat)>,
    d: nat,
) -> (Seq<Seq<char>>, Seq<(Seq<char>, nat)>, Seq<(Seq<char>, nat)>)
    decreases items.len(),
{
    if items.len() == 0 {
        (seq![], seq![], seen)
    } else {
        let (ident, before) = items[0];
        match latest_assign(t, ident, before) {
            None => flow_level(t, rel, items.drop_first(), seen, d),
            Some(p) => if seen.contains((ident, p.row)) {
                flow_level(t, rel, items.drop_first(), seen, d)
            } else {
                let (rows, next, s2) = flow_level(t, rel, items.drop_first(), seen.push((ident, p.row)), d);
                (
                    seq![depth_marked(assign_row(ident, rel, p), d)] + rows,
                    rhs_ident_list(p.rhs).map_values(|n: Seq<char>| (n, p.row)) + next,
                    s2,
                )
            },
        }
    }
}

/// The flow walk from `items` at depth `d`, down to `max`.
pub open spec fn flow_walk(
    t: SyntaxTree,
    rel: Seq<char>,
    items: Seq<(Seq<char>, nat)>,
    seen: Seq<(Seq<char>, nat)>,
    d: nat,
    max: nat,
) -> Seq<Seq<char>>
    decreases max + 1 - d,
{
    if d > max || items.len() == 0 {
        seq![]
    } else {
        let (rows, next, s2) = flow_level(t, rel, items, seen, d);
        rows + flow_walk(t, rel, next, s2, d + 1, max)
    }
}

/// The hop depth asked for: 3 by default, clamped to 1..=5.
pub open spec fn flow_depth(d: Option<u32>) -> nat {
    match d {
        Some(v) => if v < 1 { 1 } else if v > 5 { 5 } else { v as nat },
        None => 3,
    }
}

/// The walk's first queue: the argument's identifiers at the call line, or
/// the argument itself when it is a bare identifier none of whose tokens count.
pub open spec fn start_items(arg: Seq<char>, line: nat) -> Seq<(Seq<char>, nat)> {
    rhs_ident_list(arg).map_values(|n: Seq<char>| (n, line))
        + if bare_identifier(arg) && rhs_ident_list(arg).len() == 0 { seq![(trimmed(arg), line)] } else { seq![] }
}

/// Queue entries as plain values.
pub open spec fn item_views(v: Seq<(String, usize)>) -> Seq<(Seq<char>, nat)> {
    v.map_values(|p: (String, usize)| (p.0@, p.1 as nat))
}

/// Whether `(ident, row)` was reported.
fn seen_has(seen: &Vec<(String, usize)>, ident: &str, row: usize) -> (b: bool)
    ensures
        b == item_views(seen@).contains((ident@, row as nat)),
{
    let ghost sv = item_views(seen@);
    let mut k: usize = 0;
    while k < seen.len()
        invariant
            k <= seen.len(),
            sv == item_views(seen@),
            forall|q: int| 0 <= q < k ==> sv[q] != (ident@, row as nat),
        decreases seen.len() - k,
    {
        proof {
            assert(sv[k as int] == (seen@[k as int].0@, seen@[k as int].1 as nat));
        }
        if seen[k].1 == row && str_eq(seen[k].0.as_str(), ident) {
            return true;
        }
        k += 1;
    }
    false
}

/// The assignment row of a hop.
fn assign_row_text(ident: &str, rel: &str, p: &Assigned) -> (r: String)
    ensures
        r@ == assign_row(ident@, rel@, assigned_view(Some(*p))->0),
{
    let mut fields: Vec<String> = Vec::new();
    fields.push(String::from_str(ident));
    fields.push(String::from_str("assign"));
    fields.push(String::from_str(rel));
    fields.push(decimal_string(p.row));
    fields.push(p.first_line.clone());
    proof {
        assert(views(fields@) =~= seq![ident@, "assign"@, rel@, decimal(p.row as nat), p.first_line@]);
    }
    format_row(&fields)
}

/// Walks the flow from `start`, appending one row per hop.
pub fn walk_flow(t: &SyntaxTree, rel: &str, start: Vec<(String, usize)>, max: usize, rows: &mut Vec<String>)
    requires
        t.wf(),
        max < usize::MAX,
    ensures
        views(final(rows)@) == views(old(rows)@) + flow_walk(*t, rel@, item_views(start@), seq![], 1, max as nat),
{
    let ghost goal = views(old(rows)@) + flow_walk(*t, rel@, item_views(start@), seq![], 1, max as nat);
    let mut queue = start;
    let mut seen: Vec<(String, usize)> = Vec::new();
    let mut d: usize = 1;
    proof {
        assert(item_views(seen@) =~= Seq::<(Seq<char>, nat)>::empty());
    }
    while d <= max && queue.len() > 0
        invariant
            t.wf(),
            max < usize::MAX,
            1 <= d,
            views(rows@) + flow_walk(*t, rel@, item_views(queue@), item_views(seen@), d as nat, max as nat) == goal,
        decreases max + 1 - d,
    {
        let ghost q0 = item_views(queue@);
        let ghost s0 = item_views(seen@);
        let ghost r0 = views(rows@);
        let ghost lvl = flow_level(*t, rel@, q0, s0, d as nat);
        let mut next: Vec<(String, usize)> = Vec::new();
        let mut j: usize = 0;
        proof {
            assert(q0.skip(0) =~= q0);
            assert(views(rows@) =~= r0 + Seq::<Seq<char>>::empty());
            assert(item_views(next@) =~= Seq::<(Seq<char>, nat)>::empty());
        }
        while j < queue.len()
            invariant
                j <= queue.len(),
                t.wf(),
                q0 == item_views(queue@),
                ({
                    let rest = flow_level(*t, rel@, q0.skip(j as int), item_views(seen@), d as nat);
                    &&& lvl.0 == views(rows@).skip(r0.len() as int) + rest.0
                    &&& lvl.1 == item_views(next@) + rest.1
                    &&& lvl.2 == rest.2
                }),
                views(rows@).len() >= r0.len(),
                views(rows@).take(r0.len() as int) == r0,
            decreases queue.len() - j,
        {
            let ident = &queue[j].0;
            let before = queue[j].1;
            let ghost rest = q0.skip(j as int);
            proof {
                assert(rest[0] == (ident@, before as nat));
                assert(rest.drop_first() =~= q0.skip(j + 1));
            }
            match latest_assignment(t, ident.as_str(), before) {
                Some(p) => {
                    if !seen_has(&seen, ident.as_str(), p.row) {
                        let ghost sb = item_views(seen@);
                        let ghost rb = views(rows@);
                        let ghost nb = item_views(next@);
                        seen.push((ident.clone(), p.row));
                        let row = assign_row_text(ident.as_str(), rel, &p);
                        let marked = with_depth(row.as_str(), d);
                        rows.push(marked);
                        let nexts = rhs_idents(p.rhs.as_str());
                        let ghost ns = views(nexts@);
                        let mut q: usize = 0;
                        while q < nexts.len()
                            invariant
                                q <= nexts.len(),
                                ns == views(nexts@),
                                item_views(next@) == nb + ns.take(q as int).map_values(|n: Seq<char>| (n, p.row as nat)),
                            decreases nexts.len() - q,
                        {
                            let ghost nq = item_views(next@);
                            next.push((nexts[q].clone(), p.row));
                            proof {
                                assert(ns.take(q + 1) =~= ns.take(q as int).push(ns[q as int]));
                                assert(item_views(next@) =~= nq.push((ns[q as int], p.row as nat)));
                                assert(item_views(next@) =~= nb + ns.take(q + 1).map_values(|n: Seq<char>| (n, p.row as nat)));
                            }
                            q += 1;
                        }
                        proof {
                            assert(ns.take(nexts.len() as int) =~= ns);
                            assert(item_views(seen@) =~= sb.push((ident@, p.row as nat)));
                            assert(views(rows@) =~= rb.push(marked@));
                            assert(views(rows@).skip(r0.len() as int) =~= rb.skip(r0.len() as int).push(marked@));
                            assert(views(rows@).take(r0.len() as int) =~= rb.take(r0.len() as int));
                            let tail = flow_level(*t, rel@, q0.skip(j + 1), item_views(seen@), d as nat);
                            assert(rb.skip(r0.len() as int) + (seq![marked@] + tail.0) =~= views(rows@).skip(r0.len() as int) + tail.0);
                            assert(nb + (ns.map_values(|n: Seq<char>| (n, p.row as nat)) + tail.1) =~= item_views(next@) + tail.1);
                        }
                    }
                },
                None => {},
            }
            j += 1;
        }
        proof {
            assert(q0.skip(queue.len() as int) =~= Seq::<(Seq<char>, nat)>::empty());
            assert(views(rows@) =~= r0 + views(rows@).skip(r0.len() as int));
            assert(views(rows@).skip(r0.len() as int) + Seq::<Seq<char>>::empty() =~= views(rows@).skip(r0.len() as int));
            assert(item_views(next@) + Seq::<(Seq<char>, nat)>::empty() =~= item_views(next@));
        }
        queue = next;
        d += 1;
    }
}

/// The header of the flow rows.
pub open spec fn flow_header() -> Seq<char> {
    "arg|kind|file|line|text"@
}

/// The call row: the argument, `call`, file, line and the call written out.
pub open spec fn call_row(arg: Seq<char>, rel: Seq<char>, line: nat, name: Seq<char>, args: Seq<Seq<char>>) -> Seq<char> {
    row_of(seq![arg, "call"@, rel, decimal(line), name + "("@ + join_with(args, ", "@) + ")"@])
}

/// The answer of the tool for the picked call.
pub open spec fn flow_json(arg: Seq<char>, name: Seq<char>, rows: Seq<Seq<char>>) -> Seq<char> {
    "{\"arg\":"@ + json_quoted(arg) + ",\"call\":"@ + json_quoted(name) + ",\"flows\":"@
        + json_quoted(join_with(rows, seq!['\n'])) + ",\"h\":"@ + json_quoted(flow_header()) + "}"@
}

/// What the tool answers for a request on a parsed file, or the message
/// of the missing call.
pub open spec fn arg_flow_outcome(args: ArgFlow, rel: Seq<char>, lang: Language, t: SyntaxTree) -> Result<Seq<char>, Seq<char>> {
    let line = args.line as nat;
    let filter = match args.symbol {
        Some(s) => Some(s@),
        None => None,
    };
    match call_search(t, lang, sat_dec(line), filter, lifo_order(t, 0), None) {
        None => Err("No call expression at "@ + args.file_path@ + ":"@ + decimal(line)),
        Some(p) => {
            let list = call_arg_list(t, p.node);
            let index: nat = match args.arg { Some(a) => a as nat, None => 0 };
            let arg = if index < list.len() { list[index as int] } else { seq![] };
            let rows = seq![call_row(arg, rel, line, p.name, list)]
                + flow_walk(t, rel, start_items(arg, line), seq![], 1, flow_depth(args.depth));
            Ok(flow_json(arg, p.name, rows))
        },
    }
}

/// The call row of the answer.
fn call_row_text(arg: &str, rel: &str, line: usize, name: &str, list: &Vec<String>) -> (r: String)
    ensures
        r@ == call_row(arg@, rel@, line as nat, name@, views(list@)),
{
    let mut call_text = String::from_str(name);
    call_text.append("(");
    let joined = join_strings(list, ", ");
    call_text.append(joined.as_str());
    call_text.append(")");
    let mut fields: Vec<String> = Vec::new();
    fields.push(String::from_str(arg));
    fields.push(String::from_str("call"));
    fields.push(String::from_str(rel));
    fields.push(decimal_string(line));
    fields.push(call_text);
    proof {
        assert(views(fields@) =~= seq![arg@, "call"@, rel@, decimal(line as nat), name@ + "("@ + join_with(views(list@), ", "@) + ")"@]);
    }
    format_row(&fields)
}

/// The walk's first queue for an argument at the call line.
fn start_queue(arg: &str, line: usize) -> (r: Vec<(String, usize)>)
    ensures
        item_views(r@) == start_items(arg@, line as nat),
{
    let idents = rhs_idents(arg);
    let mut start: Vec<(String, usize)> = Vec::new();
    let mut q: usize = 0;
    let ghost ids = views(idents@);
    while q < idents.len()
        invariant
            q <= idents.len(),
            ids == views(idents@),
            item_views(start@) == ids.take(q as int).map_values(|n: Seq<char>| (n, line as nat)),
        decreases idents.len() - q,
    {
        let ghost before = item_views(start@);
        start.push((idents[q].clone(), line));
        proof {
            assert(ids.take(q + 1) =~= ids.take(q as int).push(ids[q as int]));
            assert(item_views(start@) =~= before.push((ids[q as int], line as nat)));
        }
        q += 1;
    }
    proof {
        assert(ids.take(idents.len() as int) =~= ids);
    }
    let ghost mid = item_views(start@);
    if is_bare_identifier(arg) && idents.len() == 0 {
        start.push((trim(arg), line));
        proof {
            assert(item_views(start@) =~= mid.push((trimmed(arg@), line as nat)));
        }
    }
    proof {
        assert(item_views(start@) =~= start_items(arg@, line as nat));
    }
    start
}

/// The answer text for the rows.
fn flow_json_text(arg: &str, name: &str, rows: &Vec<String>) -> (r: String)
    ensures
        r@ == flow_json(arg@, name@, views(rows@)),
{
    let flows = crate::budget::join_prefix(rows, rows.len());
    proof {
        assert(views(rows@).take(rows.len() as int) =~= views(rows@));
    }
    let mut out = String::from_str("{\"arg\":");
    let aq = json_quote(arg);
    out.append(aq.as_str());
    out.append(",\"call\":");
    let nq = json_quote(name);
    out.append(nq.as_str());
    out.append(",\"flows\":");
    let fq = json_quote(flows.as_str());
    out.append(fq.as_str());
    out.append(",\"h\":");
    let hq = json_quote("arg|kind|file|line|text");
    out.append(hq.as_str());
    out.append("}");
    proof {
        assert(out@ =~= flow_json(arg@, name@, views(rows@)));
    }
    out
}

/// The `arg_flow` answer for a parsed file.
pub fn arg_flow_text(args: &ArgFlow, rel: &str, lang: Language, t: &SyntaxTree) -> (r: Result<String, ToolError>)
    requires
        t.wf(),
    ensures
        match arg_flow_outcome(*args, rel@, lang, *t) {
            Ok(text) => r matches Ok(x) && x@ == text,
            Err(m) => r matches Err(e) && e.kind == ToolErrorKind::NotFound && e.message@ == m,
        },
{
    let line = args.line as usize;
    let filter: Option<&str> = match &args.symbol {
        Some(s) => Some(s.as_str()),
        None => None,
    };
    let (node, name) = match find_call_at_line(t, lang, line, filter) {
        Some(x) => x,
        None => {
            let mut msg = String::from_str("No call expression at ");
            msg.append(args.file_path.as_str());
            msg.append(":");
            crate::text::push_decimal(&mut msg, line);
            return Err(ToolError { kind: ToolErrorKind::NotFound, message: msg });
        },
    };
    let list = call_args(t, node);
    let index: usize = match args.arg {
        Some(a) => a as usize,
        None => 0,
    };
    let arg = if index < list.len() { list[index].clone() } else { String::new() };
    proof {
        reveal_strlit("");
    }
    let mut rows: Vec<String> = Vec::new();
    rows.push(call_row_text(arg.as_str(), rel, line, name.as_str(), &list));
    let start = start_queue(arg.as_str(), line);
    let depth: usize = match args.depth {
        Some(v) => if v < 1 { 1 } else if v > 5 { 5 } else { v as usize },
        None => 3,
    };
    let ghost r1 = views(rows@);
    walk_flow(t, rel, start, depth, &mut rows);
    proof {
        let fv = match &args.symbol {
            Some(s) => Some(s@),
            None => None,
        };
        assert(opt_view(filter) == fv);
        let p = call_search(*t, lang, sat_dec(args.line as nat), fv, lifo_order(*t, 0), None)->0;
        assert(p.node == node as int && p.name == name@);
        assert(views(list@) == call_arg_list(*t, p.node));
        let ix: nat = match args.arg { Some(a) => a as nat, None => 0 };
        assert(ix == index as nat);
        let av = if ix < views(list@).len() { views(list@)[ix as int] } else { Seq::<char>::empty() };
        assert(arg@ == av);
        assert(depth as nat == flow_depth(args.depth));
        assert(r1 =~= seq![call_row(arg@, rel@, args.line as nat, name@, views(list@))]);
    }
    Ok(flow_json_text(arg.as_str(), name.as_str(), &rows))
}

} // verus!
