//! Where a symbol is written: identifiers with the symbol's text that are
//! the target of an assignment, declaration, loop binding or update, found
//! by looking up to four levels above the identifier.

use vstd::prelude::*;
use crate::syntax::{SyntaxTree, identifier_kind, field_child, child_by_field};
use crate::text::{contains_seq, str_contains, str_eq, str_ends_with, first_at, lemma_first_at, lemma_first_at_extend};
use crate::lines::{trimmed, trim};

verus! {

/// Whether `a` is `n` or one of its ancestors.
pub open spec fn is_ancestor_of(t: SyntaxTree, a: int, n: int) -> bool
    decreases n + 1,
{
    if n < 0 || n >= t.nodes.len() {
        false
    } else if n == a {
        true
    } else {
        match t.nodes@[n].parent {
            Some(p) => if (p as int) < n { is_ancestor_of(t, a, p as int) } else { false },
            None => false,
        }
    }
}

/// Whether `ancestor` is `node` or above it.
pub fn is_ancestor(t: &SyntaxTree, ancestor: usize, node: usize) -> (b: bool)
    requires
        t.wf(),
        node < t.nodes.len(),
    ensures
        b == is_ancestor_of(*t, ancestor as int, node as int),
    decreases node,
{
    if node == ancestor {
        return true;
    }
    proof {
        assert(t.node_wf(node as int));
    }
    match t.nodes[node].parent {
        Some(p) => is_ancestor(t, ancestor, p),
        None => false,
    }
}

/// Parent kinds that bind or assign their target.
pub open spec fn assign_kind(k: Seq<char>) -> bool {
    contains_seq(k, "assignment"@) || k == "variable_declarator"@ || k == "lexical_declaration"@
        || k == "let_declaration"@ || k == "const_item"@ || k == "static_item"@ || k == "field_declaration"@
        || k == "for_statement"@ || k == "for_clause"@ || k == "for_in_clause"@
}

/// Kinds that wrap a field or member access.
pub open spec fn member_kind(k: Seq<char>) -> bool {
    k == "attribute"@ || k == "field_expression"@ || k == "member_expression"@ || k == "scoped_identifier"@
}

/// The child of `p` in field `f` is `n` or holds `node`.
pub open spec fn field_targets(t: SyntaxTree, p: int, f: Seq<char>, n: int, node: int) -> bool {
    match field_child(t, p, f) {
        Some(c) => c == n || is_ancestor_of(t, c, node),
        None => false,
    }
}

/// The first named child of `p`.
pub open spec fn first_named(t: SyntaxTree, p: int) -> Option<int> {
    match first_at(t.nodes@[p].children.len() as nat, |k: int| t.named_child(p, k) is Some) {
        Some(k) => t.named_child(p, k),
        None => None,
    }
}

/// Parent `p` of `n` (on the way up from `node`) makes `node` a write.
pub open spec fn writes_through(t: SyntaxTree, node: int, n: int, p: int) -> bool {
    let pk = t.nodes@[p].kind@;
    let assigned = assign_kind(pk) && (field_targets(t, p, "left"@, n, node) || field_targets(t, p, "target"@, n, node)
        || field_targets(t, p, "name"@, n, node) || field_targets(t, p, "pattern"@, n, node)
        || field_targets(t, p, "declarator"@, n, node)
        || (match first_named(t, p) {
            Some(c) => c == n || is_ancestor_of(t, c, node),
            None => false,
        })
        || contains_seq(pk, "augmented"@) || contains_seq(pk, "update"@) || contains_seq(pk, "increment"@));
    let updated = (pk == "update_expression"@ || pk == "unary_expression"@) && (match t.nodes@[p].text {
        Some(s) => contains_seq(trimmed(s@), "++"@) || contains_seq(trimmed(s@), "--"@),
        None => false,
    });
    let member = member_kind(pk) && (match t.nodes@[p].parent {
        Some(g) => contains_seq(t.nodes@[g as int].kind@, "assignment"@)
            && (field_targets(t, g as int, "left"@, p, node) || field_targets(t, g as int, "target"@, p, node)),
        None => false,
    });
    assigned || updated || member
}

/// Looking up from `n` (at `level` of four) finds a parent that makes
/// `node` a write.
pub open spec fn write_from(t: SyntaxTree, node: int, n: int, level: nat) -> bool
    decreases 4 - level,
{
    if level >= 4 || !(0 <= n < t.nodes.len()) {
        false
    } else {
        match t.nodes@[n].parent {
            Some(p) => writes_through(t, node, n, p as int) || write_from(t, node, p as int, level + 1),
            None => false,
        }
    }
}

/// Whether the field child `f` of `p` is `n` or holds `node`.
fn field_holds(t: &SyntaxTree, p: usize, f: &str, n: usize, node: usize) -> (b: bool)
    requires
        t.wf(),
        p < t.nodes.len(),
        node < t.nodes.len(),
    ensures
        b == field_targets(*t, p as int, f@, n as int, node as int),
{
    match child_by_field(t, p, f) {
        Some(c) => c == n || is_ancestor(t, c, node),
        None => false,
    }
}

/// The first named child of `p`.
fn first_named_child(t: &SyntaxTree, p: usize) -> (r: Option<usize>)
    requires
        t.wf(),
        p < t.nodes.len(),
    ensures
        match first_named(*t, p as int) {
            Some(c) => r == Some(c as usize),
            None => r is None,
        },
        r matches Some(c) ==> c < t.nodes.len(),
{
    let n = &t.nodes[p];
    let ghost q = |k: int| t.named_child(p as int, k) is Some;
    proof {
        assert(t.node_wf(p as int));
    }
    let mut k: usize = 0;
    while k < n.children.len()
        invariant
            t.wf(),
            p < t.nodes.len(),
            n == t.nodes@[p as int],
            k <= n.children.len(),
            q == (|k: int| t.named_child(p as int, k) is Some),
            first_at(k as nat, q) is None,
        decreases n.children.len() - k,
    {
        proof {
            assert(t.node_wf(p as int));
        }
        let c = n.children[k];
        proof {
            assert(p < n.children@[k as int] < t.nodes.len());
        }
        if t.nodes[c].is_named {
            proof {
                assert(q(k as int));
                lemma_first_at_extend((k + 1) as nat, n.children.len() as nat, q);
            }
            return Some(c);
        }
        proof {
            assert(!q(k as int));
        }
        k += 1;
    }
    None
}

/// Whether parent `p` of `n` makes `node` a write.
fn writes_through_exec(t: &SyntaxTree, node: usize, n: usize, p: usize) -> (b: bool)
    requires
        t.wf(),
        node < t.nodes.len(),
        p < t.nodes.len(),
    ensures
        b == writes_through(*t, node as int, n as int, p as int),
{
    proof {
        reveal_strlit("left");
        reveal_strlit("target");
        reveal_strlit("name");
        reveal_strlit("pattern");
        reveal_strlit("declarator");
    }
    let pn = &t.nodes[p];
    let pk = pn.kind.as_str();
    let assign = str_contains(pk, "assignment") || str_eq(pk, "variable_declarator") || str_eq(pk, "lexical_declaration")
        || str_eq(pk, "let_declaration") || str_eq(pk, "const_item") || str_eq(pk, "static_item")
        || str_eq(pk, "field_declaration") || str_eq(pk, "for_statement") || str_eq(pk, "for_clause")
        || str_eq(pk, "for_in_clause");
    if assign {
        if field_holds(t, p, "left", n, node) || field_holds(t, p, "target", n, node) || field_holds(t, p, "name", n, node)
            || field_holds(t, p, "pattern", n, node) || field_holds(t, p, "declarator", n, node) {
            return true;
        }
        match first_named_child(t, p) {
            Some(c) => {
                if c == n || is_ancestor(t, c, node) {
                    return true;
                }
            },
            None => {},
        }
        if str_contains(pk, "augmented") || str_contains(pk, "update") || str_contains(pk, "increment") {
            return true;
        }
    }
    if str_eq(pk, "update_expression") || str_eq(pk, "unary_expression") {
        match &pn.text {
            Some(s) => {
                let tt = trim(s.as_str());
                if str_contains(tt.as_str(), "++") || str_contains(tt.as_str(), "--") {
                    return true;
                }
            },
            None => {},
        }
    }
    if str_eq(pk, "attribute") || str_eq(pk, "field_expression") || str_eq(pk, "member_expression")
        || str_eq(pk, "scoped_identifier") {
        proof {
            assert(t.node_wf(p as int));
        }
        match pn.parent {
            Some(g) => {
                if str_contains(t.nodes[g].kind.as_str(), "assignment") {
                    if field_holds(t, g, "left", p, node) || field_holds(t, g, "target", p, node) {
                        return true;
                    }
                }
            },
            None => {},
        }
    }
    false
}

/// True when identifier `node` is the target of an assignment, declaration,
/// loop binding or update, looking at most four levels up.
pub fn is_write_position(t: &SyntaxTree, node: usize) -> (b: bool)
    requires
        t.wf(),
        node < t.nodes.len(),
    ensures
        b == write_from(*t, node as int, node as int, 0),
{
    let mut current: usize = node;
    let mut level: usize = 0;
    while level < 4
        invariant
            t.wf(),
            node < t.nodes.len(),
            current < t.nodes.len(),
            level <= 4,
            write_from(*t, node as int, node as int, 0) == write_from(*t, node as int, current as int, level as nat),
        decreases 4 - level,
    {
        proof {
            assert(t.node_wf(current as int));
        }
        let parent = match t.nodes[current].parent {
            Some(p) => p,
            None => {
                return false;
            },
        };
        if writes_through_exec(t, node, current, parent) {
            return true;
        }
        current = parent;
        level += 1;
    }
    false
}

/// Identifier nodes under `i` (every child, in pre-order) whose text is
/// `symbol` and that sit in a write position.
pub open spec fn writes_in(t: SyntaxTree, i: int, symbol: Seq<char>) -> Seq<int>
    decreases t.nodes.len() - i, t.nodes@[i].children.len() + 1,
{
    if !(0 <= i < t.nodes.len()) {
        seq![]
    } else {
        let text = match t.nodes@[i].text {
            Some(s) => s@,
            None => seq![],
        };
        let own = if identifier_kind(t.nodes@[i].kind@) && text == symbol && write_from(t, i, i, 0) {
            seq![i]
        } else {
            seq![]
        };
        own + writes_kids(t, i, symbol, 0)
    }
}

/// `writes_in` over every child of `i` from child `k` on.
pub open spec fn writes_kids(t: SyntaxTree, i: int, symbol: Seq<char>, k: int) -> Seq<int>
    decreases t.nodes.len() - i, t.nodes@[i].children.len() - k,
{
    if !(0 <= i < t.nodes.len()) || k < 0 || k >= t.nodes@[i].children.len() {
        seq![]
    } else {
        (match t.child(i, k) {
            Some(c) => writes_in(t, c, symbol),
            None => seq![],
        }) + writes_kids(t, i, symbol, k + 1)
    }
}

/// Appends the write positions under node `i`.
pub fn visit_node(t: &SyntaxTree, i: usize, symbol: &str, out: &mut Vec<usize>)
    requires
        t.wf(),
        i < t.nodes.len(),
    ensures
        crate::walk::idx_ints(final(out)@) == crate::walk::idx_ints(old(out)@) + writes_in(*t, i as int, symbol@),
    decreases t.nodes.len() - i,
{
    let n = &t.nodes[i];
    let kind = n.kind.as_str();
    let text: &str = match &n.text {
        Some(s) => s.as_str(),
        None => "",
    };
    proof {
        reveal_strlit("");
        reveal_strlit("identifier");
        reveal_strlit("_identifier");
        assert(t.node_wf(i as int));
    }
    let ghost tv: Seq<char> = match &n.text {
        Some(s) => s@,
        None => seq![],
    };
    proof {
        assert(""@ =~= Seq::<char>::empty());
        assert(text@ == tv);
    }
    let hit = (str_eq(kind, "identifier") || str_ends_with(kind, "_identifier")) && str_eq(text, symbol)
        && is_write_position(t, i);
    proof {
        assert(hit == (identifier_kind(n.kind@) && tv == symbol@ && write_from(*t, i as int, i as int, 0)));
    }
    if hit {
        out.push(i);
    }
    proof {
        let own = if identifier_kind(n.kind@) && (match &n.text { Some(s) => s@, None => seq![] }) == symbol@
            && write_from(*t, i as int, i as int, 0) {
            seq![i as int]
        } else {
            seq![]
        };
        assert(crate::walk::idx_ints(out@) =~= crate::walk::idx_ints(old(out)@) + own);
    }
    let mut k: usize = 0;
    while k < n.children.len()
        invariant
            t.wf(),
            i < t.nodes.len(),
            n == t.nodes@[i as int],
            k <= n.children.len(),
            crate::walk::idx_ints(out@) + writes_kids(*t, i as int, symbol@, k as int)
                == crate::walk::idx_ints(old(out)@) + writes_in(*t, i as int, symbol@),
        decreases n.children.len() - k,
    {
        proof {
            assert(t.node_wf(i as int));
        }
        let c = n.children[k];
        proof {
            assert(i < n.children@[k as int] < t.nodes.len());
        }
        let ghost before = crate::walk::idx_ints(out@);
        visit_node(t, c, symbol, out);
        proof {
            assert(t.child(i as int, k as int) == Some(c as int));
            assert(before + writes_kids(*t, i as int, symbol@, k as int)
                =~= crate::walk::idx_ints(out@) + writes_kids(*t, i as int, symbol@, k + 1));
        }
        k += 1;
    }
    proof {
        assert(crate::walk::idx_ints(out@) + writes_kids(*t, i as int, symbol@, k as int) =~= crate::walk::idx_ints(out@));
    }
}

/// Every write of `symbol` in a tree, in pre-order.
pub fn write_positions(t: &SyntaxTree, symbol: &str) -> (r: Vec<usize>)
    requires
        t.wf(),
    ensures
        crate::walk::idx_ints(r@) == writes_in(*t, 0, symbol@),
{
    let mut out: Vec<usize> = Vec::new();
    visit_node(t, 0, symbol, &mut out);
    proof {
        assert(crate::walk::idx_ints(Seq::<usize>::empty()) =~= Seq::<int>::empty());
        assert(crate::walk::idx_ints(out@) =~= writes_in(*t, 0, symbol@));
    }
    out
}

/// An identifier whose parent is an `update_expression` or
/// `unary_expression` with `++` or `--` in its trimmed text (`x++`, `--x`)
/// is in a write position.
pub proof fn law_update_is_write(t: SyntaxTree, node: int)
    requires
        0 <= node < t.nodes.len(),
        t.nodes@[node].parent is Some,
        t.nodes@[t.nodes@[node].parent->0 as int].kind@ == "update_expression"@
            || t.nodes@[t.nodes@[node].parent->0 as int].kind@ == "unary_expression"@,
        t.nodes@[t.nodes@[node].parent->0 as int].text is Some,
        contains_seq(trimmed(t.nodes@[t.nodes@[node].parent->0 as int].text->0@), "++"@)
            || contains_seq(trimmed(t.nodes@[t.nodes@[node].parent->0 as int].text->0@), "--"@),
    ensures
        write_from(t, node, node, 0),
{
    let p = t.nodes@[node].parent->0 as int;
    assert(writes_through(t, node, node, p));
}

/// An identifier that is the `left` child of its parent, when the parent's
/// kind names an assignment (`x = 1`, `x += 1`), is in a write position.
pub proof fn law_assignment_left_is_write(t: SyntaxTree, node: int)
    requires
        0 <= node < t.nodes.len(),
        t.nodes@[node].parent is Some,
        contains_seq(t.nodes@[t.nodes@[node].parent->0 as int].kind@, "assignment"@),
        field_child(t, t.nodes@[node].parent->0 as int, "left"@) == Some(node),
    ensures
        write_from(t, node, node, 0),
{
    let p = t.nodes@[node].parent->0 as int;
    assert(field_targets(t, p, "left"@, node, node));
    assert(writes_through(t, node, node, p));
}

/// An identifier that is the first named child of its parent, when the
/// parent is an assignment, a declaration (`variable_declarator`,
/// `lexical_declaration`, `let_declaration`, `const_item`, `static_item`,
/// `field_declaration`) or a loop binding (`for_statement`, `for_clause`,
/// `for_in_clause`), is in a write position.
pub proof fn law_declared_target_is_write(t: SyntaxTree, node: int)
    requires
        0 <= node < t.nodes.len(),
        t.nodes@[node].parent is Some,
        ({
            let k = t.nodes@[t.nodes@[node].parent->0 as int].kind@;
            contains_seq(k, "assignment"@) || k == "variable_declarator"@ || k == "lexical_declaration"@
                || k == "let_declaration"@ || k == "const_item"@ || k == "static_item"@ || k == "field_declaration"@
                || k == "for_statement"@ || k == "for_clause"@ || k == "for_in_clause"@
        }),
        first_named(t, t.nodes@[node].parent->0 as int) == Some(node),
    ensures
        write_from(t, node, node, 0),
{
    let p = t.nodes@[node].parent->0 as int;
    assert(writes_through(t, node, node, p));
}

} // verus!
