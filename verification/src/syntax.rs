//! A parsed syntax tree held as plain values: every node of the tree in
//! pre-order, with its kind, span, text and children by index. The walks the
//! analyses make over a tree (call names, call sites, enclosing bodies) are
//! defined here over that arena.

use vstd::prelude::*;
use crate::text::{contains_seq, has_suffix, str_contains, str_ends_with, str_eq};

verus! {

/// The languages the parser knows.
#[derive(PartialEq, Eq, Structural, Clone, Copy, Debug)]
pub enum Language {
    Rust,
    Python,
    JavaScript,
    TypeScript,
    Go,
    Java,
    CSharp,
    Swift,
    C,
    Cpp,
    Html,
    Css,
}

/// One node of a syntax tree.
pub struct SyntaxNode {
    /// The grammar's name for the node (`call_expression`, `identifier`, ...).
    pub kind: String,
    /// Named nodes are the ones a grammar rule names; punctuation is unnamed.
    pub is_named: bool,
    /// 0-based row and column where the node starts and ends.
    pub start_row: usize,
    pub start_col: usize,
    pub end_row: usize,
    pub end_col: usize,
    /// The source text the node covers, when it is valid UTF-8.
    pub text: Option<String>,
    /// Every child, in source order, by index into the tree.
    pub children: Vec<usize>,
    /// The field name of each child (`function`, `name`, ...), empty when none.
    pub fields: Vec<String>,
    /// The enclosing node, if any.
    pub parent: Option<usize>,
}

/// A whole tree; node 0 is the root.
pub struct SyntaxTree {
    pub nodes: Vec<SyntaxNode>,
}

impl SyntaxTree {
    /// Nodes are numbered in pre-order: children come after their parent and
    /// the parent before the child; every index is in range.
    pub open spec fn wf(&self) -> bool {
        &&& self.nodes.len() > 0
        &&& forall|i: int| 0 <= i < self.nodes.len() ==> #[trigger] self.node_wf(i)
    }

    /// Node `i` is well formed.
    pub open spec fn node_wf(&self, i: int) -> bool {
        let n = self.nodes@[i];
        &&& n.fields.len() == n.children.len()
        &&& forall|k: int| 0 <= k < n.children.len() ==> i < #[trigger] n.children@[k] < self.nodes.len()
        &&& (n.parent matches Some(p) ==> p < i)
        &&& n.start_row <= n.end_row < usize::MAX
    }

    /// Child `k` of node `i`, when it is a valid later node.
    pub open spec fn child(&self, i: int, k: int) -> Option<int> {
        let n = self.nodes@[i];
        if 0 <= k < n.children.len() && i < n.children@[k] < self.nodes.len() {
            Some(n.children@[k] as int)
        } else {
            None
        }
    }

    /// Child `k` of node `i`, when it is a valid later node and named.
    pub open spec fn named_child(&self, i: int, k: int) -> Option<int> {
        match self.child(i, k) {
            Some(c) => if self.nodes@[c].is_named { Some(c) } else { None },
            None => None,
        }
    }
}

/// Kinds a language uses for calls.
pub open spec fn call_kind(kind: Seq<char>, language: Language) -> bool {
    match language {
        Language::Rust => kind == "call_expression"@ || kind == "method_call_expression"@,
        Language::Python => kind == "call"@,
        Language::JavaScript | Language::TypeScript | Language::Go => kind == "call_expression"@,
        Language::Java | Language::CSharp | Language::Swift => has_suffix(kind, "invocation"@),
        Language::C | Language::Cpp => kind == "call_expression"@,
        Language::Html | Language::Css => false,
    }
}

/// Whether a node of this kind is a call in `language`.
pub fn is_call_node(kind: &str, language: Language) -> (b: bool)
    ensures
        b == call_kind(kind@, language),
{
    match language {
        Language::Rust => str_eq(kind, "call_expression") || str_eq(kind, "method_call_expression"),
        Language::Python => str_eq(kind, "call"),
        Language::JavaScript | Language::TypeScript | Language::Go => str_eq(kind, "call_expression"),
        Language::Java | Language::CSharp | Language::Swift => str_ends_with(kind, "invocation"),
        Language::C | Language::Cpp => str_eq(kind, "call_expression"),
        Language::Html | Language::Css => false,
    }
}

/// In Java, C# and Swift every node kind ending in `invocation`, such as
/// `method_invocation`, is a call; in
/// Rust `call_expression` and `method_call_expression` are calls, in Python
/// `call`, in JavaScript, TypeScript, Go, C and C++ `call_expression`; HTML
/// and CSS have none.
pub proof fn law_call_kinds(prefix: Seq<char>, kind: Seq<char>)
    ensures
        call_kind(prefix + "invocation"@, Language::Java),
        call_kind(prefix + "invocation"@, Language::CSharp),
        call_kind(prefix + "invocation"@, Language::Swift),
        call_kind("call_expression"@, Language::Rust),
        call_kind("method_call_expression"@, Language::Rust),
        call_kind("call"@, Language::Python),
        call_kind("call_expression"@, Language::JavaScript),
        call_kind("call_expression"@, Language::TypeScript),
        call_kind("call_expression"@, Language::Go),
        call_kind("call_expression"@, Language::C),
        call_kind("call_expression"@, Language::Cpp),
        !call_kind(kind, Language::Html),
        !call_kind(kind, Language::Css),
{
    let k = prefix + "invocation"@;
    assert(k.subrange(k.len() - "invocation"@.len(), k.len() as int) =~= "invocation"@);
}

/// Kinds that name something: `identifier` and every `*_identifier`.
pub open spec fn identifier_kind(kind: Seq<char>) -> bool {
    kind == "identifier"@ || has_suffix(kind, "_identifier"@)
}

/// `identifier` and every kind ending in `_identifier` (`field_identifier`,
/// `type_identifier`, ...) name something.
pub proof fn law_identifier_kinds(prefix: Seq<char>)
    ensures
        identifier_kind("identifier"@),
        identifier_kind(prefix + "_identifier"@),
{
    let k = prefix + "_identifier"@;
    assert(k.subrange(k.len() - "_identifier"@.len(), k.len() as int) =~= "_identifier"@);
}

/// The text of the last identifier in the subtree of node `i`: the node's own
/// text when it is an identifier, else the last one its named children give.
pub open spec fn last_ident(t: SyntaxTree, i: int) -> Option<Seq<char>>
    decreases t.nodes.len() - i, t.nodes@[i].children.len() + 1,
{
    if !(0 <= i < t.nodes.len()) {
        None
    } else if identifier_kind(t.nodes@[i].kind@) {
        match t.nodes@[i].text {
            Some(s) => Some(s@),
            None => None,
        }
    } else {
        last_ident_kids(t, i, t.nodes@[i].children.len() as int)
    }
}

/// The last identifier text found among the named children of `i` before `k`.
pub open spec fn last_ident_kids(t: SyntaxTree, i: int, k: int) -> Option<Seq<char>>
    decreases t.nodes.len() - i, k,
{
    if !(0 <= i < t.nodes.len()) || k <= 0 || k > t.nodes@[i].children.len() {
        None
    } else {
        match t.named_child(i, k - 1) {
            Some(c) => match last_ident(t, c) {
                Some(s) => Some(s),
                None => last_ident_kids(t, i, k - 1),
            },
            None => last_ident_kids(t, i, k - 1),
        }
    }
}

/// Text of the last identifier under node `i`.
pub fn last_identifier_text(t: &SyntaxTree, i: usize) -> (r: Option<String>)
    requires
        t.wf(),
        i < t.nodes.len(),
    ensures
        match last_ident(*t, i as int) {
            Some(s) => r matches Some(x) && x@ == s,
            None => r is None,
        },
    decreases t.nodes.len() - i,
{
    let n = &t.nodes[i];
    let kind = n.kind.as_str();
    if str_eq(kind, "identifier") || str_ends_with(kind, "_identifier") {
        return match &n.text {
            Some(s) => Some(s.clone()),
            None => None,
        };
    }
    let mut found: Option<String> = None;
    let mut k: usize = 0;
    while k < n.children.len()
        invariant
            t.wf(),
            i < t.nodes.len(),
            n == t.nodes@[i as int],
            k <= n.children.len(),
            !identifier_kind(n.kind@),
            match last_ident_kids(*t, i as int, k as int) {
                Some(s) => found matches Some(x) && x@ == s,
                None => found is None,
            },
        decreases n.children.len() - k,
    {
        proof {
            assert(t.node_wf(i as int));
        }
        let c = n.children[k];
        proof {
            assert(i < n.children@[k as int] < t.nodes.len());
        }
        if t.nodes[c].is_named {
            match last_identifier_text(t, c) {
                Some(s) => {
                    found = Some(s);
                },
                None => {},
            }
        }
        k += 1;
    }
    found
}

/// The first child of node `i` under field `f`.
pub open spec fn field_child(t: SyntaxTree, i: int, f: Seq<char>) -> Option<int> {
    let n = t.nodes@[i];
    match crate::text::first_at(n.children.len() as nat, |k: int| n.fields@[k]@ == f) {
        Some(k) => t.child(i, k),
        None => None,
    }
}

/// The child of node `i` under field `f`, as `child_by_field_name` finds it.
pub fn child_by_field(t: &SyntaxTree, i: usize, f: &str) -> (r: Option<usize>)
    requires
        t.wf(),
        i < t.nodes.len(),
    ensures
        match field_child(*t, i as int, f@) {
            Some(c) => r == Some(c as usize),
            None => r is None,
        },
{
    let n = &t.nodes[i];
    let ghost p = |k: int| n.fields@[k]@ == f@;
    proof {
        assert(t.node_wf(i as int));
    }
    let mut k: usize = 0;
    while k < n.children.len()
        invariant
            t.wf(),
            i < t.nodes.len(),
            n == t.nodes@[i as int],
            n.fields.len() == n.children.len(),
            k <= n.children.len(),
            p == (|k: int| n.fields@[k]@ == f@),
            crate::text::first_at(k as nat, p) is None,
            forall|j: int| 0 <= j < n.children.len() ==> i < #[trigger] n.children@[j] < t.nodes.len(),
        decreases n.children.len() - k,
    {
        if str_eq(n.fields[k].as_str(), f) {
            proof {
                assert(p(k as int));
                crate::text::lemma_first_at_extend((k + 1) as nat, n.children.len() as nat, p);
                assert(i < n.children@[k as int] < t.nodes.len());
            }
            return Some(n.children[k]);
        }
        k += 1;
    }
    None
}

/// The name a call node calls: the last identifier under its `function`,
/// `name`, `method` or `field` child (in that order of preference), else
/// under its first named child that has one.
pub open spec fn call_name_of(t: SyntaxTree, i: int) -> Option<Seq<char>> {
    match field_ident(t, i, "function"@) {
        Some(s) => Some(s),
        None => match field_ident(t, i, "name"@) {
            Some(s) => Some(s),
            None => match field_ident(t, i, "method"@) {
                Some(s) => Some(s),
                None => match field_ident(t, i, "field"@) {
                    Some(s) => Some(s),
                    None => first_kid_ident(t, i, 0),
                },
            },
        },
    }
}

/// The last identifier under the child of `i` in field `f`.
pub open spec fn field_ident(t: SyntaxTree, i: int, f: Seq<char>) -> Option<Seq<char>> {
    match field_child(t, i, f) {
        Some(c) => last_ident(t, c),
        None => None,
    }
}

/// The identifier of the first named child of `i`, from child `k` on, that has one.
pub open spec fn first_kid_ident(t: SyntaxTree, i: int, k: int) -> Option<Seq<char>>
    decreases t.nodes@[i].children.len() - k,
{
    if k < 0 || k >= t.nodes@[i].children.len() {
        None
    } else {
        match t.named_child(i, k) {
            Some(c) => match last_ident(t, c) {
                Some(s) => Some(s),
                None => first_kid_ident(t, i, k + 1),
            },
            None => first_kid_ident(t, i, k + 1),
        }
    }
}

/// The last identifier under the field child `f` of node `i`.
fn field_identifier(t: &SyntaxTree, i: usize, f: &str) -> (r: Option<String>)
    requires
        t.wf(),
        i < t.nodes.len(),
    ensures
        match field_ident(*t, i as int, f@) {
            Some(s) => r matches Some(x) && x@ == s,
            None => r is None,
        },
{
    match child_by_field(t, i, f) {
        Some(c) => {
            proof {
                let n = t.nodes@[i as int];
                let p = |k: int| n.fields@[k]@ == f@;
                crate::text::lemma_first_at(n.children.len() as nat, p);
            }
            last_identifier_text(t, c)
        },
        None => None,
    }
}

/// The name called by call node `i`.
pub fn call_name(t: &SyntaxTree, i: usize) -> (r: Option<String>)
    requires
        t.wf(),
        i < t.nodes.len(),
    ensures
        match call_name_of(*t, i as int) {
            Some(s) => r matches Some(x) && x@ == s,
            None => r is None,
        },
{
    proof {
        reveal_strlit("function");
        reveal_strlit("name");
        reveal_strlit("method");
        reveal_strlit("field");
    }
    match field_identifier(t, i, "function") {
        Some(s) => return Some(s),
        None => {},
    }
    match field_identifier(t, i, "name") {
        Some(s) => return Some(s),
        None => {},
    }
    match field_identifier(t, i, "method") {
        Some(s) => return Some(s),
        None => {},
    }
    match field_identifier(t, i, "field") {
        Some(s) => return Some(s),
        None => {},
    }
    let n = &t.nodes[i];
    let mut k: usize = 0;
    while k < n.children.len()
        invariant
            t.wf(),
            i < t.nodes.len(),
            n == t.nodes@[i as int],
            k <= n.children.len(),
            call_name_of(*t, i as int) == first_kid_ident(*t, i as int, k as int),
        decreases n.children.len() - k,
    {
        proof {
            assert(t.node_wf(i as int));
        }
        let c = n.children[k];
        proof {
            assert(i < n.children@[k as int] < t.nodes.len());
        }
        if t.nodes[c].is_named {
            match last_identifier_text(t, c) {
                Some(s) => {
                    proof {
                        assert(t.named_child(i as int, k as int) == Some(c as int));
                        assert(first_kid_ident(*t, i as int, k as int) == last_ident(*t, c as int));
                    }
                    return Some(s);
                },
                None => {},
            }
        }
        k += 1;
    }
    None
}

/// Names called by the call nodes under `i` whose rows overlap `[s, e]`,
/// in pre-order (a call counts once per occurrence).
pub open spec fn called_in(t: SyntaxTree, i: int, lang: Language, s: nat, e: nat) -> Seq<Seq<char>>
    decreases t.nodes.len() - i, t.nodes@[i].children.len() + 1,
{
    if !(0 <= i < t.nodes.len()) {
        seq![]
    } else if t.nodes@[i].end_row < s || t.nodes@[i].start_row > e {
        seq![]
    } else {
        let own = if call_kind(t.nodes@[i].kind@, lang) {
            match call_name_of(t, i) {
                Some(x) => seq![x],
                None => seq![],
            }
        } else {
            seq![]
        };
        own + called_kids(t, i, lang, s, e, 0)
    }
}

/// `called_in` over the named children of `i` from child `k` on.
pub open spec fn called_kids(t: SyntaxTree, i: int, lang: Language, s: nat, e: nat, k: int) -> Seq<Seq<char>>
    decreases t.nodes.len() - i, t.nodes@[i].children.len() - k,
{
    if !(0 <= i < t.nodes.len()) || k < 0 || k >= t.nodes@[i].children.len() {
        seq![]
    } else {
        (match t.named_child(i, k) {
            Some(c) => called_in(t, c, lang, s, e),
            None => seq![],
        }) + called_kids(t, i, lang, s, e, k + 1)
    }
}

/// Appends the names `called_in` gives for node `i`.
pub fn collect_called_names_from_node(t: &SyntaxTree, i: usize, lang: Language, s: usize, e: usize, names: &mut Vec<String>)
    requires
        t.wf(),
        i < t.nodes.len(),
    ensures
        crate::rows::views(final(names)@) == crate::rows::views(old(names)@) + called_in(*t, i as int, lang, s as nat, e as nat),
    decreases t.nodes.len() - i,
{
    let n = &t.nodes[i];
    if n.end_row < s || n.start_row > e {
        proof {
            assert(crate::rows::views(names@) =~= crate::rows::views(old(names)@) + called_in(*t, i as int, lang, s as nat, e as nat));
        }
        return;
    }
    if is_call_node(n.kind.as_str(), lang) {
        match call_name(t, i) {
            Some(name) => {
                names.push(name);
            },
            None => {},
        }
    }
    let ghost own = crate::rows::views(names@).skip(old(names)@.len() as int);
    proof {
        assert(crate::rows::views(names@) =~= crate::rows::views(old(names)@) + own);
        assert(t.node_wf(i as int));
    }
    let mut k: usize = 0;
    while k < n.children.len()
        invariant
            t.wf(),
            i < t.nodes.len(),
            n == t.nodes@[i as int],
            k <= n.children.len(),
            !(n.end_row < s || n.start_row > e),
            crate::rows::views(names@) + called_kids(*t, i as int, lang, s as nat, e as nat, k as int)
                == crate::rows::views(old(names)@) + called_in(*t, i as int, lang, s as nat, e as nat),
        decreases n.children.len() - k,
    {
        proof {
            assert(t.node_wf(i as int));
        }
        let c = n.children[k];
        proof {
            assert(i < n.children@[k as int] < t.nodes.len());
        }
        let ghost before = crate::rows::views(names@);
        if t.nodes[c].is_named {
            collect_called_names_from_node(t, c, lang, s, e, names);
        }
        proof {
            assert(t.named_child(i as int, k as int) == (if t.nodes@[c as int].is_named { Some(c as int) } else { None::<int> }));
            assert(before + called_kids(*t, i as int, lang, s as nat, e as nat, k as int)
                =~= crate::rows::views(names@) + called_kids(*t, i as int, lang, s as nat, e as nat, k + 1));
        }
        k += 1;
    }
    proof {
        assert(crate::rows::views(names@) + called_kids(*t, i as int, lang, s as nat, e as nat, k as int)
            =~= crate::rows::views(names@));
    }
}

/// `n - 1`, or 0 for 0.
pub open spec fn sat_dec(n: nat) -> nat {
    if n == 0 { 0 } else { (n - 1) as nat }
}

/// Names called inside the 1-based line span `[start_line, end_line]` of a tree.
pub fn collect_called_names(t: &SyntaxTree, lang: Language, start_line: usize, end_line: usize) -> (names: Vec<String>)
    requires
        t.wf(),
    ensures
        crate::rows::views(names@) == called_in(*t, 0, lang, sat_dec(start_line as nat), sat_dec(end_line as nat)),
{
    let mut names: Vec<String> = Vec::new();
    collect_called_names_from_node(t, 0, lang, start_line.saturating_sub(1), end_line.saturating_sub(1), &mut names);
    proof {
        assert(crate::rows::views(Seq::<String>::empty()) =~= Seq::<Seq<char>>::empty());
        assert(crate::rows::views(names@) =~= called_in(*t, 0, lang, sat_dec(start_line as nat), sat_dec(end_line as nat)));
    }
    names
}

/// 1-based lines of the calls to `symbol` under node `i`, in pre-order.
pub open spec fn call_sites_in(t: SyntaxTree, i: int, lang: Language, symbol: Seq<char>) -> Seq<nat>
    decreases t.nodes.len() - i, t.nodes@[i].children.len() + 1,
{
    if !(0 <= i < t.nodes.len()) {
        seq![]
    } else {
        let own = if call_kind(t.nodes@[i].kind@, lang) && call_name_of(t, i) == Some(symbol) {
            seq![(t.nodes@[i].start_row + 1) as nat]
        } else {
            seq![]
        };
        own + call_sites_kids(t, i, lang, symbol, 0)
    }
}

/// `call_sites_in` over the named children of `i` from child `k` on.
pub open spec fn call_sites_kids(t: SyntaxTree, i: int, lang: Language, symbol: Seq<char>, k: int) -> Seq<nat>
    decreases t.nodes.len() - i, t.nodes@[i].children.len() - k,
{
    if !(0 <= i < t.nodes.len()) || k < 0 || k >= t.nodes@[i].children.len() {
        seq![]
    } else {
        (match t.named_child(i, k) {
            Some(c) => call_sites_in(t, c, lang, symbol),
            None => seq![],
        }) + call_sites_kids(t, i, lang, symbol, k + 1)
    }
}

/// The lines as plain numbers.
pub open spec fn line_nats(v: Seq<usize>) -> Seq<nat> {
    v.map_values(|x: usize| x as nat)
}

/// Appends the lines `call_sites_in` gives for node `i`.
pub fn collect_call_sites_from_node(t: &SyntaxTree, i: usize, lang: Language, symbol: &str, lines: &mut Vec<usize>)
    requires
        t.wf(),
        i < t.nodes.len(),
    ensures
        line_nats(final(lines)@) == line_nats(old(lines)@) + call_sites_in(*t, i as int, lang, symbol@),
    decreases t.nodes.len() - i,
{
    let n = &t.nodes[i];
    proof {
        assert(t.node_wf(i as int));
    }
    if is_call_node(n.kind.as_str(), lang) {
        match call_name(t, i) {
            Some(name) => {
                if str_eq(name.as_str(), symbol) {
                    lines.push(n.start_row + 1);
                }
            },
            None => {},
        }
    }
    proof {
        let own = if call_kind(n.kind@, lang) && call_name_of(*t, i as int) == Some(symbol@) {
            seq![(n.start_row + 1) as nat]
        } else {
            seq![]
        };
        assert(line_nats(lines@) =~= line_nats(old(lines)@) + own);
    }
    let mut k: usize = 0;
    while k < n.children.len()
        invariant
            t.wf(),
            i < t.nodes.len(),
            n == t.nodes@[i as int],
            k <= n.children.len(),
            line_nats(lines@) + call_sites_kids(*t, i as int, lang, symbol@, k as int)
                == line_nats(old(lines)@) + call_sites_in(*t, i as int, lang, symbol@),
        decreases n.children.len() - k,
    {
        proof {
            assert(t.node_wf(i as int));
        }
        let c = n.children[k];
        proof {
            assert(i < n.children@[k as int] < t.nodes.len());
        }
        let ghost before = line_nats(lines@);
        if t.nodes[c].is_named {
            collect_call_sites_from_node(t, c, lang, symbol, lines);
        }
        proof {
            assert(t.named_child(i as int, k as int) == (if t.nodes@[c as int].is_named { Some(c as int) } else { None::<int> }));
            assert(before + call_sites_kids(*t, i as int, lang, symbol@, k as int)
                =~= line_nats(lines@) + call_sites_kids(*t, i as int, lang, symbol@, k + 1));
        }
        k += 1;
    }
    proof {
        assert(line_nats(lines@) + call_sites_kids(*t, i as int, lang, symbol@, k as int) =~= line_nats(lines@));
    }
}

/// Lines (1-based) of every call to `symbol` in a tree.
pub fn collect_call_sites(t: &SyntaxTree, lang: Language, symbol: &str) -> (lines: Vec<usize>)
    requires
        t.wf(),
    ensures
        line_nats(lines@) == call_sites_in(*t, 0, lang, symbol@),
{
    let mut lines: Vec<usize> = Vec::new();
    collect_call_sites_from_node(t, 0, lang, symbol, &mut lines);
    proof {
        assert(line_nats(Seq::<usize>::empty()) =~= Seq::<nat>::empty());
        assert(line_nats(lines@) =~= call_sites_in(*t, 0, lang, symbol@));
    }
    lines
}

/// Kinds that make a body a caller can sit in.
pub open spec fn body_kind(k: Seq<char>) -> bool {
    contains_seq(k, "function"@) || contains_seq(k, "method"@) || contains_seq(k, "closure"@) || k == "call"@
}

/// Kinds that are loops.
pub open spec fn loop_kind(k: Seq<char>) -> bool {
    contains_seq(k, "for_"@) || k == "for_statement"@ || k == "for_clause"@ || contains_seq(k, "while"@)
        || contains_seq(k, "loop"@) || k == "for_in_clause"@
}

/// Node `n` is a body that spans row `row`.
pub open spec fn encloses(t: SyntaxTree, n: int, row: nat) -> bool {
    body_kind(t.nodes@[n].kind@) && t.nodes@[n].start_row <= row <= t.nodes@[n].end_row
}

/// How many rows past its first a node ends.
pub open spec fn row_span(t: SyntaxTree, n: int) -> int {
    t.nodes@[n].end_row - t.nodes@[n].start_row
}

/// The nodes under `i` in the order a last-in-first-out walk visits them:
/// the node, then the walks of its named children from the last to the first.
pub open spec fn lifo_order(t: SyntaxTree, i: int) -> Seq<int>
    decreases t.nodes.len() - i, t.nodes@[i].children.len() + 1,
{
    if !(0 <= i < t.nodes.len()) {
        seq![]
    } else {
        seq![i] + lifo_kids(t, i, t.nodes@[i].children.len() as int)
    }
}

/// The walks of the named children of `i` before child `k`, last first.
pub open spec fn lifo_kids(t: SyntaxTree, i: int, k: int) -> Seq<int>
    decreases t.nodes.len() - i, k,
{
    if !(0 <= i < t.nodes.len()) || k <= 0 || k > t.nodes@[i].children.len() {
        seq![]
    } else {
        (match t.named_child(i, k - 1) {
            Some(c) => lifo_order(t, c),
            None => seq![],
        }) + lifo_kids(t, i, k - 1)
    }
}

/// One step of the search for the smallest enclosing body: `n` replaces the
/// best so far when it encloses the row and spans strictly fewer rows.
pub open spec fn smaller_step(t: SyntaxTree, best: Option<int>, n: int, row: nat) -> Option<int> {
    if encloses(t, n, row) && (match best {
        Some(b) => row_span(t, n) < row_span(t, b),
        None => true,
    }) {
        Some(n)
    } else {
        best
    }
}

/// The search for the smallest enclosing body over the nodes `s`, in order,
/// starting from `init`.
pub open spec fn smallest_in(t: SyntaxTree, s: Seq<int>, row: nat, init: Option<int>) -> Option<int>
    decreases s.len(),
{
    if s.len() == 0 {
        init
    } else {
        smaller_step(t, smallest_in(t, s.drop_last(), row, init), s.last(), row)
    }
}

/// Searching `a + b` is searching `b` from where `a` left off.
pub proof fn lemma_smallest_concat(t: SyntaxTree, a: Seq<int>, b: Seq<int>, row: nat, init: Option<int>)
    ensures
        smallest_in(t, a + b, row, init) == smallest_in(t, b, row, smallest_in(t, a, row, init)),
    decreases b.len(),
{
    if b.len() == 0 {
        assert(a + b =~= a);
    } else {
        assert((a + b).drop_last() =~= a + b.drop_last());
        lemma_smallest_concat(t, a, b.drop_last(), row, init);
    }
}

/// An optional index as an optional integer.
pub open spec fn opt_int(o: Option<usize>) -> Option<int> {
    match o {
        Some(x) => Some(x as int),
        None => None,
    }
}

/// Runs the smallest-body search over the walk of node `i`.
fn smallest_enclosing(t: &SyntaxTree, i: usize, row: usize, best: &mut Option<usize>)
    requires
        t.wf(),
        i < t.nodes.len(),
        *old(best) matches Some(b) ==> b < t.nodes.len(),
    ensures
        opt_int(*final(best)) == smallest_in(*t, lifo_order(*t, i as int), row as nat, opt_int(*old(best))),
        *final(best) matches Some(b) ==> b < t.nodes.len(),
    decreases t.nodes.len() - i,
{
    let n = &t.nodes[i];
    let ghost init = opt_int(*best);
    let ghost kids = lifo_kids(*t, i as int, n.children.len() as int);
    proof {
        assert(t.node_wf(i as int));
        if let Some(b) = *best {
            assert(t.node_wf(b as int));
        }
    }
    let better = match *best {
        Some(b) => n.end_row - n.start_row < t.nodes[b].end_row - t.nodes[b].start_row,
        None => true,
    };
    let kind = n.kind.as_str();
    if (str_contains(kind, "function") || str_contains(kind, "method") || str_contains(kind, "closure")
        || str_eq(kind, "call")) && n.start_row <= row && row <= n.end_row && better {
        *best = Some(i);
    }
    proof {
        reveal_strlit("function");
        reveal_strlit("method");
        reveal_strlit("closure");
        reveal_strlit("call");
        assert(seq![i as int].drop_last() =~= Seq::<int>::empty());
        assert(seq![i as int].last() == i as int);
        assert(smallest_in(*t, Seq::<int>::empty(), row as nat, init) == init);
        assert(smallest_in(*t, seq![i as int], row as nat, init) == smaller_step(*t, init, i as int, row as nat));
        assert(encloses(*t, i as int, row as nat) == (body_kind(n.kind@) && n.start_row <= row <= n.end_row));
        assert(opt_int(*best) == smaller_step(*t, init, i as int, row as nat));
        lemma_smallest_concat(*t, seq![i as int], kids, row as nat, init);
    }
    let mut k: usize = n.children.len();
    while k > 0
        invariant
            t.wf(),
            i < t.nodes.len(),
            n == t.nodes@[i as int],
            k <= n.children.len(),
            kids == lifo_kids(*t, i as int, n.children.len() as int),
            *best matches Some(b) ==> b < t.nodes.len(),
            smallest_in(*t, lifo_order(*t, i as int), row as nat, init)
                == smallest_in(*t, lifo_kids(*t, i as int, k as int), row as nat, opt_int(*best)),
        decreases k,
    {
        proof {
            assert(t.node_wf(i as int));
        }
        let c = n.children[k - 1];
        proof {
            assert(i < n.children@[k - 1] < t.nodes.len());
        }
        let ghost b0 = opt_int(*best);
        let ghost part = match t.named_child(i as int, k - 1) {
            Some(c) => lifo_order(*t, c),
            None => seq![],
        };
        proof {
            lemma_smallest_concat(*t, part, lifo_kids(*t, i as int, k - 1), row as nat, b0);
        }
        if t.nodes[c].is_named {
            smallest_enclosing(t, c, row, best);
        }
        k -= 1;
    }
    proof {
        assert(lifo_kids(*t, i as int, 0) =~= Seq::<int>::empty());
    }
}

/// Whether node `i` or any named descendant is a loop.
pub open spec fn any_loop(t: SyntaxTree, i: int) -> bool
    decreases t.nodes.len() - i, t.nodes@[i].children.len() + 1,
{
    if !(0 <= i < t.nodes.len()) {
        false
    } else {
        loop_kind(t.nodes@[i].kind@) || loop_kids(t, i, 0)
    }
}

/// Whether a named child of `i` from child `k` on has a loop under it.
pub open spec fn loop_kids(t: SyntaxTree, i: int, k: int) -> bool
    decreases t.nodes.len() - i, t.nodes@[i].children.len() - k,
{
    if !(0 <= i < t.nodes.len()) || k < 0 || k >= t.nodes@[i].children.len() {
        false
    } else {
        (match t.named_child(i, k) {
            Some(c) => any_loop(t, c),
            None => false,
        }) || loop_kids(t, i, k + 1)
    }
}

/// Whether the subtree of node `i` holds a loop.
fn has_loop(t: &SyntaxTree, i: usize) -> (b: bool)
    requires
        t.wf(),
        i < t.nodes.len(),
    ensures
        b == any_loop(*t, i as int),
    decreases t.nodes.len() - i,
{
    let n = &t.nodes[i];
    let kind = n.kind.as_str();
    proof {
        reveal_strlit("for_");
        reveal_strlit("for_statement");
        reveal_strlit("for_clause");
        reveal_strlit("while");
        reveal_strlit("loop");
        reveal_strlit("for_in_clause");
    }
    if str_contains(kind, "for_") || str_eq(kind, "for_statement") || str_eq(kind, "for_clause")
        || str_contains(kind, "while") || str_contains(kind, "loop") || str_eq(kind, "for_in_clause") {
        return true;
    }
    let mut k: usize = 0;
    while k < n.children.len()
        invariant
            t.wf(),
            i < t.nodes.len(),
            n == t.nodes@[i as int],
            k <= n.children.len(),
            any_loop(*t, i as int) == loop_kids(*t, i as int, k as int),
        decreases n.children.len() - k,
    {
        proof {
            assert(t.node_wf(i as int));
        }
        let c = n.children[k];
        proof {
            assert(i < n.children@[k as int] < t.nodes.len());
        }
        if t.nodes[c].is_named {
            if has_loop(t, c) {
                return true;
            }
        }
        k += 1;
    }
    false
}

/// Whether the innermost body around `caller_line` (1-based) holds a loop:
/// the smallest function, method, closure or call node spanning the line,
/// the first such in a last-in-first-out walk on ties.
pub fn caller_body_has_loop(t: &SyntaxTree, caller_line: usize) -> (b: bool)
    requires
        t.wf(),
    ensures
        b == match smallest_in(*t, lifo_order(*t, 0), sat_dec(caller_line as nat), None) {
            Some(f) => any_loop(*t, f),
            None => false,
        },
{
    let row = caller_line.saturating_sub(1);
    let mut best: Option<usize> = None;
    smallest_enclosing(t, 0, row, &mut best);
    match best {
        Some(f) => has_loop(t, f),
        None => false,
    }
}

/// Whether the tree is well formed (the check for trees built elsewhere).
pub fn check_tree(t: &SyntaxTree) -> (b: bool)
    ensures
        b == t.wf(),
{
    if t.nodes.len() == 0 {
        return false;
    }
    let mut i: usize = 0;
    while i < t.nodes.len()
        invariant
            i <= t.nodes.len(),
            t.nodes.len() > 0,
            forall|q: int| 0 <= q < i ==> #[trigger] t.node_wf(q),
        decreases t.nodes.len() - i,
    {
        let n = &t.nodes[i];
        if n.fields.len() != n.children.len() {
            proof {
                assert(!t.node_wf(i as int));
            }
            return false;
        }
        match n.parent {
            Some(p) => {
                if p >= i {
                    proof {
                        assert(!t.node_wf(i as int));
                    }
                    return false;
                }
            },
            None => {},
        }
        if !(n.start_row <= n.end_row && n.end_row < usize::MAX) {
            proof {
                assert(!t.node_wf(i as int));
            }
            return false;
        }
        let mut k: usize = 0;
        while k < n.children.len()
            invariant
                k <= n.children.len(),
                i < t.nodes.len(),
                n == t.nodes@[i as int],
                forall|j: int| 0 <= j < k ==> i < #[trigger] n.children@[j] < t.nodes.len(),
            decreases n.children.len() - k,
        {
            let c = n.children[k];
            if !(i < c && c < t.nodes.len()) {
                proof {
                    assert(!t.node_wf(i as int));
                }
                return false;
            }
            k += 1;
        }
        proof {
            assert(t.node_wf(i as int));
        }
        i += 1;
    }
    true
}

} // verus!
