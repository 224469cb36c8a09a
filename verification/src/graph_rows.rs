//! Ordering, de-duplication, paging and row encoding of call-graph edges,
//! and the frequency and hint columns of the ranked form.

use vstd::prelude::*;
use vstd::string::StringExecFns;
use crate::walk::{Edge, EdgeView, EdgeDirection};
use crate::sort::{ViewOrdered, sorted_view, sort_by_view, view_seq};
use crate::rows::{row_of, views, format_row};
use crate::suggest::take_at_most;
use crate::syntax::{SyntaxTree, smallest_in, lifo_order, any_loop, sat_dec, caller_body_has_loop};
use crate::text::{
    seq_lt, seq_three_way, str_three_way, str_eq, decimal, decimal_string, contains_seq, str_contains,
    lowercase, to_lower, match_count, count_matches, chars_of,
};

verus! {

/// Callees sort before callers (the order of their names).
pub open spec fn dir_rank(d: EdgeDirection) -> int {
    match d {
        EdgeDirection::Callee => 0,
        EdgeDirection::Caller => 1,
    }
}

impl ViewOrdered for Edge {
    /// By depth, direction, file, line, symbol, then scope.
    open spec fn view_before(a: EdgeView, b: EdgeView) -> bool {
        if a.depth != b.depth {
            a.depth < b.depth
        } else if a.direction != b.direction {
            dir_rank(a.direction) < dir_rank(b.direction)
        } else if a.file != b.file {
            seq_lt(a.file, b.file)
        } else if a.line != b.line {
            a.line < b.line
        } else if a.symbol != b.symbol {
            seq_lt(a.symbol, b.symbol)
        } else {
            seq_lt(a.scope, b.scope)
        }
    }

    fn is_before(&self, other: &Self) -> (r: bool) {
        proof {
            crate::text::lemma_seq_lt_total(self.file@, other.file@);
            crate::text::lemma_seq_lt_total(self.symbol@, other.symbol@);
            crate::text::lemma_seq_lt_total(self.scope@, other.scope@);
        }
        if self.depth != other.depth {
            return self.depth < other.depth;
        }
        let da: u8 = match self.direction {
            EdgeDirection::Callee => 0,
            EdgeDirection::Caller => 1,
        };
        let db: u8 = match other.direction {
            EdgeDirection::Callee => 0,
            EdgeDirection::Caller => 1,
        };
        if da != db {
            return da < db;
        }
        let f = str_three_way(self.file.as_str(), other.file.as_str());
        if f != 0 {
            return f < 0;
        }
        if self.line != other.line {
            return self.line < other.line;
        }
        let s = str_three_way(self.symbol.as_str(), other.symbol.as_str());
        if s != 0 {
            return s < 0;
        }
        str_three_way(self.scope.as_str(), other.scope.as_str()) < 0
    }
}

/// `s` with each edge equal to the one kept before it dropped.
pub open spec fn dedup_edges(s: Seq<EdgeView>) -> Seq<EdgeView>
    decreases s.len(),
{
    if s.len() == 0 {
        seq![]
    } else {
        let o = dedup_edges(s.drop_last());
        if o.len() == 0 || o.last() != s.last() {
            o.push(s.last())
        } else {
            o
        }
    }
}

/// Whether two edges are equal in every field.
fn same_edge(a: &Edge, b: &Edge) -> (r: bool)
    ensures
        r == (a@ == b@),
{
    a.direction == b.direction && str_eq(a.symbol.as_str(), b.symbol.as_str()) && str_eq(a.file.as_str(), b.file.as_str())
        && a.line == b.line && str_eq(a.scope.as_str(), b.scope.as_str()) && a.depth == b.depth
}

/// A copy of an edge.
pub fn clone_edge(e: &Edge) -> (r: Edge)
    ensures
        r@ == e@,
{
    Edge {
        direction: e.direction,
        symbol: e.symbol.clone(),
        file: e.file.clone(),
        line: e.line,
        scope: e.scope.clone(),
        depth: e.depth,
    }
}

/// Sorts the edges and drops repeats.
pub fn sort_dedup_edges(edges: Vec<Edge>) -> (r: Vec<Edge>)
    ensures
        view_seq(r@) == dedup_edges(sorted_view::<Edge>(view_seq(edges@))),
{
    let sorted = sort_by_view(edges);
    let ghost sv = view_seq(sorted@);
    let mut out: Vec<Edge> = Vec::new();
    let mut i: usize = 0;
    while i < sorted.len()
        invariant
            i <= sorted.len(),
            sv == view_seq(sorted@),
            view_seq(out@) == dedup_edges(sv.take(i as int)),
        decreases sorted.len() - i,
    {
        let e = &sorted[i];
        proof {
            assert(sv.take(i + 1).drop_last() =~= sv.take(i as int));
            assert(sv.take(i + 1).last() == e@);
        }
        let keep = if out.len() == 0 {
            true
        } else {
            !same_edge(&out[out.len() - 1], e)
        };
        let ghost before = view_seq(out@);
        proof {
            if out.len() > 0 {
                assert(before.last() == out@[out.len() - 1]@);
            }
        }
        if keep {
            out.push(clone_edge(e));
            proof {
                assert(view_seq(out@) =~= before.push(e@));
            }
        }
        i += 1;
    }
    proof {
        assert(sv.take(i as int) =~= sv);
    }
    out
}

/// The page of `s` from `offset`, at most `limit` long when a limit is given.
pub open spec fn page<T>(s: Seq<T>, offset: nat, limit: Option<nat>) -> Seq<T> {
    let rest = if offset <= s.len() { s.skip(offset as int) } else { seq![] };
    match limit {
        Some(n) => take_at_most(rest, n),
        None => rest,
    }
}

/// A limit as a plain number.
pub open spec fn opt_nat(o: Option<usize>) -> Option<nat> {
    match o {
        Some(n) => Some(n as nat),
        None => None,
    }
}

/// Keeps the page of `v` from `offset`, at most `limit` long.
pub fn page_edges(v: &Vec<Edge>, offset: usize, limit: Option<usize>) -> (r: Vec<Edge>)
    ensures
        view_seq(r@) == page(view_seq(v@), offset as nat, opt_nat(limit)),
{
    let ghost vs = view_seq(v@);
    let mut out: Vec<Edge> = Vec::new();
    if offset >= v.len() {
        proof {
            let rest = if offset <= vs.len() { vs.skip(offset as int) } else { Seq::<EdgeView>::empty() };
            assert(rest =~= Seq::<EdgeView>::empty());
            if let Some(l) = limit {
                assert(take_at_most(rest, l as nat) =~= Seq::<EdgeView>::empty());
            }
        }
        return out;
    }
    let end = match limit {
        Some(l) => if l < v.len() - offset { offset + l } else { v.len() },
        None => v.len(),
    };
    let mut i: usize = offset;
    while i < end
        invariant
            offset <= i <= end,
            end <= v.len(),
            vs == view_seq(v@),
            view_seq(out@) == vs.subrange(offset as int, i as int),
        decreases end - i,
    {
        let ghost before = view_seq(out@);
        out.push(clone_edge(&v[i]));
        proof {
            assert(view_seq(out@) =~= before.push(v@[i as int]@));
            assert(vs.subrange(offset as int, i + 1) =~= vs.subrange(offset as int, i as int).push(vs[i as int]));
        }
        i += 1;
    }
    proof {
        let rest = vs.skip(offset as int);
        match limit {
            Some(l) => {
                assert(take_at_most(rest, l as nat) =~= vs.subrange(offset as int, end as int));
            },
            None => {
                assert(rest =~= vs.subrange(offset as int, end as int));
            },
        }
    }
    out
}

/// The name of a direction.
pub open spec fn dir_text(d: EdgeDirection) -> Seq<char> {
    match d {
        EdgeDirection::Callee => "callee"@,
        EdgeDirection::Caller => "caller"@,
    }
}

/// The fields of an edge row: direction, symbol, file, line, scope, depth.
pub open spec fn edge_fields(e: EdgeView) -> Seq<Seq<char>> {
    seq![dir_text(e.direction), e.symbol, e.file, decimal(e.line), e.scope, decimal(e.depth)]
}

/// The name of a direction, as a new string.
pub fn dir_string(d: EdgeDirection) -> (s: String)
    ensures
        s@ == dir_text(d),
{
    match d {
        EdgeDirection::Callee => String::from_str("callee"),
        EdgeDirection::Caller => String::from_str("caller"),
    }
}

/// The row of one edge.
pub fn edge_row(e: &Edge) -> (r: String)
    ensures
        r@ == row_of(edge_fields(e@)),
{
    let mut fields: Vec<String> = Vec::new();
    fields.push(dir_string(e.direction));
    fields.push(e.symbol.clone());
    fields.push(e.file.clone());
    fields.push(decimal_string(e.line));
    fields.push(e.scope.clone());
    fields.push(decimal_string(e.depth));
    proof {
        assert(views(fields@) =~= edge_fields(e@));
    }
    format_row(&fields)
}

/// One row per edge.
pub fn edge_rows(edges: &Vec<Edge>) -> (r: Vec<String>)
    ensures
        views(r@) == view_seq(edges@).map_values(|e: EdgeView| row_of(edge_fields(e))),
{
    let mut out: Vec<String> = Vec::new();
    let mut i: usize = 0;
    while i < edges.len()
        invariant
            i <= edges.len(),
            views(out@) == view_seq(edges@).take(i as int).map_values(|e: EdgeView| row_of(edge_fields(e))),
        decreases edges.len() - i,
    {
        let r = edge_row(&edges[i]);
        let ghost before = out@;
        out.push(r);
        proof {
            assert(view_seq(edges@).take(i + 1) =~= view_seq(edges@).take(i as int).push(edges@[i as int]@));
            assert(views(out@) =~= views(before).push(r@));
        }
        i += 1;
    }
    proof {
        assert(view_seq(edges@).take(edges.len() as int) =~= view_seq(edges@));
    }
    out
}

/// A file an edge points at, as read for ranking.
pub struct RankSource {
    pub source: String,
    /// Whether the file's language is one the parser knows.
    pub language_known: bool,
    /// The tree, when the language is known and the file parsed.
    pub tree: Option<SyntaxTree>,
}

/// The readable file behind an edge's reported path, if any.
pub struct RankFile {
    pub rel: String,
    pub source: Option<RankSource>,
}

/// Trees held for ranking are well formed.
pub open spec fn rank_files_wf(files: Seq<RankFile>) -> bool {
    forall|k: int| 0 <= k < files.len() ==> (#[trigger] files[k].source matches Some(s) ==> (s.tree matches Some(t) ==> t.wf()))
}

/// The source read for `file`: the first entry reported under that path.
pub open spec fn rank_source_for(files: Seq<RankFile>, file: Seq<char>) -> Option<RankSource> {
    match crate::text::first_at(files.len(), |k: int| files[k].rel@ == file) {
        Some(k) => files[k].source,
        None => None,
    }
}

/// The name or scope looks like a signal, slot or callback.
pub open spec fn signal_hint(name: Seq<char>, scope: Seq<char>) -> bool {
    contains_seq(name, "on_"@) || contains_seq(name, "signal"@) || contains_seq(name, "slot"@)
        || contains_seq(name, "connect"@) || contains_seq(name, "emit"@) || contains_seq(name, "callback"@)
        || contains_seq(scope, "signal"@)
}

/// The name looks like a constructor.
pub open spec fn ctor_hint(name: Seq<char>) -> bool {
    name == "new"@ || contains_seq(name, "ctor"@) || contains_seq(name, "__init__"@) || contains_seq(name, "constructor"@)
}

/// The name or scope looks like threading or async work.
pub open spec fn thread_hint(name: Seq<char>, scope: Seq<char>) -> bool {
    contains_seq(name, "thread"@) || contains_seq(name, "spawn"@) || contains_seq(name, "async"@)
        || contains_seq(name, "task"@) || contains_seq(scope, "thread"@)
}

/// Whether the innermost body around `line` holds a loop.
pub open spec fn body_loops(t: SyntaxTree, line: nat) -> bool {
    match smallest_in(t, lifo_order(t, 0), sat_dec(line), None) {
        Some(f) => any_loop(t, f),
        None => false,
    }
}

/// Whether the caller's body loops: from its tree when the language is
/// known, else from loop keywords anywhere in the file.
pub open spec fn loop_hint(src: Option<RankSource>, line: nat) -> bool {
    match src {
        Some(s) => if s.language_known {
            match s.tree {
                Some(t) => body_loops(t, line),
                None => false,
            }
        } else {
            contains_seq(s.source@, "for "@) || contains_seq(s.source@, "while "@) || contains_seq(s.source@, "loop "@)
        },
        None => false,
    }
}

/// How often the target's name occurs in the caller's file, at least 1.
pub open spec fn freq_of(src: Option<RankSource>, target: Seq<char>) -> nat {
    match src {
        Some(s) => {
            let c = match_count(s.source@, target);
            let c = if c < usize::MAX { c } else { usize::MAX as nat };
            if c == 0 { 1 } else { c }
        },
        None => 1,
    }
}

/// The hints that hold, in sorted order.
pub open spec fn hint_list(name: Seq<char>, scope: Seq<char>, looping: bool) -> Seq<Seq<char>> {
    (if ctor_hint(name) { seq!["ctor"@] } else { seq![] })
        + (if looping { seq!["loop"@] } else { seq![] })
        + (if signal_hint(name, scope) { seq!["signal"@] } else { seq![] })
        + (if thread_hint(name, scope) { seq!["thread"@] } else { seq![] })
}

/// Which hints a caller gets: `ctor` for a name that is `new` or holds
/// `ctor`, `__init__` or `constructor`; `loop` when its body loops;
/// `signal` for a name holding `on_`, `signal`, `slot`, `connect`, `emit`
/// or `callback`, or a scope holding `signal`; `thread` for a name holding
/// `thread`, `spawn`, `async` or `task`, or a scope holding `thread`; and
/// no hint outside these four.
pub proof fn law_caller_hints(name: Seq<char>, scope: Seq<char>, looping: bool)
    ensures
        (name == "new"@ || contains_seq(name, "ctor"@) || contains_seq(name, "__init__"@)
            || contains_seq(name, "constructor"@)) ==> hint_list(name, scope, looping).contains("ctor"@),
        looping ==> hint_list(name, scope, looping).contains("loop"@),
        (contains_seq(name, "on_"@) || contains_seq(name, "signal"@) || contains_seq(name, "slot"@)
            || contains_seq(name, "connect"@) || contains_seq(name, "emit"@) || contains_seq(name, "callback"@)
            || contains_seq(scope, "signal"@)) ==> hint_list(name, scope, looping).contains("signal"@),
        (contains_seq(name, "thread"@) || contains_seq(name, "spawn"@) || contains_seq(name, "async"@)
            || contains_seq(name, "task"@) || contains_seq(scope, "thread"@))
            ==> hint_list(name, scope, looping).contains("thread"@),
        forall|h: Seq<char>| #[trigger] hint_list(name, scope, looping).contains(h)
            ==> h == "ctor"@ || h == "loop"@ || h == "signal"@ || h == "thread"@,
{
    let a: Seq<Seq<char>> = if ctor_hint(name) { seq!["ctor"@] } else { seq![] };
    let b: Seq<Seq<char>> = if looping { seq!["loop"@] } else { seq![] };
    let c: Seq<Seq<char>> = if signal_hint(name, scope) { seq!["signal"@] } else { seq![] };
    let d: Seq<Seq<char>> = if thread_hint(name, scope) { seq!["thread"@] } else { seq![] };
    let r = hint_list(name, scope, looping);
    assert(r == a + b + c + d);
    if ctor_hint(name) {
        assert(r[0] == "ctor"@);
    }
    if looping {
        assert(r[a.len() as int] == "loop"@);
    }
    if signal_hint(name, scope) {
        assert(r[(a.len() + b.len()) as int] == "signal"@);
    }
    if thread_hint(name, scope) {
        assert(r[(a.len() + b.len() + c.len()) as int] == "thread"@);
    }
    assert forall|h: Seq<char>| #[trigger] r.contains(h) implies h == "ctor"@ || h == "loop"@ || h == "signal"@
        || h == "thread"@ by {
        let w = choose|w: int| 0 <= w < r.len() && r[w] == h;
        if w < a.len() {
            assert(h == a[w]);
        } else if w < a.len() + b.len() {
            assert(h == b[w - a.len()]);
        } else if w < a.len() + b.len() + c.len() {
            assert(h == c[w - a.len() - b.len()]);
        } else {
            assert(h == d[w - a.len() - b.len() - c.len()]);
        }
    }
}

/// The hints column of a caller edge: the sorted hints joined by commas.
pub open spec fn hints_text(e: EdgeView, src: Option<RankSource>) -> Seq<char> {
    crate::rows::join_with(hint_list(lowercase(e.symbol), lowercase(e.scope), loop_hint(src, e.line)), seq![','])
}

/// The source read for `file`.
pub fn find_rank_source<'a>(files: &'a Vec<RankFile>, file: &str) -> (r: Option<&'a RankSource>)
    ensures
        match rank_source_for(files@, file@) {
            Some(s) => r == Some(&s),
            None => r is None,
        },
{
    let ghost p = |k: int| files@[k].rel@ == file@;
    let mut k: usize = 0;
    while k < files.len()
        invariant
            k <= files.len(),
            p == (|k: int| files@[k].rel@ == file@),
            crate::text::first_at(k as nat, p) is None,
        decreases files.len() - k,
    {
        if str_eq(files[k].rel.as_str(), file) {
            proof {
                assert(p(k as int));
                crate::text::lemma_first_at_extend((k + 1) as nat, files.len() as nat, p);
            }
            return match &files[k].source {
                Some(s) => Some(s),
                None => None,
            };
        }
        k += 1;
    }
    None
}

/// Whether `s` contains `w`.
fn has(s: &str, w: &str) -> (b: bool)
    ensures
        b == contains_seq(s@, w@),
{
    str_contains(s, w)
}

/// Frequency and hints of a caller edge.
pub fn caller_freq_hints(e: &Edge, target_name: &str, src: Option<&RankSource>) -> (r: (usize, String))
    requires
        src matches Some(s) ==> (s.tree matches Some(t) ==> t.wf()),
    ensures
        r.0 == freq_of(match src { Some(s) => Some(*s), None => None }, target_name@),
        r.1@ == hints_text(e@, match src { Some(s) => Some(*s), None => None }),
{
    let ghost so: Option<RankSource> = match src { Some(s) => Some(*s), None => None };
    let name = to_lower(e.symbol.as_str());
    let scope = to_lower(e.scope.as_str());
    let n = name.as_str();
    let sc = scope.as_str();
    let signal = has(n, "on_") || has(n, "signal") || has(n, "slot") || has(n, "connect") || has(n, "emit")
        || has(n, "callback") || has(sc, "signal");
    let ctor = str_eq(n, "new") || has(n, "ctor") || has(n, "__init__") || has(n, "constructor");
    let thread = has(n, "thread") || has(n, "spawn") || has(n, "async") || has(n, "task") || has(sc, "thread");
    let mut freq: usize = 1;
    let mut looping = false;
    match src {
        Some(s) => {
            let hay = chars_of(s.source.as_str());
            let needle = chars_of(target_name);
            let c = count_matches(&hay, &needle);
            freq = if c == 0 { 1 } else { c };
            if s.language_known {
                match &s.tree {
                    Some(t) => {
                        looping = caller_body_has_loop(t, e.line);
                    },
                    None => {},
                }
            } else {
                let src_text = s.source.as_str();
                looping = has(src_text, "for ") || has(src_text, "while ") || has(src_text, "loop ");
            }
        },
        None => {},
    }
    let mut hints: Vec<String> = Vec::new();
    if ctor {
        hints.push(String::from_str("ctor"));
    }
    if looping {
        hints.push(String::from_str("loop"));
    }
    if signal {
        hints.push(String::from_str("signal"));
    }
    if thread {
        hints.push(String::from_str("thread"));
    }
    proof {
        assert(views(hints@) =~= hint_list(lowercase(e.symbol@), lowercase(e.scope@), loop_hint(so, e.line as nat)));
    }
    let text = crate::rows::join_strings(&hints, ",");
    proof {
        reveal_strlit(",");
        assert(","@ =~= seq![',']);
    }
    (freq, text)
}

/// Where the page of a sequence of `len` items starts and ends.
pub fn page_bounds<T>(len: usize, offset: usize, limit: Option<usize>) -> (r: (usize, usize))
    ensures
        r.0 <= r.1 <= len,
        forall|s: Seq<T>| s.len() == len ==> page(s, offset as nat, opt_nat(limit)) == s.subrange(r.0 as int, r.1 as int),
{
    if offset >= len {
        proof {
            assert forall|s: Seq<T>| s.len() == len implies page(s, offset as nat, opt_nat(limit)) == s.subrange(len as int, len as int) by {
                let rest = if offset <= s.len() { s.skip(offset as int) } else { Seq::<T>::empty() };
                assert(rest =~= Seq::<T>::empty());
                assert(s.subrange(len as int, len as int) =~= Seq::<T>::empty());
                if let Some(l) = limit {
                    assert(take_at_most(rest, l as nat) =~= Seq::<T>::empty());
                }
            }
        }
        return (len, len);
    }
    let end = match limit {
        Some(l) => if l < len - offset { offset + l } else { len },
        None => len,
    };
    proof {
        assert forall|s: Seq<T>| s.len() == len implies page(s, offset as nat, opt_nat(limit)) == s.subrange(offset as int, end as int) by {
            let rest = s.skip(offset as int);
            match limit {
                Some(l) => {
                    assert(take_at_most(rest, l as nat) =~= s.subrange(offset as int, end as int));
                },
                None => {
                    assert(rest =~= s.subrange(offset as int, end as int));
                },
            }
        }
    }
    (offset, end)
}

} // verus!
