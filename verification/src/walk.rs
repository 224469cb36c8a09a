//! Breadth-first walks of the call graph: callees found by resolving the
//! names a body calls, callers found by the bodies around call sites, each
//! walked level by level up to a depth, visiting every (file, line) once.

use vstd::prelude::*;
use crate::call_graph::{
    SymbolDef, DefView, def_views, resolve_index, resolve_index_of, containing_index,
    definition_containing_line, path_eq, same_path, lemma_containing_index_range,
};
use crate::syntax::{
    SyntaxTree, Language, called_in, call_sites_in, sat_dec, collect_called_names,
    collect_call_sites, line_nats,
};
use crate::sort::{ViewOrdered, sorted_view, sort_by_view, view_seq};
use crate::paths::{path_order, compare_paths};
use crate::text::{first_at, lemma_first_at, lemma_first_at_extend, seq_lt, seq_three_way, str_three_way, str_eq};

verus! {

/// A project file that parsed, with its tree.
pub struct ParsedSource {
    pub path: String,
    pub language: Language,
    pub tree: SyntaxTree,
}

/// Index of the first parsed source whose path is `file`.
pub open spec fn source_of(sources: Seq<ParsedSource>, file: Seq<char>) -> Option<int> {
    first_at(sources.len(), |k: int| path_eq(sources[k].path@, file))
}

/// Every tree is well formed.
pub open spec fn trees_wf(sources: Seq<ParsedSource>) -> bool {
    forall|k: int| 0 <= k < sources.len() ==> #[trigger] sources[k].tree.wf()
}

/// Every definition's file has a parsed source.
pub open spec fn covered(defs: Seq<DefView>, sources: Seq<ParsedSource>) -> bool {
    forall|i: int| 0 <= i < defs.len() ==> #[trigger] source_of(sources, defs[i].file) is Some
}

/// The parsed source of `file`.
pub fn find_source(sources: &Vec<ParsedSource>, file: &str) -> (r: Option<usize>)
    ensures
        match source_of(sources@, file@) {
            Some(k) => r == Some(k as usize),
            None => r is None,
        },
{
    let ghost p = |k: int| path_eq(sources@[k].path@, file@);
    let mut k: usize = 0;
    while k < sources.len()
        invariant
            k <= sources.len(),
            p == (|k: int| path_eq(sources@[k].path@, file@)),
            first_at(k as nat, p) is None,
        decreases sources.len() - k,
    {
        if same_path(sources[k].path.as_str(), file) {
            proof {
                assert(p(k as int));
                lemma_first_at_extend((k + 1) as nat, sources.len() as nat, p);
            }
            return Some(k);
        }
        k += 1;
    }
    None
}

/// Names called inside the span of definition `d`, from its file's tree.
pub open spec fn def_calls(sources: Seq<ParsedSource>, d: DefView) -> Seq<Seq<char>> {
    match source_of(sources, d.file) {
        Some(s) => called_in(sources[s].tree, 0, sources[s].language, sat_dec(d.line), sat_dec(d.end_line)),
        None => seq![],
    }
}

/// The definitions `names` resolve to from `file`, in order, unresolved ones dropped.
pub open spec fn resolved(defs: Seq<DefView>, names: Seq<Seq<char>>, file: Seq<char>) -> Seq<int>
    decreases names.len(),
{
    if names.len() == 0 {
        seq![]
    } else {
        resolved(defs, names.drop_last(), file) + match resolve_index(defs, names.last(), file) {
            Some(c) => seq![c],
            None => seq![],
        }
    }
}

/// Definitions called by definition `x`.
pub open spec fn callee_targets(defs: Seq<DefView>, sources: Seq<ParsedSource>, x: int) -> Seq<int> {
    resolved(defs, def_calls(sources, defs[x]), defs[x].file)
}

/// The sort key of a caller: its file, line and name, then its index.
pub struct CallerKey {
    pub file: String,
    pub line: usize,
    pub name: String,
    pub index: usize,
}

/// The plain values of a caller key.
pub struct CallerKeyView {
    pub file: Seq<char>,
    pub line: nat,
    pub name: Seq<char>,
    pub index: int,
}

impl View for CallerKey {
    type V = CallerKeyView;

    open spec fn view(&self) -> CallerKeyView {
        CallerKeyView { file: self.file@, line: self.line as nat, name: self.name@, index: self.index as int }
    }
}

impl ViewOrdered for CallerKey {
    /// By file (as paths order), then line, then name.
    open spec fn view_before(a: CallerKeyView, b: CallerKeyView) -> bool {
        path_order(a.file, b.file) < 0 || (path_order(a.file, b.file) == 0 && (a.line < b.line
            || (a.line == b.line && seq_lt(a.name, b.name))))
    }

    fn is_before(&self, other: &Self) -> (r: bool) {
        proof {
            crate::text::lemma_seq_lt_total(self.name@, other.name@);
        }
        let c = compare_paths(self.file.as_str(), other.file.as_str());
        if c < 0 {
            true
        } else if c > 0 {
            false
        } else if self.line != other.line {
            self.line < other.line
        } else {
            str_three_way(self.name.as_str(), other.name.as_str()) < 0
        }
    }
}

/// The key of definition `i`.
pub open spec fn key_of(defs: Seq<DefView>, i: int) -> CallerKeyView {
    CallerKeyView { file: defs[i].file, line: defs[i].line, name: defs[i].name, index: i }
}

/// Definitions around the given call lines of `file`, line by line.
pub open spec fn around_lines(defs: Seq<DefView>, file: Seq<char>, lines: Seq<nat>) -> Seq<int>
    decreases lines.len(),
{
    if lines.len() == 0 {
        seq![]
    } else {
        around_lines(defs, file, lines.drop_last()) + match containing_index(defs, file, lines.last()) {
            Some(c) => seq![c],
            None => seq![],
        }
    }
}

/// Definitions around every call of `name` in the first `m` sources.
pub open spec fn raw_callers(defs: Seq<DefView>, sources: Seq<ParsedSource>, name: Seq<char>, m: int) -> Seq<int>
    decreases m,
{
    if m <= 0 || m > sources.len() {
        seq![]
    } else {
        let s = sources[m - 1];
        raw_callers(defs, sources, name, m - 1)
            + around_lines(defs, s.path@, call_sites_in(s.tree, 0, s.language, name))
    }
}

/// Two keys name the same caller: same file, line and name.
pub open spec fn same_caller(a: CallerKeyView, b: CallerKeyView) -> bool {
    path_eq(a.file, b.file) && a.line == b.line && a.name == b.name
}

/// `s` with every key that repeats the last kept one dropped.
pub open spec fn dedup_callers(s: Seq<CallerKeyView>) -> Seq<CallerKeyView>
    decreases s.len(),
{
    if s.len() == 0 {
        seq![]
    } else {
        let o = dedup_callers(s.drop_last());
        if o.len() == 0 || !same_caller(o.last(), s.last()) {
            o.push(s.last())
        } else {
            o
        }
    }
}

/// The callers of `name`: the definitions around its call sites, sorted by
/// file, line and name, with repeats dropped.
pub open spec fn callers_of(defs: Seq<DefView>, sources: Seq<ParsedSource>, name: Seq<char>) -> Seq<int> {
    dedup_callers(sorted_view::<CallerKey>(
        raw_callers(defs, sources, name, sources.len() as int).map_values(|i: int| key_of(defs, i)),
    )).map_values(|k: CallerKeyView| k.index)
}

/// Which way an edge points from the symbol.
#[derive(PartialEq, Eq, Structural, Clone, Copy, Debug)]
pub enum EdgeDirection {
    Callee,
    Caller,
}

/// One row of the call graph.
pub struct Edge {
    pub direction: EdgeDirection,
    pub symbol: String,
    pub file: String,
    pub line: usize,
    pub scope: String,
    pub depth: usize,
}

/// The plain values of an edge.
pub struct EdgeView {
    pub direction: EdgeDirection,
    pub symbol: Seq<char>,
    pub file: Seq<char>,
    pub line: nat,
    pub scope: Seq<char>,
    pub depth: nat,
}

impl View for Edge {
    type V = EdgeView;

    open spec fn view(&self) -> EdgeView {
        EdgeView {
            direction: self.direction,
            symbol: self.symbol@,
            file: self.file@,
            line: self.line as nat,
            scope: self.scope@,
            depth: self.depth as nat,
        }
    }
}

/// The edge to definition `d` at `depth`.
pub open spec fn edge_of(direction: EdgeDirection, d: DefView, depth: nat) -> EdgeView {
    EdgeView { direction, symbol: d.name, file: d.rel_file, line: d.line, scope: d.scope, depth }
}

/// The edge to `definition` at `depth`.
pub fn edge(direction: EdgeDirection, definition: &SymbolDef, depth: usize) -> (e: Edge)
    ensures
        e@ == edge_of(direction, definition@, depth as nat),
{
    Edge {
        direction,
        symbol: definition.name.clone(),
        file: definition.rel_file.clone(),
        line: definition.line,
        scope: definition.scope.clone(),
        depth,
    }
}

/// Where one step of a walk leads from definition `x`.
pub open spec fn step_targets(defs: Seq<DefView>, sources: Seq<ParsedSource>, dir: EdgeDirection, x: int) -> Seq<int> {
    match dir {
        EdgeDirection::Callee => callee_targets(defs, sources, x),
        EdgeDirection::Caller => callers_of(defs, sources, defs[x].name),
    }
}

/// The (file, line) key a walk visits a definition under.
pub open spec fn visit_key(d: DefView) -> (Seq<char>, nat) {
    (d.file, d.line)
}

/// Definition `d` was visited already.
pub open spec fn key_seen(seen: Seq<(Seq<char>, nat)>, d: DefView) -> bool {
    exists|k: int| 0 <= k < seen.len() && path_eq(seen[k].0, d.file) && seen[k].1 == d.line
}

/// The definitions of `queue` a level processes: those whose key was not
/// visited before, nor by an earlier entry of the queue.
pub open spec fn fresh(defs: Seq<DefView>, queue: Seq<int>, seen: Seq<(Seq<char>, nat)>) -> Seq<int>
    decreases queue.len(),
{
    if queue.len() == 0 {
        seq![]
    } else if key_seen(seen, defs[queue[0]]) {
        fresh(defs, queue.drop_first(), seen)
    } else {
        seq![queue[0]] + fresh(defs, queue.drop_first(), seen.push(visit_key(defs[queue[0]])))
    }
}

/// The keys of processed definitions.
pub open spec fn keys_of(defs: Seq<DefView>, p: Seq<int>) -> Seq<(Seq<char>, nat)> {
    p.map_values(|i: int| visit_key(defs[i]))
}

/// The edges a level emits: for each processed definition, one edge per target.
pub open spec fn level_edges(defs: Seq<DefView>, sources: Seq<ParsedSource>, dir: EdgeDirection, p: Seq<int>, depth: nat) -> Seq<EdgeView>
    decreases p.len(),
{
    if p.len() == 0 {
        seq![]
    } else {
        level_edges(defs, sources, dir, p.drop_last(), depth)
            + step_targets(defs, sources, dir, p.last()).map_values(|c: int| edge_of(dir, defs[c], depth))
    }
}

/// The queue of the next level: every target of the processed definitions.
pub open spec fn level_next(defs: Seq<DefView>, sources: Seq<ParsedSource>, dir: EdgeDirection, p: Seq<int>) -> Seq<int>
    decreases p.len(),
{
    if p.len() == 0 {
        seq![]
    } else {
        level_next(defs, sources, dir, p.drop_last()) + step_targets(defs, sources, dir, p.last())
    }
}

/// The edges a breadth-first walk emits from `queue` at `depth`, down to
/// `max` levels.
pub open spec fn walk(
    defs: Seq<DefView>,
    sources: Seq<ParsedSource>,
    dir: EdgeDirection,
    queue: Seq<int>,
    seen: Seq<(Seq<char>, nat)>,
    depth: nat,
    max: nat,
) -> Seq<EdgeView>
    decreases max + 1 - depth,
{
    if depth > max || queue.len() == 0 {
        seq![]
    } else {
        let p = fresh(defs, queue, seen);
        level_edges(defs, sources, dir, p, depth)
            + walk(defs, sources, dir, level_next(defs, sources, dir, p), seen + keys_of(defs, p), depth + 1, max)
    }
}

/// Indices as integers.
pub open spec fn idx_ints(v: Seq<usize>) -> Seq<int> {
    v.map_values(|x: usize| x as int)
}

/// Definitions called by definition `x`, resolved from its file.
pub fn callees_of(defs: &Vec<SymbolDef>, sources: &Vec<ParsedSource>, x: usize) -> (r: Vec<usize>)
    requires
        x < defs.len(),
        trees_wf(sources@),
        covered(def_views(defs@), sources@),
    ensures
        idx_ints(r@) == callee_targets(def_views(defs@), sources@, x as int),
        forall|k: int| 0 <= k < r.len() ==> r@[k] < defs.len(),
{
    let ghost dv = def_views(defs@);
    let d = &defs[x];
    proof {
        assert(dv[x as int] == d@);
        assert(source_of(sources@, dv[x as int].file) is Some);
    }
    let s = match find_source(sources, d.file.as_str()) {
        Some(s) => s,
        None => {
            return Vec::new();
        },
    };
    proof {
        lemma_first_at(sources.len() as nat, |k: int| path_eq(sources@[k].path@, d.file@));
        assert(sources@[s as int].tree.wf());
    }
    let src = &sources[s];
    let names = collect_called_names(&src.tree, src.language, d.line, d.end_line);
    let ghost ns = crate::rows::views(names@);
    proof {
        assert(ns == def_calls(sources@, d@));
    }
    let mut out: Vec<usize> = Vec::new();
    let mut j: usize = 0;
    while j < names.len()
        invariant
            j <= names.len(),
            dv == def_views(defs@),
            ns == crate::rows::views(names@),
            idx_ints(out@) == resolved(dv, ns.take(j as int), d.file@),
            forall|k: int| 0 <= k < out.len() ==> out@[k] < defs.len(),
        decreases names.len() - j,
    {
        let ghost before = out@;
        proof {
            assert(ns.take(j + 1).drop_last() =~= ns.take(j as int));
            assert(ns.take(j + 1).last() == names@[j as int]@);
            lemma_first_at(dv.len(), crate::call_graph::named_in(dv, crate::call_graph::def_files(dv), d.file@, names@[j as int]@));
            lemma_first_at(dv.len(), crate::call_graph::named(dv, names@[j as int]@));
        }
        let ghost ri = resolve_index(dv, names@[j as int]@, d.file@);
        proof {
            assert(resolved(dv, ns.take(j + 1), d.file@) == resolved(dv, ns.take(j as int), d.file@) + match ri {
                Some(c) => seq![c],
                None => Seq::<int>::empty(),
            });
            assert(dv.len() == defs.len());
            if let Some(k) = ri {
                assert(0 <= k < defs.len());
            }
        }
        match resolve_index_of(defs, names[j].as_str(), d.file.as_str()) {
            Some(c) => {
                out.push(c);
                proof {
                    assert(ri == Some(c as int));
                    assert(idx_ints(out@) =~= idx_ints(before).push(c as int));
                }
            },
            None => {
                proof {
                    assert(resolved(dv, ns.take(j as int), d.file@) + Seq::<int>::empty() =~= resolved(dv, ns.take(j as int), d.file@));
                }
            },
        }
        j += 1;
    }
    proof {
        assert(ns.take(names.len() as int) =~= ns);
    }
    out
}

/// The keys of the given definitions.
pub open spec fn keys_for(defs: Seq<DefView>, s: Seq<int>) -> Seq<CallerKeyView> {
    s.map_values(|i: int| key_of(defs, i))
}

/// Whether two caller keys name the same caller.
fn same_caller_key(a: &CallerKey, b: &CallerKey) -> (r: bool)
    ensures
        r == same_caller(a@, b@),
{
    same_path(a.file.as_str(), b.file.as_str()) && a.line == b.line && str_eq(a.name.as_str(), b.name.as_str())
}

/// The callers of `name`, by index, sorted by file, line and name, without repeats.
pub fn callers_for_symbol(defs: &Vec<SymbolDef>, sources: &Vec<ParsedSource>, name: &str) -> (r: Vec<usize>)
    requires
        trees_wf(sources@),
    ensures
        idx_ints(r@) == callers_of(def_views(defs@), sources@, name@),
        forall|k: int| 0 <= k < r.len() ==> r@[k] < defs.len(),
{
    let ghost dv = def_views(defs@);
    let mut keys: Vec<CallerKey> = Vec::new();
    let mut k: usize = 0;
    proof {
        assert(view_seq(keys@) =~= keys_for(dv, raw_callers(dv, sources@, name@, 0)));
    }
    while k < sources.len()
        invariant
            k <= sources.len(),
            dv == def_views(defs@),
            trees_wf(sources@),
            view_seq(keys@) == keys_for(dv, raw_callers(dv, sources@, name@, k as int)),
            forall|q: int| 0 <= q < keys.len() ==> #[trigger] keys@[q].index < defs.len(),
        decreases sources.len() - k,
    {
        let src = &sources[k];
        proof {
            assert(src.tree.wf());
        }
        let lines = collect_call_sites(&src.tree, src.language, name);
        let ghost ls = line_nats(lines@);
        let ghost base = raw_callers(dv, sources@, name@, k as int);
        let mut j: usize = 0;
        proof {
            assert(around_lines(dv, src.path@, ls.take(0)) =~= Seq::<int>::empty());
            assert(base + Seq::<int>::empty() =~= base);
        }
        while j < lines.len()
            invariant
                j <= lines.len(),
                dv == def_views(defs@),
                ls == line_nats(lines@),
                view_seq(keys@) == keys_for(dv, base + around_lines(dv, src.path@, ls.take(j as int))),
                forall|q: int| 0 <= q < keys.len() ==> #[trigger] keys@[q].index < defs.len(),
            decreases lines.len() - j,
        {
            let ghost before = keys@;
            let ghost ci = containing_index(dv, src.path@, lines@[j as int] as nat);
            proof {
                assert(ls.take(j + 1).drop_last() =~= ls.take(j as int));
                assert(ls.take(j + 1).last() == lines@[j as int] as nat);
                lemma_containing_index_range(dv, src.path@, lines@[j as int] as nat);
                assert(dv.len() == defs.len());
            }
            match definition_containing_line(defs, src.path.as_str(), lines[j]) {
                Some(c) => {
                    let key = CallerKey {
                        file: defs[c].file.clone(),
                        line: defs[c].line,
                        name: defs[c].name.clone(),
                        index: c,
                    };
                    keys.push(key);
                    proof {
                        assert(ci == Some(c as int));
                        assert(dv[c as int] == defs@[c as int]@);
                        assert(keys@.last()@ == key_of(dv, c as int));
                        assert(around_lines(dv, src.path@, ls.take(j + 1)) == around_lines(dv, src.path@, ls.take(j as int)) + seq![c as int]);
                        assert(base + around_lines(dv, src.path@, ls.take(j + 1)) =~= (base + around_lines(dv, src.path@, ls.take(j as int))).push(c as int));
                        let xs = base + around_lines(dv, src.path@, ls.take(j as int));
                        assert(view_seq(keys@) =~= view_seq(before).push(key_of(dv, c as int)));
                        assert(keys_for(dv, xs.push(c as int)) =~= keys_for(dv, xs).push(key_of(dv, c as int)));
                        assert(view_seq(keys@) =~= keys_for(dv, base + around_lines(dv, src.path@, ls.take(j + 1))));
                    }
                },
                None => {
                    proof {
                        assert(around_lines(dv, src.path@, ls.take(j + 1)) =~= around_lines(dv, src.path@, ls.take(j as int)));
                    }
                },
            }
            j += 1;
        }
        proof {
            assert(ls.take(lines.len() as int) =~= ls);
            assert(raw_callers(dv, sources@, name@, k + 1) == base + around_lines(dv, src.path@, call_sites_in(src.tree, 0, src.language, name@)));
        }
        k += 1;
    }
    let ghost raw = view_seq(keys@);
    let ghost raw_keys = keys@;
    let sorted = sort_by_view(keys);
    let ghost sv = view_seq(sorted@);
    proof {
        assert(sorted_view::<CallerKey>(raw).len() == raw.len()) by {
            crate::sort::lemma_sorted_view_members::<CallerKey>(raw);
        }
        assert forall|q: int| 0 <= q < sorted.len() implies #[trigger] sorted@[q].index < defs.len() by {
            crate::sort::lemma_sorted_view_members::<CallerKey>(raw);
            assert(sv[q] == sorted@[q]@);
            let w = choose|w: int| 0 <= w < raw.len() && raw[w] == sv[q];
            assert(raw[w] == raw_keys[w]@);
        }
    }
    let mut kept: Vec<usize> = Vec::new();
    let mut i: usize = 0;
    while i < sorted.len()
        invariant
            i <= sorted.len(),
            sv == view_seq(sorted@),
            kept@.map_values(|p: usize| sv[p as int]) == dedup_callers(sv.take(i as int)),
            forall|q: int| 0 <= q < kept.len() ==> #[trigger] kept@[q] < i,
        decreases sorted.len() - i,
    {
        let ghost before = kept@;
        proof {
            assert(sv.take(i + 1).drop_last() =~= sv.take(i as int));
            assert(sv.take(i + 1).last() == sorted@[i as int]@);
            let o = dedup_callers(sv.take(i as int));
            if kept.len() > 0 {
                assert(o.last() == sv[kept@.last() as int]);
                assert(sv[kept@.last() as int] == sorted@[kept@.last() as int]@);
            }
        }
        let keep = if kept.len() == 0 {
            true
        } else {
            let last = kept[kept.len() - 1];
            !same_caller_key(&sorted[last], &sorted[i])
        };
        if keep {
            kept.push(i);
            proof {
                assert(kept@.map_values(|p: usize| sv[p as int]) =~= before.map_values(|p: usize| sv[p as int]).push(sv[i as int]));
            }
        }
        i += 1;
    }
    proof {
        assert(sv.take(sorted.len() as int) =~= sv);
    }
    let mut out: Vec<usize> = Vec::new();
    let mut q: usize = 0;
    while q < kept.len()
        invariant
            q <= kept.len(),
            sv == view_seq(sorted@),
            forall|t: int| 0 <= t < kept.len() ==> #[trigger] kept@[t] < sorted.len(),
            forall|t: int| 0 <= t < sorted.len() ==> #[trigger] sorted@[t].index < defs.len(),
            idx_ints(out@) == kept@.take(q as int).map_values(|p: usize| sv[p as int].index),
            forall|t: int| 0 <= t < out.len() ==> out@[t] < defs.len(),
        decreases kept.len() - q,
    {
        let p = kept[q];
        let ghost before = out@;
        out.push(sorted[p].index);
        proof {
            assert(sv[p as int] == sorted@[p as int]@);
            assert(idx_ints(out@) =~= idx_ints(before).push(sv[p as int].index));
            assert(kept@.take(q + 1) =~= kept@.take(q as int).push(p));
            assert(idx_ints(out@) =~= kept@.take(q + 1).map_values(|p: usize| sv[p as int].index));
        }
        q += 1;
    }
    proof {
        assert(kept@.take(kept.len() as int) =~= kept@);
        let d = dedup_callers(sv);
        assert(idx_ints(out@) =~= d.map_values(|k: CallerKeyView| k.index));
    }
    out
}

/// Where one step of a walk leads from definition `x`.
fn step_targets_of(defs: &Vec<SymbolDef>, sources: &Vec<ParsedSource>, dir: EdgeDirection, x: usize) -> (r: Vec<usize>)
    requires
        x < defs.len(),
        trees_wf(sources@),
        covered(def_views(defs@), sources@),
    ensures
        idx_ints(r@) == step_targets(def_views(defs@), sources@, dir, x as int),
        forall|k: int| 0 <= k < r.len() ==> r@[k] < defs.len(),
{
    match dir {
        EdgeDirection::Callee => callees_of(defs, sources, x),
        EdgeDirection::Caller => {
            proof {
                assert(def_views(defs@)[x as int].name == defs@[x as int].name@);
            }
            callers_for_symbol(defs, sources, defs[x].name.as_str())
        },
    }
}

/// Visited keys as plain values.
pub open spec fn key_views(v: Seq<(String, usize)>) -> Seq<(Seq<char>, nat)> {
    v.map_values(|p: (String, usize)| (p.0@, p.1 as nat))
}

/// Whether the key of `d` was visited.
fn seen_contains(seen: &Vec<(String, usize)>, d: &SymbolDef) -> (r: bool)
    ensures
        r == key_seen(key_views(seen@), d@),
{
    let ghost kv = key_views(seen@);
    let mut k: usize = 0;
    while k < seen.len()
        invariant
            k <= seen.len(),
            kv == key_views(seen@),
            forall|q: int| 0 <= q < k ==> !(path_eq(kv[q].0, d.file@) && kv[q].1 == d.line),
        decreases seen.len() - k,
    {
        if same_path(seen[k].0.as_str(), d.file.as_str()) && seen[k].1 == d.line {
            proof {
                assert(kv[k as int] == (seen@[k as int].0@, seen@[k as int].1 as nat));
            }
            return true;
        }
        proof {
            assert(kv[k as int] == (seen@[k as int].0@, seen@[k as int].1 as nat));
        }
        k += 1;
    }
    false
}

/// Walks the graph from definition `target` in direction `dir`, level by
/// level down to `max_depth`, appending one edge per step taken.
pub fn walk_edges(
    defs: &Vec<SymbolDef>,
    sources: &Vec<ParsedSource>,
    dir: EdgeDirection,
    target: usize,
    max_depth: usize,
    edges: &mut Vec<Edge>,
)
    requires
        target < defs.len(),
        max_depth < usize::MAX,
        trees_wf(sources@),
        covered(def_views(defs@), sources@),
    ensures
        view_seq(final(edges)@) == view_seq(old(edges)@)
            + walk(def_views(defs@), sources@, dir, seq![target as int], seq![], 1, max_depth as nat),
{
    let ghost dv = def_views(defs@);
    let ghost goal = view_seq(old(edges)@) + walk(dv, sources@, dir, seq![target as int], seq![], 1, max_depth as nat);
    let mut queue: Vec<usize> = Vec::new();
    queue.push(target);
    let mut seen: Vec<(String, usize)> = Vec::new();
    let mut depth: usize = 1;
    proof {
        assert(idx_ints(queue@) =~= seq![target as int]);
        assert(key_views(seen@) =~= Seq::<(Seq<char>, nat)>::empty());
    }
    while depth <= max_depth && queue.len() > 0
        invariant
            dv == def_views(defs@),
            max_depth < usize::MAX,
            1 <= depth,
            trees_wf(sources@),
            covered(dv, sources@),
            forall|k: int| 0 <= k < queue.len() ==> #[trigger] queue@[k] < defs.len(),
            view_seq(edges@) + walk(dv, sources@, dir, idx_ints(queue@), key_views(seen@), depth as nat, max_depth as nat) == goal,
        decreases max_depth + 1 - depth,
    {
        let ghost q0 = idx_ints(queue@);
        let ghost s0 = key_views(seen@);
        let ghost e0 = view_seq(edges@);
        let ghost mut p: Seq<int> = seq![];
        let mut next: Vec<usize> = Vec::new();
        let mut j: usize = 0;
        proof {
            assert(q0.skip(0) =~= q0);
            assert(s0 + keys_of(dv, p) =~= s0);
            assert(view_seq(edges@) =~= e0 + level_edges(dv, sources@, dir, p, depth as nat));
            assert(idx_ints(next@) =~= level_next(dv, sources@, dir, p));
        }
        while j < queue.len()
            invariant
                j <= queue.len(),
                dv == def_views(defs@),
                trees_wf(sources@),
                covered(dv, sources@),
                q0 == idx_ints(queue@),
                forall|k: int| 0 <= k < queue.len() ==> #[trigger] queue@[k] < defs.len(),
                fresh(dv, q0, s0) == p + fresh(dv, q0.skip(j as int), key_views(seen@)),
                key_views(seen@) == s0 + keys_of(dv, p),
                view_seq(edges@) == e0 + level_edges(dv, sources@, dir, p, depth as nat),
                idx_ints(next@) == level_next(dv, sources@, dir, p),
                forall|k: int| 0 <= k < next.len() ==> #[trigger] next@[k] < defs.len(),
                forall|k: int| 0 <= k < p.len() ==> 0 <= #[trigger] p[k] < defs.len(),
            decreases queue.len() - j,
        {
            let x = queue[j];
            let ghost sk = key_views(seen@);
            proof {
                assert(q0.skip(j as int)[0] == x as int);
                assert(q0.skip(j as int).drop_first() =~= q0.skip(j + 1));
                assert(dv[x as int] == defs@[x as int]@);
            }
            if !seen_contains(&seen, &defs[x]) {
                let ghost eb = view_seq(edges@);
                let ghost nb = idx_ints(next@);
                seen.push((defs[x].file.clone(), defs[x].line));
                let targets = step_targets_of(defs, sources, dir, x);
                let ghost ts = idx_ints(targets@);
                let mut t: usize = 0;
                while t < targets.len()
                    invariant
                        t <= targets.len(),
                        dv == def_views(defs@),
                        ts == idx_ints(targets@),
                        forall|k: int| 0 <= k < targets.len() ==> #[trigger] targets@[k] < defs.len(),
                        view_seq(edges@) == eb + ts.take(t as int).map_values(|c: int| edge_of(dir, dv[c], depth as nat)),
                        idx_ints(next@) == nb + ts.take(t as int),
                        forall|k: int| 0 <= k < next.len() ==> #[trigger] next@[k] < defs.len(),
                    decreases targets.len() - t,
                {
                    let c = targets[t];
                    let e = edge(dir, &defs[c], depth);
                    let ghost eb2 = view_seq(edges@);
                    let ghost nb2 = idx_ints(next@);
                    edges.push(e);
                    next.push(c);
                    proof {
                        assert(dv[c as int] == defs@[c as int]@);
                        assert(ts.take(t + 1) =~= ts.take(t as int).push(c as int));
                        assert(view_seq(edges@) =~= eb2.push(e@));
                        assert(view_seq(edges@) =~= eb + ts.take(t + 1).map_values(|c: int| edge_of(dir, dv[c], depth as nat)));
                        assert(idx_ints(next@) =~= nb2.push(c as int));
                    }
                    t += 1;
                }
                proof {
                    assert(ts.take(targets.len() as int) =~= ts);
                    let p2 = p.push(x as int);
                    assert(p2.drop_last() =~= p);
                    assert(key_views(seen@) =~= sk.push(visit_key(dv[x as int])));
                    assert(keys_of(dv, p2) =~= keys_of(dv, p).push(visit_key(dv[x as int])));
                    assert(p2 + fresh(dv, q0.skip(j + 1), key_views(seen@)) =~= p + (seq![x as int] + fresh(dv, q0.skip(j + 1), key_views(seen@))));
                    p = p2;
                }
            }
            j += 1;
        }
        proof {
            assert(q0.skip(queue.len() as int) =~= Seq::<int>::empty());
            assert(p + Seq::<int>::empty() =~= p);
        }
        queue = next;
        depth += 1;
    }
}

} // verus!
