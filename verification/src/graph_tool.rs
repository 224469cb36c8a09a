//! The `call_graph` tool: from the request and the project's definitions and
//! trees to the compact JSON answer (edges sorted, de-duplicated, paged,
//! optionally ranked, and trimmed to the token budget).

use vstd::prelude::*;
use vstd::string::StringExecFns;
use crate::error::{ToolError, ToolErrorKind};
use crate::call_graph::{
    SymbolDef, DefView, def_views, target_index, find_target_index, parse_direction, direction_named,
    Direction, named, named_in,
};
use crate::walk::{
    Edge, EdgeView, EdgeDirection, ParsedSource, walk, walk_edges, trees_wf, covered, find_source, source_of,
};
use crate::graph_rows::{
    dedup_edges, sort_dedup_edges, page, page_edges, opt_nat, edge_fields, edge_rows, edge_row, RankFile,
    RankSource, rank_files_wf, rank_source_for, freq_of, hints_text, caller_freq_hints, dir_text, clone_edge,
};
use crate::sort::{ViewOrdered, sorted_view, sort_by_view, view_seq};
use crate::rows::{row_of, views, format_row};
use crate::budget::{Cl100k, budget_choice, budget_with, load_cl100k};
use crate::json::{json_quote, json_quoted};
use crate::text::{decimal, decimal_string, seq_lt, str_three_way, push_decimal, str_eq, first_at, lemma_first_at, lemma_first_at_extend};
use crate::hints::{graph_hint_text, graph_hint};
use crate::syntax::check_tree;

verus! {

/// Arguments of the `call_graph` tool.
pub struct CallGraph {
    /// Path to the source file containing the symbol.
    pub file_path: String,
    /// Function or method name to analyze.
    pub symbol_name: String,
    /// "callers", "callees" or "both" (default both).
    pub direction: Option<String>,
    /// Traversal depth (default 1, at most 3).
    pub depth: Option<u32>,
    /// Token budget for the answer (default 2000).
    pub max_tokens: Option<u32>,
    /// Rank callers by frequency, with freq and hints columns.
    pub rank: Option<bool>,
    /// Paging offset over all edges.
    pub offset: Option<u32>,
    /// Paging limit over all edges.
    pub limit: Option<u32>,
    /// Cost preview only (accepted, not used by this tool).
    pub estimate: Option<bool>,
}

/// What the tool reads from the project: whether the requested file
/// exists, its canonical path, every definition with its canonical path,
/// the files that parsed, and (for ranking) the files edges point at.
pub struct GraphProject {
    pub target_exists: bool,
    pub target_canonical: String,
    pub defs: Vec<SymbolDef>,
    pub canonical: Vec<String>,
    pub sources: Vec<ParsedSource>,
    pub rank_files: Vec<RankFile>,
}

impl GraphProject {
    /// The pieces agree: one canonical path per definition, well-formed
    /// trees, and a parsed source for every definition's file.
    pub open spec fn wf(&self) -> bool {
        &&& self.canonical.len() == self.defs.len()
        &&& trees_wf(self.sources@)
        &&& covered(def_views(self.defs@), self.sources@)
        &&& rank_files_wf(self.rank_files@)
    }
}

/// Whether a project value is consistent (for callers outside the library).
pub fn check_project(p: &GraphProject) -> (b: bool)
    ensures
        b == p.wf(),
{
    if p.canonical.len() != p.defs.len() {
        return false;
    }
    let mut k: usize = 0;
    while k < p.sources.len()
        invariant
            k <= p.sources.len(),
            forall|q: int| 0 <= q < k ==> #[trigger] p.sources@[q].tree.wf(),
        decreases p.sources.len() - k,
    {
        if !check_tree(&p.sources[k].tree) {
            return false;
        }
        k += 1;
    }
    let ghost dv = def_views(p.defs@);
    let mut i: usize = 0;
    while i < p.defs.len()
        invariant
            i <= p.defs.len(),
            dv == def_views(p.defs@),
            forall|q: int| 0 <= q < i ==> #[trigger] source_of(p.sources@, dv[q].file) is Some,
        decreases p.defs.len() - i,
    {
        proof {
            assert(dv[i as int] == p.defs@[i as int]@);
        }
        if find_source(&p.sources, p.defs[i].file.as_str()).is_none() {
            proof {
                assert(source_of(p.sources@, dv[i as int].file) is None);
                assert(!covered(dv, p.sources@));
            }
            return false;
        }
        i += 1;
    }
    let mut j: usize = 0;
    while j < p.rank_files.len()
        invariant
            j <= p.rank_files.len(),
            forall|q: int| 0 <= q < j ==> (#[trigger] p.rank_files@[q].source matches Some(s) ==> (s.tree matches Some(t) ==> t.wf())),
        decreases p.rank_files.len() - j,
    {
        match &p.rank_files[j].source {
            Some(s) => match &s.tree {
                Some(t) => {
                    if !check_tree(t) {
                        return false;
                    }
                },
                None => {},
            },
            None => {},
        }
        j += 1;
    }
    true
}

/// The traversal depth asked for: 1 by default, clamped to 1..=3.
pub open spec fn clamp_depth(d: Option<u32>) -> nat {
    match d {
        Some(v) => if v < 1 { 1 } else if v > 3 { 3 } else { v as nat },
        None => 1,
    }
}

/// The walks a direction asks for, callees first.
pub open spec fn graph_edges(dv: Seq<DefView>, sources: Seq<ParsedSource>, t: int, dir: Direction, depth: nat) -> Seq<EdgeView> {
    (if dir != Direction::Callers { walk(dv, sources, EdgeDirection::Callee, seq![t], seq![], 1, depth) } else { seq![] })
        + (if dir != Direction::Callees { walk(dv, sources, EdgeDirection::Caller, seq![t], seq![], 1, depth) } else { seq![] })
}

/// Every edge once, in order.
pub open spec fn final_edges(dv: Seq<DefView>, sources: Seq<ParsedSource>, t: int, dir: Direction, depth: nat) -> Seq<EdgeView> {
    dedup_edges(sorted_view::<Edge>(graph_edges(dv, sources, t, dir, depth)))
}

/// An edge with its rank columns.
pub struct RankedEdge {
    pub edge: Edge,
    pub freq: usize,
    pub hints: String,
}

/// The plain values of a ranked edge.
pub struct RankedView {
    pub edge: EdgeView,
    pub freq: nat,
    pub hints: Seq<char>,
}

impl View for RankedEdge {
    type V = RankedView;

    open spec fn view(&self) -> RankedView {
        RankedView { edge: self.edge@, freq: self.freq as nat, hints: self.hints@ }
    }
}

/// Callers rank before callees.
pub open spec fn caller_rank(d: EdgeDirection) -> int {
    match d {
        EdgeDirection::Caller => 0,
        EdgeDirection::Callee => 1,
    }
}

impl ViewOrdered for RankedEdge {
    /// Callers first, then by frequency (highest first), depth, file and line.
    open spec fn view_before(a: RankedView, b: RankedView) -> bool {
        if caller_rank(a.edge.direction) != caller_rank(b.edge.direction) {
            caller_rank(a.edge.direction) < caller_rank(b.edge.direction)
        } else if a.freq != b.freq {
            a.freq > b.freq
        } else if a.edge.depth != b.edge.depth {
            a.edge.depth < b.edge.depth
        } else if a.edge.file != b.edge.file {
            seq_lt(a.edge.file, b.edge.file)
        } else {
            a.edge.line < b.edge.line
        }
    }

    fn is_before(&self, other: &Self) -> (r: bool) {
        proof {
            crate::text::lemma_seq_lt_total(self.edge.file@, other.edge.file@);
        }
        let ra: u8 = match self.edge.direction {
            EdgeDirection::Caller => 0,
            EdgeDirection::Callee => 1,
        };
        let rb: u8 = match other.edge.direction {
            EdgeDirection::Caller => 0,
            EdgeDirection::Callee => 1,
        };
        if ra != rb {
            return ra < rb;
        }
        if self.freq != other.freq {
            return self.freq > other.freq;
        }
        if self.edge.depth != other.edge.depth {
            return self.edge.depth < other.edge.depth;
        }
        let f = str_three_way(self.edge.file.as_str(), other.edge.file.as_str());
        if f != 0 {
            return f < 0;
        }
        self.edge.line < other.edge.line
    }
}

/// An edge with its rank columns: frequency and hints for callers, 1 and
/// nothing for callees.
pub open spec fn ranked_of(files: Seq<RankFile>, target: Seq<char>, e: EdgeView) -> RankedView {
    if e.direction == EdgeDirection::Caller {
        let src = rank_source_for(files, e.file);
        RankedView { edge: e, freq: freq_of(src, target), hints: hints_text(e, src) }
    } else {
        RankedView { edge: e, freq: 1, hints: seq![] }
    }
}

/// How sure a ranked edge is: `high` in the target's own file, else
/// `medium` when it calls at least twice, else `low`.
pub open spec fn conf_text(file: Seq<char>, target_file: Seq<char>, freq: nat) -> Seq<char> {
    if file == target_file { "high"@ } else if freq >= 2 { "medium"@ } else { "low"@ }
}

/// The fields of a ranked row: the edge's, then freq, hints and conf.
pub open spec fn ranked_fields(r: RankedView, target_file: Seq<char>) -> Seq<Seq<char>> {
    edge_fields(r.edge) + seq![decimal(r.freq), r.hints, conf_text(r.edge.file, target_file, r.freq)]
}

/// The confidence column of a ranked row, its last field, is `high` for a
/// caller in the target's own file; otherwise `medium` when the caller
/// names the target at least twice, and `low` when less.
pub proof fn law_ranked_confidence(r: RankedView, target_file: Seq<char>)
    ensures
        r.edge.file == target_file ==> ranked_fields(r, target_file).last() == "high"@,
        r.edge.file != target_file && r.freq >= 2 ==> ranked_fields(r, target_file).last() == "medium"@,
        r.edge.file != target_file && r.freq < 2 ==> ranked_fields(r, target_file).last() == "low"@,
{
}

/// The ranked rows of `edges`.
pub open spec fn ranked_rows(files: Seq<RankFile>, target: Seq<char>, target_file: Seq<char>, edges: Seq<EdgeView>) -> Seq<Seq<char>> {
    sorted_view::<RankedEdge>(edges.map_values(|e: EdgeView| ranked_of(files, target, e)))
        .map_values(|r: RankedView| row_of(ranked_fields(r, target_file)))
}

/// Two edges name the same definition (symbol, file and line).
pub open spec fn same_place(a: EdgeView, b: EdgeView) -> bool {
    a.symbol == b.symbol && a.file == b.file && a.line == b.line
}

/// A direct caller of the target at the place of `e`.
pub open spec fn caller_at(all: Seq<EdgeView>, e: EdgeView) -> Option<int> {
    first_at(all.len(), |k: int| all[k].direction == EdgeDirection::Caller && all[k].depth == 1 && same_place(all[k], e))
}

/// `e` closes a cycle through the target: a direct callee that is the
/// target itself (a self-cycle) or also a direct caller (a 2-cycle).
pub open spec fn is_cycle(all: Seq<EdgeView>, tgt: DefView, e: EdgeView) -> bool {
    &&& e.direction == EdgeDirection::Callee
    &&& e.depth == 1
    &&& ((e.symbol == tgt.name && e.file == tgt.rel_file && e.line == tgt.line) || caller_at(all, e) is Some)
}

/// The cycles among the first `n` edges.
pub open spec fn cycle_count(all: Seq<EdgeView>, tgt: DefView, n: int) -> nat
    decreases n,
{
    if n <= 0 { 0 } else { cycle_count(all, tgt, n - 1) + if is_cycle(all, tgt, all[n - 1]) { 1nat } else { 0nat } }
}

/// The edges of direction `d` among the first `n`.
pub open spec fn dir_count(all: Seq<EdgeView>, d: EdgeDirection, n: int) -> nat
    decreases n,
{
    if n <= 0 { 0 } else { dir_count(all, d, n - 1) + if all[n - 1].direction == d { 1nat } else { 0nat } }
}

/// The plain rows of `edges`.
pub open spec fn plain_rows(edges: Seq<EdgeView>) -> Seq<Seq<char>> {
    edges.map_values(|e: EdgeView| row_of(edge_fields(e)))
}

/// The header of plain rows.
pub open spec fn edge_header() -> Seq<char> {
    "direction|symbol|file|line|scope|depth"@
}

/// The header of ranked rows.
pub open spec fn ranked_header() -> Seq<char> {
    "direction|symbol|file|line|scope|depth|freq|hints|conf"@
}

/// The members after `edges` in the object a budget measures.
pub open spec fn budget_tail(header: Seq<char>, symbol: Seq<char>) -> Seq<char> {
    ",\"h\":"@ + json_quoted(header) + ",\"sym\":"@ + json_quoted(symbol) + "}"@
}

/// The answer: the cycles found, the kept rows, header, next-step hint,
/// paging and symbol, keys in order.
pub open spec fn graph_json(rows: Seq<char>, truncated: bool, header: Seq<char>, total: nat, offset: nat, symbol: Seq<char>,
    cycles: nat, hint: Seq<char>) -> Seq<char> {
    "{"@ + (if truncated { "\"@\":{\"t\":true},"@ } else { seq![] }) + "\"cycles\":"@ + decimal(cycles)
        + ",\"edges\":"@ + json_quoted(rows)
        + ",\"h\":"@ + json_quoted(header) + ",\"hint\":"@ + json_quoted(hint) + ",\"offset\":"@ + decimal(offset)
        + ",\"sym\":"@ + json_quoted(symbol) + ",\"total\":"@ + decimal(total) + "}"@
}

/// The rows of the answer, before budgeting, with what frames them.
pub struct GraphPlan {
    pub rows: Vec<String>,
    pub ranked: bool,
    pub total: usize,
    pub offset: usize,
    pub symbol: String,
    pub max_tokens: usize,
    pub cycles: usize,
    pub hint: String,
}

/// How the request goes, before the budget: an error, or the rows to budget.
pub enum GraphOutcome {
    Fail(ToolErrorKind, Seq<char>),
    Rows { rows: Seq<Seq<char>>, ranked: bool, total: nat, offset: nat, max_tokens: nat, cycles: nat, hint: Seq<char> },
}

/// The outcome of a request on a project.
pub open spec fn graph_outcome(args: CallGraph, p: GraphProject) -> GraphOutcome {
    let dir_text_arg = match args.direction {
        Some(d) => d@,
        None => "both"@,
    };
    match direction_named(dir_text_arg) {
        None => GraphOutcome::Fail(ToolErrorKind::InvalidInput,
            "Invalid direction '"@ + dir_text_arg + "', expected callers, callees, or both"@),
        Some(dir) => if !p.target_exists {
            GraphOutcome::Fail(ToolErrorKind::NotFound, "Path does not exist: "@ + args.file_path@)
        } else {
            let dv = def_views(p.defs@);
            match target_index(dv, crate::rows::views(p.canonical@), p.target_canonical@, args.symbol_name@) {
                None => GraphOutcome::Fail(ToolErrorKind::NotFound,
                    "Symbol '"@ + args.symbol_name@ + "' not found in "@ + args.file_path@),
                Some(t) => {
                    let all = final_edges(dv, p.sources@, t, dir, clamp_depth(args.depth));
                    let offset: nat = match args.offset { Some(o) => o as nat, None => 0 };
                    let limit = match args.limit { Some(l) => Some(l as nat), None => None };
                    let shown = page(all, offset, limit);
                    let ranked = args.rank == Some(true);
                    let cycles = cycle_count(all, dv[t], all.len() as int);
                    GraphOutcome::Rows {
                        rows: if ranked { ranked_rows(p.rank_files@, args.symbol_name@, dv[t].rel_file, shown) } else { plain_rows(shown) },
                        ranked,
                        total: all.len(),
                        offset,
                        max_tokens: match args.max_tokens { Some(m) => m as nat, None => 2000 },
                        cycles,
                        hint: graph_hint_text(dir_count(all, EdgeDirection::Caller, all.len() as int),
                            dir_count(all, EdgeDirection::Callee, all.len() as int), cycles),
                    }
                },
            }
        },
    }
}

/// The answer a plan gives once budgeted; nothing when a measured text
/// cannot be counted.
pub open spec fn plan_json(rows: Seq<Seq<char>>, ranked: bool, total: nat, offset: nat, symbol: Seq<char>, max_tokens: nat,
    cycles: nat, hint: Seq<char>) -> Option<Seq<char>> {
    let header = if ranked { ranked_header() } else { edge_header() };
    match budget_choice(rows, "{\"edges\":"@, "{\"@\":{\"t\":true},\"edges\":"@, budget_tail(header, symbol), max_tokens) {
        Some(kept) => Some(graph_json(kept.0, kept.1, header, total, offset, symbol, cycles, hint)),
        None => None,
    }
}

/// The ranked rows of `edges`.
pub fn rank_rows(files: &Vec<RankFile>, target: &str, target_file: &str, edges: &Vec<Edge>) -> (r: Vec<String>)
    requires
        rank_files_wf(files@),
    ensures
        views(r@) == ranked_rows(files@, target@, target_file@, view_seq(edges@)),
{
    let ghost es = view_seq(edges@);
    let mut ranked: Vec<RankedEdge> = Vec::new();
    let mut i: usize = 0;
    while i < edges.len()
        invariant
            i <= edges.len(),
            es == view_seq(edges@),
            rank_files_wf(files@),
            view_seq(ranked@) == es.take(i as int).map_values(|e: EdgeView| ranked_of(files@, target@, e)),
        decreases edges.len() - i,
    {
        let e = &edges[i];
        let ghost before = view_seq(ranked@);
        let item = match e.direction {
            EdgeDirection::Caller => {
                let src = crate::graph_rows::find_rank_source(files, e.file.as_str());
                proof {
                    let k = crate::text::first_at(files@.len(), |k: int| files@[k].rel@ == e.file@);
                    crate::text::lemma_first_at(files@.len(), |k: int| files@[k].rel@ == e.file@);
                    if let Some(q) = k {
                        assert(files@[q].source matches Some(s) ==> (s.tree matches Some(t) ==> t.wf()));
                    }
                }
                let (freq, hints) = caller_freq_hints(e, target, src);
                RankedEdge { edge: clone_edge(e), freq, hints }
            },
            EdgeDirection::Callee => RankedEdge { edge: clone_edge(e), freq: 1, hints: String::new() },
        };
        proof {
            reveal_strlit("");
            assert(item@ == ranked_of(files@, target@, e@));
        }
        ranked.push(item);
        proof {
            assert(es.take(i + 1) =~= es.take(i as int).push(e@));
            assert(view_seq(ranked@) =~= before.push(item@));
        }
        i += 1;
    }
    proof {
        assert(es.take(edges.len() as int) =~= es);
    }
    let sorted = sort_by_view(ranked);
    let ghost sv = view_seq(sorted@);
    let mut out: Vec<String> = Vec::new();
    let mut j: usize = 0;
    while j < sorted.len()
        invariant
            j <= sorted.len(),
            sv == view_seq(sorted@),
            views(out@) == sv.take(j as int).map_values(|r: RankedView| row_of(ranked_fields(r, target_file@))),
        decreases sorted.len() - j,
    {
        let r = &sorted[j];
        let mut fields: Vec<String> = Vec::new();
        fields.push(crate::graph_rows::dir_string(r.edge.direction));
        fields.push(r.edge.symbol.clone());
        fields.push(r.edge.file.clone());
        fields.push(decimal_string(r.edge.line));
        fields.push(r.edge.scope.clone());
        fields.push(decimal_string(r.edge.depth));
        fields.push(decimal_string(r.freq));
        fields.push(r.hints.clone());
        let conf = if str_eq(r.edge.file.as_str(), target_file) {
            String::from_str("high")
        } else if r.freq >= 2 {
            String::from_str("medium")
        } else {
            String::from_str("low")
        };
        fields.push(conf);
        proof {
            reveal_strlit("high");
            reveal_strlit("medium");
            reveal_strlit("low");
            assert(views(fields@) =~= ranked_fields(r@, target_file@));
        }
        let row = format_row(&fields);
        let ghost before = views(out@);
        out.push(row);
        proof {
            assert(sv.take(j + 1) =~= sv.take(j as int).push(sv[j as int]));
            assert(sv[j as int] == r@);
            assert(views(out@) =~= before.push(row@));
        }
        j += 1;
    }
    proof {
        assert(sv.take(sorted.len() as int) =~= sv);
    }
    out
}

/// Whether a direct caller of the target sits at the place of `e`.
fn has_caller_at(all: &Vec<Edge>, e: &Edge) -> (b: bool)
    ensures
        b == (caller_at(view_seq(all@), e@) is Some),
{
    let ghost av = view_seq(all@);
    let ghost p = |k: int| av[k].direction == EdgeDirection::Caller && av[k].depth == 1 && same_place(av[k], e@);
    let mut k: usize = 0;
    while k < all.len()
        invariant
            k <= all.len(),
            av == view_seq(all@),
            p == (|k: int| av[k].direction == EdgeDirection::Caller && av[k].depth == 1 && same_place(av[k], e@)),
            first_at(k as nat, p) is None,
        decreases all.len() - k,
    {
        let c = &all[k];
        let hit = c.direction == EdgeDirection::Caller && c.depth == 1 && str_eq(c.symbol.as_str(), e.symbol.as_str())
            && str_eq(c.file.as_str(), e.file.as_str()) && c.line == e.line;
        proof {
            assert(av[k as int] == c@);
        }
        if hit {
            proof {
                assert(p(k as int));
                lemma_first_at_extend((k + 1) as nat, all.len() as nat, p);
            }
            return true;
        }
        k += 1;
    }
    proof {
        assert(p =~= (|k: int| av[k].direction == EdgeDirection::Caller && av[k].depth == 1 && same_place(av[k], e@)));
    }
    false
}

/// The cycles through the target among the edges.
fn count_cycles(all: &Vec<Edge>, tgt: &SymbolDef) -> (n: usize)
    ensures
        n == cycle_count(view_seq(all@), tgt@, all.len() as int),
{
    let ghost av = view_seq(all@);
    let mut n: usize = 0;
    let mut i: usize = 0;
    while i < all.len()
        invariant
            i <= all.len(),
            av == view_seq(all@),
            n == cycle_count(av, tgt@, i as int),
            n <= i,
        decreases all.len() - i,
    {
        let e = &all[i];
        proof {
            assert(av[i as int] == e@);
        }
        let is_self = str_eq(e.symbol.as_str(), tgt.name.as_str()) && str_eq(e.file.as_str(), tgt.rel_file.as_str())
            && e.line == tgt.line;
        if e.direction == EdgeDirection::Callee && e.depth == 1 && (is_self || has_caller_at(all, e)) {
            n += 1;
        }
        i += 1;
    }
    n
}

/// The edges of direction `d`.
fn count_direction(all: &Vec<Edge>, d: EdgeDirection) -> (n: usize)
    ensures
        n == dir_count(view_seq(all@), d, all.len() as int),
{
    let ghost av = view_seq(all@);
    let mut n: usize = 0;
    let mut i: usize = 0;
    while i < all.len()
        invariant
            i <= all.len(),
            av == view_seq(all@),
            n == dir_count(av, d, i as int),
            n <= i,
        decreases all.len() - i,
    {
        proof {
            assert(av[i as int] == all@[i as int]@);
        }
        if all[i].direction == d {
            n += 1;
        }
        i += 1;
    }
    n
}

/// Validates the request and builds the rows the answer will hold.
pub fn plan_graph(args: &CallGraph, p: &GraphProject) -> (r: Result<GraphPlan, ToolError>)
    requires
        p.wf(),
    ensures
        match graph_outcome(*args, *p) {
            GraphOutcome::Fail(kind, message) => r matches Err(e) && e.kind == kind && e.message@ == message,
            GraphOutcome::Rows { rows, ranked, total, offset, max_tokens, cycles, hint } => r matches Ok(plan)
                && views(plan.rows@) == rows && plan.ranked == ranked && plan.total == total
                && plan.offset == offset && plan.symbol@ == args.symbol_name@ && plan.max_tokens == max_tokens
                && plan.cycles == cycles && plan.hint@ == hint,
        },
{
    let dir_arg: &str = match &args.direction {
        Some(d) => d.as_str(),
        None => "both",
    };
    let dir = match parse_direction(dir_arg) {
        Ok(d) => d,
        Err(e) => {
            return Err(e);
        },
    };
    if !p.target_exists {
        let mut msg = String::from_str("Path does not exist: ");
        msg.append(args.file_path.as_str());
        return Err(ToolError { kind: ToolErrorKind::NotFound, message: msg });
    }
    let depth: usize = match args.depth {
        Some(v) => if v < 1 { 1 } else if v > 3 { 3 } else { v as usize },
        None => 1,
    };
    let t = match find_target_index(&p.defs, &p.canonical, p.target_canonical.as_str(), args.symbol_name.as_str()) {
        Some(t) => t,
        None => {
            let mut msg = String::from_str("Symbol '");
            msg.append(args.symbol_name.as_str());
            msg.append("' not found in ");
            msg.append(args.file_path.as_str());
            return Err(ToolError { kind: ToolErrorKind::NotFound, message: msg });
        },
    };
    proof {
        let dv = def_views(p.defs@);
        let cv = crate::rows::views(p.canonical@);
        crate::text::lemma_first_at(dv.len(), named_in(dv, cv, p.target_canonical@, args.symbol_name@));
        crate::text::lemma_first_at(dv.len(), named(dv, args.symbol_name@));
        let k = target_index(dv, cv, p.target_canonical@, args.symbol_name@)->0;
        assert(0 <= k < p.defs.len());
        assert(t as int == k);
    }
    let ghost dv = def_views(p.defs@);
    let mut edges: Vec<Edge> = Vec::new();
    if dir != Direction::Callers {
        walk_edges(&p.defs, &p.sources, EdgeDirection::Callee, t, depth, &mut edges);
    }
    let ghost after_callees = view_seq(edges@);
    if dir != Direction::Callees {
        walk_edges(&p.defs, &p.sources, EdgeDirection::Caller, t, depth, &mut edges);
    }
    proof {
        assert(view_seq(Seq::<Edge>::empty()) =~= Seq::<EdgeView>::empty());
        assert(view_seq(edges@) =~= graph_edges(dv, p.sources@, t as int, dir, depth as nat));
    }
    let all = sort_dedup_edges(edges);
    let total = all.len();
    let offset: usize = match args.offset {
        Some(o) => o as usize,
        None => 0,
    };
    let limit: Option<usize> = match args.limit {
        Some(l) => Some(l as usize),
        None => None,
    };
    let shown = page_edges(&all, offset, limit);
    let ranked = match args.rank {
        Some(b) => b,
        None => false,
    };
    let rows = if ranked {
        rank_rows(&p.rank_files, args.symbol_name.as_str(), p.defs[t].rel_file.as_str(), &shown)
    } else {
        let r = edge_rows(&shown);
        r
    };
    let max_tokens: usize = match args.max_tokens {
        Some(m) => m as usize,
        None => 2000,
    };
    let cycles = count_cycles(&all, &p.defs[t]);
    let callers = count_direction(&all, EdgeDirection::Caller);
    let callees = count_direction(&all, EdgeDirection::Callee);
    let hint = graph_hint(callers, callees, cycles);
    proof {
        assert(dv[t as int] == p.defs@[t as int]@);
    }
    Ok(GraphPlan { rows, ranked, total, offset, symbol: args.symbol_name.clone(), max_tokens, cycles, hint })
}

/// Appends `s` as a JSON string literal.
fn append_quoted(out: &mut String, s: &str)
    ensures
        final(out)@ == old(out)@ + json_quoted(s@),
{
    let q = json_quote(s);
    out.append(q.as_str());
}

/// The budgeted answer for a plan; the error of a text that cannot be
/// counted is passed on.
pub fn render_plan(tok: &Cl100k, plan: &GraphPlan) -> (r: Result<String, String>)
    ensures
        match plan_json(views(plan.rows@), plan.ranked, plan.total as nat, plan.offset as nat, plan.symbol@, plan.max_tokens as nat,
            plan.cycles as nat, plan.hint@) {
            Some(t) => r matches Ok(s) && s@ == t,
            None => r is Err,
        },
{
    let header: &str = if plan.ranked {
        "direction|symbol|file|line|scope|depth|freq|hints|conf"
    } else {
        "direction|symbol|file|line|scope|depth"
    };
    let mut tail = String::from_str(",\"h\":");
    append_quoted(&mut tail, header);
    tail.append(",\"sym\":");
    append_quoted(&mut tail, plan.symbol.as_str());
    tail.append("}");
    proof {
        let h = if plan.ranked { ranked_header() } else { edge_header() };
        assert(header@ == h);
        assert(tail@ =~= budget_tail(h, plan.symbol@));
    }
    let (text, truncated) = match budget_with(tok, &plan.rows, "{\"edges\":", "{\"@\":{\"t\":true},\"edges\":", tail.as_str(), plan.max_tokens) {
        Ok(kept) => kept,
        Err(e) => return Err(e),
    };
    let mut out = String::from_str("{");
    if truncated {
        out.append("\"@\":{\"t\":true},");
    }
    out.append("\"cycles\":");
    push_decimal(&mut out, plan.cycles);
    out.append(",\"edges\":");
    append_quoted(&mut out, text.as_str());
    out.append(",\"h\":");
    append_quoted(&mut out, header);
    out.append(",\"hint\":");
    append_quoted(&mut out, plan.hint.as_str());
    out.append(",\"offset\":");
    push_decimal(&mut out, plan.offset);
    out.append(",\"sym\":");
    append_quoted(&mut out, plan.symbol.as_str());
    out.append(",\"total\":");
    push_decimal(&mut out, plan.total);
    out.append("}");
    proof {
        let h = if plan.ranked { ranked_header() } else { edge_header() };
        assert(header@ == h);
        assert(out@ =~= graph_json(text@, truncated, h, plan.total as nat, plan.offset as nat, plan.symbol@, plan.cycles as nat, plan.hint@));
    }
    Ok(out)
}

/// The `call_graph` answer: the request validated, the graph walked, and
/// the rows trimmed to the token budget.
pub fn call_graph_text(args: &CallGraph, p: &GraphProject) -> (r: Result<String, ToolError>)
    requires
        p.wf(),
    ensures
        match graph_outcome(*args, *p) {
            GraphOutcome::Fail(kind, message) => r matches Err(e) && e.kind == kind && e.message@ == message,
            GraphOutcome::Rows { rows, ranked, total, offset, max_tokens, cycles, hint } => match plan_json(rows, ranked, total, offset, args.symbol_name@, max_tokens, cycles, hint) {
                Some(t) => r matches Ok(text) && text@ == t,
                None => r matches Err(e) && e.kind == ToolErrorKind::Other,
            },
        },
{
    let plan = match plan_graph(args, p) {
        Ok(plan) => plan,
        Err(e) => {
            return Err(e);
        },
    };
    match load_cl100k() {
        Ok(tok) => match render_plan(&tok, &plan) {
            Ok(text) => Ok(text),
            Err(e) => Err(ToolError { kind: ToolErrorKind::Other, message: e }),
        },
        Err(e) => {
            let mut msg = if plan.ranked {
                String::from_str("tokenizer: ")
            } else {
                String::from_str("Failed to initialize tiktoken tokenizer: ")
            };
            msg.append(e.as_str());
            Err(ToolError { kind: ToolErrorKind::Other, message: msg })
        },
    }
}

/// The order of ranked edges is a strict order.
proof fn lemma_ranked_strict_order()
    ensures
        crate::sort::strict_order::<RankedEdge>(),
{
    assert forall|a: RankedView| !#[trigger] RankedEdge::view_before(a, a) by {
        crate::text::lemma_seq_lt_total(a.edge.file, a.edge.file);
    }
    assert forall|a: RankedView, b: RankedView, c: RankedView|
        #[trigger] RankedEdge::view_before(a, b) && #[trigger] RankedEdge::view_before(b, c)
        implies RankedEdge::view_before(a, c) by {
        crate::text::lemma_seq_lt_total(a.edge.file, b.edge.file);
        crate::text::lemma_seq_lt_total(b.edge.file, c.edge.file);
        crate::text::lemma_seq_lt_total(a.edge.file, c.edge.file);
        if seq_lt(a.edge.file, b.edge.file) && seq_lt(b.edge.file, c.edge.file) {
            crate::text::lemma_seq_lt_trans(a.edge.file, b.edge.file, c.edge.file);
        }
    }
}

/// Ranked rows come callers first, then by frequency (highest first),
/// depth, file and line, none before an earlier one.
pub proof fn law_ranked_sorted(files: Seq<RankFile>, target: Seq<char>, edges: Seq<EdgeView>)
    ensures
        crate::sort::view_sorted::<RankedEdge>(
            sorted_view::<RankedEdge>(edges.map_values(|e: EdgeView| ranked_of(files, target, e)))),
{
    lemma_ranked_strict_order();
    crate::sort::lemma_sorted_view_sorted::<RankedEdge>(edges.map_values(|e: EdgeView| ranked_of(files, target, e)));
}

} // verus!
