//! The `call_path` query: does one definition reach another through calls?
//! A breadth-first walk over resolved callees, each (file, line) visited
//! once, up to a depth; a walk that comes back to the start reports the
//! cycle. The answer names the chain found, start first.

use vstd::prelude::*;
use vstd::string::StringExecFns;
use crate::error::{ToolError, ToolErrorKind};
use crate::call_graph::{SymbolDef, DefView, def_views, path_eq, same_path, resolve_index, resolve_index_of, find_target_index, target_index};
use crate::walk::{ParsedSource, def_calls, trees_wf, covered, source_of, find_source};
use crate::graph_tool::GraphProject;
use crate::syntax::collect_called_names;
use crate::rows::{views, join_with};
use crate::text::{decimal, push_decimal, str_eq, first_at, lemma_first_at, lemma_first_at_extend};
use crate::json::{json_quoted, append_quoted};
use crate::tools::CallPath;

verus! {

/// Definitions `a` and `b` have the same (file, line) key, `a` asking.
pub open spec fn same_key(defs: Seq<DefView>, a: int, b: int) -> bool {
    path_eq(defs[a].file, defs[b].file) && defs[a].line == defs[b].line
}

/// The key of `d` is among the visited ones.
pub open spec fn key_visited(defs: Seq<DefView>, visited: Seq<int>, d: int) -> bool {
    exists|k: int| 0 <= k < visited.len() && #[trigger] same_key(defs, d, visited[k])
}

/// Where a walk stands: the queue of (definition, depth), the definitions
/// whose keys were visited, each reached key with the definition it was
/// reached from, each key's name, and what was found.
pub struct PathState {
    pub queue: Seq<(int, nat)>,
    pub visited: Seq<int>,
    pub prev: Seq<(int, int)>,
    pub names: Seq<(int, Seq<char>)>,
    pub found: Option<int>,
}

/// One called name of definition `c` (at depth `dp`), and whether the walk
/// stops there: an unresolved name is skipped; a key seen before only
/// counts when it is the start's and the walk looks for the start itself
/// (a cycle back to it, recorded once); a new key is
/// recorded and, when it is the destination, ends the walk, else queued.
pub open spec fn name_step(defs: Seq<DefView>, st: PathState, c: int, dp: nat, name: Seq<char>, start: int, to: Seq<char>) -> (PathState, bool) {
    match resolve_index(defs, name, defs[c].file) {
        None => (st, false),
        Some(nx) => if key_visited(defs, st.visited, nx) {
            if same_key(defs, nx, start) && st.found is None && defs[start].name == to {
                (PathState { prev: st.prev.push((nx, c)), names: st.names.push((nx, defs[nx].name)), found: Some(nx), ..st }, false)
            } else {
                (st, false)
            }
        } else {
            let st2 = PathState {
                visited: st.visited.push(nx),
                prev: st.prev.push((nx, c)),
                names: st.names.push((nx, defs[nx].name)),
                ..st
            };
            if defs[nx].name == to {
                (PathState { found: Some(nx), queue: seq![], ..st2 }, true)
            } else {
                (PathState { queue: st2.queue.push((nx, dp + 1)), ..st2 }, false)
            }
        },
    }
}

/// The called names of `c`, taken in turn until one stops the walk.
pub open spec fn names_run(defs: Seq<DefView>, st: PathState, c: int, dp: nat, ns: Seq<Seq<char>>, start: int, to: Seq<char>) -> PathState
    decreases ns.len(),
{
    if ns.len() == 0 {
        st
    } else {
        let (st2, stop) = name_step(defs, st, c, dp, ns[0], start, to);
        if stop { st2 } else { names_run(defs, st2, c, dp, ns.drop_first(), start, to) }
    }
}

/// `s` without repeats, first occurrences kept (what a set of names holds).
pub open spec fn distinct_names(s: Seq<Seq<char>>) -> Seq<Seq<char>>
    decreases s.len(),
{
    if s.len() == 0 {
        seq![]
    } else if s.drop_last().contains(s.last()) {
        distinct_names(s.drop_last())
    } else {
        distinct_names(s.drop_last()).push(s.last())
    }
}

/// The walk from a state, at most `fuel` queue entries more: each entry
/// takes the definition off the queue; one at the depth limit is dropped,
/// else its called names are taken in turn, and the walk ends once
/// something is found.
pub open spec fn bfs(defs: Seq<DefView>, sources: Seq<ParsedSource>, st: PathState, start: int, to: Seq<char>, max: nat, fuel: nat) -> PathState
    decreases fuel,
{
    if fuel == 0 || st.queue.len() == 0 {
        st
    } else {
        let (c, dp) = st.queue[0];
        let st1 = PathState { queue: st.queue.drop_first(), ..st };
        if dp >= max {
            bfs(defs, sources, st1, start, to, max, (fuel - 1) as nat)
        } else {
            let st2 = names_run(defs, st1, c, dp, distinct_names(def_calls(sources, defs[c])), start, to);
            if st2.found is Some { st2 } else { bfs(defs, sources, st2, start, to, max, (fuel - 1) as nat) }
        }
    }
}

/// The walk's first state: the start queued at depth 0 and visited.
pub open spec fn first_state(defs: Seq<DefView>, start: int) -> PathState {
    PathState { queue: seq![(start, 0nat)], visited: seq![start], prev: seq![], names: seq![(start, defs[start].name)], found: None }
}

/// The definition `d` was reached from (the first record of its key).
pub open spec fn prev_of(defs: Seq<DefView>, prev: Seq<(int, int)>, d: int) -> Option<int> {
    match first_at(prev.len(), |i: int| same_key(defs, d, prev[i].0)) {
        Some(i) => Some(prev[i].1),
        None => None,
    }
}

/// The way back from `cur` to the start, at most `fuel` steps.
pub open spec fn chain_back(defs: Seq<DefView>, prev: Seq<(int, int)>, start: int, cur: int, fuel: nat) -> Seq<int>
    decreases fuel,
{
    if fuel == 0 || same_key(defs, cur, start) {
        seq![]
    } else {
        match prev_of(defs, prev, cur) {
            Some(p) => seq![p] + chain_back(defs, prev, start, p, (fuel - 1) as nat),
            None => seq![],
        }
    }
}

/// The name recorded last for the key of `d` (empty when none).
pub open spec fn name_of(defs: Seq<DefView>, names: Seq<(int, Seq<char>)>, d: int) -> Seq<char>
    decreases names.len(),
{
    if names.len() == 0 {
        seq![]
    } else if same_key(defs, d, names.last().0) {
        names.last().1
    } else {
        name_of(defs, names.drop_last(), d)
    }
}

/// How a definition of the chain is shown: `name@file:line`.
pub open spec fn chain_row(defs: Seq<DefView>, names: Seq<(int, Seq<char>)>, d: int) -> Seq<char> {
    name_of(defs, names, d) + "@"@ + defs[d].rel_file + ":"@ + decimal(defs[d].line)
}

/// The chain text of a finished walk: from the start to what was found,
/// one definition per line (empty when nothing was found). The way back
/// is followed for at most as many steps as there are records.
pub open spec fn chain_text(defs: Seq<DefView>, st: PathState, start: int) -> Seq<char> {
    match st.found {
        Some(f) => {
            let rev = seq![f] + chain_back(defs, st.prev, start, f, (st.prev.len() + 1) as nat);
            join_with(rev.reverse().map_values(|d: int| chain_row(defs, st.names, d)), seq!['\n'])
        },
        None => seq![],
    }
}

/// The depth limit a request asks for: 1 to 5, 5 when absent.
pub open spec fn path_depth(args: CallPath) -> nat {
    match args.depth {
        Some(v) => if v < 1 { 1 } else if v > 5 { 5 } else { v as nat },
        None => 5,
    }
}

/// The answer for a walk's end state.
pub open spec fn path_json(args: CallPath, reachable: bool, chain: Seq<char>) -> Seq<char> {
    "{\"chain\":"@ + json_quoted(chain) + ",\"from\":"@ + json_quoted(args.symbol@) + ",\"reachable\":"@
        + (if reachable { "true"@ } else { "false"@ }) + ",\"to\":"@ + json_quoted(args.to@) + "}"@
}

/// The outcome of a request: the start is not found, or the walk's end
/// state (the whole walk fits in one queue entry per definition).
pub open spec fn path_outcome(args: CallPath, p: GraphProject) -> Result<Seq<char>, Seq<char>> {
    let dv = def_views(p.defs@);
    match target_index(dv, views(p.canonical@), p.target_canonical@, args.symbol@) {
        None => Err("Symbol '"@ + args.symbol@ + "' not found in "@ + args.file_path@),
        Some(s) => {
            let end = bfs(dv, p.sources@, first_state(dv, s), s, args.to@, path_depth(args), dv.len());
            Ok(path_json(args, end.found is Some, chain_text(dv, end, s)))
        },
    }
}

/// A walk in progress.
pub struct Walk {
    pub queue: Vec<(usize, usize)>,
    pub visited: Vec<usize>,
    pub prev: Vec<(usize, usize)>,
    pub names: Vec<(usize, String)>,
    pub found: Option<usize>,
}

impl Walk {
    /// The walk as plain values.
    pub open spec fn state(&self) -> PathState {
        PathState {
            queue: self.queue@.map_values(|e: (usize, usize)| (e.0 as int, e.1 as nat)),
            visited: self.visited@.map_values(|v: usize| v as int),
            prev: self.prev@.map_values(|e: (usize, usize)| (e.0 as int, e.1 as int)),
            names: self.names@.map_values(|e: (usize, String)| (e.0 as int, e.1@)),
            found: match self.found { Some(f) => Some(f as int), None => None },
        }
    }

    /// Every index names a definition and no definition is visited twice.
    pub open spec fn inv(&self, n: nat) -> bool {
        &&& forall|k: int| 0 <= k < self.queue.len() ==> (#[trigger] self.queue@[k]).0 < n && self.queue@[k].1 <= 5
        &&& forall|k: int| 0 <= k < self.visited.len() ==> #[trigger] self.visited@[k] < n
        &&& forall|k: int| 0 <= k < self.prev.len() ==> (#[trigger] self.prev@[k]).0 < n && self.prev@[k].1 < n
        &&& forall|k: int| 0 <= k < self.names.len() ==> (#[trigger] self.names@[k]).0 < n
        &&& (self.found matches Some(f) ==> f < n)
        &&& self.visited@.no_duplicates()
    }
}

/// Whether definitions `a` and `b` share a key.
fn same_key_of(defs: &Vec<SymbolDef>, a: usize, b: usize) -> (r: bool)
    requires
        a < defs.len(),
        b < defs.len(),
    ensures
        r == same_key(def_views(defs@), a as int, b as int),
        a == b ==> r,
{
    same_path(defs[a].file.as_str(), defs[b].file.as_str()) && defs[a].line == defs[b].line
}

/// Whether the key of `d` was visited.
fn seen_key(defs: &Vec<SymbolDef>, visited: &Vec<usize>, d: usize) -> (r: bool)
    requires
        d < defs.len(),
        forall|k: int| 0 <= k < visited.len() ==> #[trigger] visited@[k] < defs.len(),
    ensures
        r == key_visited(def_views(defs@), visited@.map_values(|v: usize| v as int), d as int),
        !r ==> !visited@.contains(d),
{
    let ghost dv = def_views(defs@);
    let ghost vi = visited@.map_values(|v: usize| v as int);
    let mut k: usize = 0;
    while k < visited.len()
        invariant
            k <= visited.len(),
            d < defs.len(),
            dv == def_views(defs@),
            vi == visited@.map_values(|v: usize| v as int),
            forall|j: int| 0 <= j < visited.len() ==> #[trigger] visited@[j] < defs.len(),
            forall|j: int| 0 <= j < k ==> !same_key(dv, d as int, #[trigger] vi[j]),
            forall|j: int| 0 <= j < k ==> #[trigger] visited@[j] != d,
        decreases visited.len() - k,
    {
        let hit = same_key_of(defs, d, visited[k]);
        proof {
            assert(vi[k as int] == visited@[k as int] as int);
        }
        if hit {
            return true;
        }
        k += 1;
    }
    proof {
        if visited@.contains(d) {
            let j = choose|j: int| 0 <= j < visited.len() && visited@[j] == d;
            assert(visited@[j] != d);
        }
    }
    false
}

/// One called name of definition `c`.
fn step_name(w: &mut Walk, defs: &Vec<SymbolDef>, c: usize, dp: usize, name: &str, start: usize, to: &str) -> (stop: bool)
    requires
        c < defs.len(),
        start < defs.len(),
        dp < 5,
        old(w).inv(defs.len() as nat),
    ensures
        final(w).inv(defs.len() as nat),
        (final(w).state(), stop) == name_step(def_views(defs@), old(w).state(), c as int, dp as nat, name@, start as int, to@),
{
    let ghost dv = def_views(defs@);
    let nx = match resolve_index_of(defs, name, defs[c].file.as_str()) {
        Some(i) => i,
        None => {
            proof {
                assert(dv[c as int].file == defs@[c as int].file@);
            }
            return false;
        },
    };
    proof {
        assert(dv[c as int].file == defs@[c as int].file@);
        let p1 = crate::call_graph::named_in(dv, crate::call_graph::def_files(dv), dv[c as int].file, name@);
        let p2 = crate::call_graph::named(dv, name@);
        lemma_first_at(dv.len(), p1);
        lemma_first_at(dv.len(), p2);
    }
    let ghost before = w.state();
    if seen_key(defs, &w.visited, nx) {
        if same_key_of(defs, nx, start) && w.found.is_none() && str_eq(defs[start].name.as_str(), to) {
            w.prev.push((nx, c));
            w.names.push((nx, defs[nx].name.clone()));
            w.found = Some(nx);
            proof {
                assert(dv[start as int].name == defs@[start as int].name@);
                assert(w.state().prev =~= before.prev.push((nx as int, c as int)));
                assert(w.state().names =~= before.names.push((nx as int, dv[nx as int].name)));
                assert(w.state().queue =~= before.queue);
                assert(w.state().visited =~= before.visited);
            }
        } else {
            proof {
                assert(dv[start as int].name == defs@[start as int].name@);
                assert(w.state() == before);
            }
        }
        return false;
    }
    w.visited.push(nx);
    w.prev.push((nx, c));
    w.names.push((nx, defs[nx].name.clone()));
    proof {
        assert(w.state().visited =~= before.visited.push(nx as int));
        assert(w.state().prev =~= before.prev.push((nx as int, c as int)));
        assert(w.state().names =~= before.names.push((nx as int, dv[nx as int].name)));
        assert(w.visited@.no_duplicates()) by {
            assert forall|a: int, b: int| 0 <= a < w.visited.len() && 0 <= b < w.visited.len() && a != b
                implies w.visited@[a] != w.visited@[b] by {
                if a < w.visited.len() - 1 && b < w.visited.len() - 1 {
                } else if a == w.visited.len() - 1 {
                    assert(!old(w).visited@.contains(nx));
                    assert(w.visited@[b] == old(w).visited@[b]);
                } else {
                    assert(!old(w).visited@.contains(nx));
                    assert(w.visited@[a] == old(w).visited@[a]);
                }
            }
        }
    }
    if str_eq(defs[nx].name.as_str(), to) {
        w.found = Some(nx);
        w.queue = Vec::new();
        proof {
            assert(dv[nx as int].name == defs@[nx as int].name@);
            assert(w.state().queue =~= Seq::<(int, nat)>::empty());
        }
        return true;
    }
    w.queue.push((nx, dp + 1));
    proof {
        assert(dv[nx as int].name == defs@[nx as int].name@);
        assert(w.state().queue =~= before.queue.push((nx as int, (dp + 1) as nat)));
    }
    false
}

/// The called names of `c`, taken in turn until one stops the walk.
fn run_names(w: &mut Walk, defs: &Vec<SymbolDef>, c: usize, dp: usize, ns: &Vec<String>, start: usize, to: &str)
    requires
        c < defs.len(),
        start < defs.len(),
        dp < 5,
        old(w).inv(defs.len() as nat),
    ensures
        final(w).inv(defs.len() as nat),
        final(w).state() == names_run(def_views(defs@), old(w).state(), c as int, dp as nat, views(ns@), start as int, to@),
{
    let ghost dv = def_views(defs@);
    let ghost nv = views(ns@);
    let mut j: usize = 0;
    proof {
        assert(nv.skip(0) =~= nv);
    }
    while j < ns.len()
        invariant
            j <= ns.len(),
            c < defs.len(),
            start < defs.len(),
            dp < 5,
            dv == def_views(defs@),
            nv == views(ns@),
            w.inv(defs.len() as nat),
            names_run(dv, old(w).state(), c as int, dp as nat, nv, start as int, to@)
                == names_run(dv, w.state(), c as int, dp as nat, nv.skip(j as int), start as int, to@),
        decreases ns.len() - j,
    {
        let ghost here = w.state();
        proof {
            assert(nv.skip(j as int)[0] == ns@[j as int]@);
            assert(nv.skip(j as int).drop_first() =~= nv.skip(j + 1));
        }
        let stop = step_name(w, defs, c, dp, ns[j].as_str(), start, to);
        if stop {
            return;
        }
        j += 1;
    }
    proof {
        assert(nv.skip(j as int) =~= Seq::<Seq<char>>::empty());
    }
}

/// The distinct names definition `c` calls, first occurrences first.
fn called_names(defs: &Vec<SymbolDef>, sources: &Vec<ParsedSource>, c: usize) -> (r: Vec<String>)
    requires
        c < defs.len(),
        trees_wf(sources@),
        covered(def_views(defs@), sources@),
    ensures
        views(r@) == distinct_names(def_calls(sources@, def_views(defs@)[c as int])),
{
    let ghost dv = def_views(defs@);
    let d = &defs[c];
    proof {
        assert(dv[c as int] == d@);
        assert(source_of(sources@, dv[c as int].file) is Some);
    }
    let s = match find_source(sources, d.file.as_str()) {
        Some(s) => s,
        None => {
            proof {
                assert(distinct_names(Seq::<Seq<char>>::empty()) =~= Seq::<Seq<char>>::empty());
            }
            return Vec::new();
        },
    };
    proof {
        lemma_first_at(sources.len() as nat, |k: int| path_eq(sources@[k].path@, d.file@));
        assert(sources@[s as int].tree.wf());
    }
    let src = &sources[s];
    let all = collect_called_names(&src.tree, src.language, d.line, d.end_line);
    let ghost av = views(all@);
    proof {
        assert(av == def_calls(sources@, d@));
    }
    let mut out: Vec<String> = Vec::new();
    let mut i: usize = 0;
    proof {
        assert(av.take(0) =~= Seq::<Seq<char>>::empty());
    }
    while i < all.len()
        invariant
            i <= all.len(),
            av == views(all@),
            views(out@) == distinct_names(av.take(i as int)),
        decreases all.len() - i,
    {
        let ghost t = av.take(i + 1);
        proof {
            assert(t.drop_last() =~= av.take(i as int));
            assert(t.last() == all@[i as int]@);
        }
        let mut seen = false;
        let mut k: usize = 0;
        while k < i
            invariant
                k <= i,
                i < all.len(),
                av == views(all@),
                seen == av.take(k as int).contains(av[i as int]),
            decreases i - k,
        {
            proof {
                assert(av.take(k + 1) =~= av.take(k as int).push(av[k as int]));
                assert(av[k as int] == all@[k as int]@);
                assert(av[i as int] == all@[i as int]@);
            }
            let same = str_eq(all[k].as_str(), all[i].as_str());
            proof {
                let a = av.take(k as int);
                let b = av.take(k + 1);
                let x = av[i as int];
                if a.contains(x) {
                    let m = choose|m: int| 0 <= m < a.len() && a[m] == x;
                    assert(b[m] == x);
                }
                if same {
                    assert(b[k as int] == x);
                }
                if b.contains(x) {
                    let m = choose|m: int| 0 <= m < b.len() && b[m] == x;
                    if m < k {
                        assert(a[m] == x);
                    }
                }
            }
            if same {
                seen = true;
            }
            k += 1;
        }
        proof {
            assert(av.take(i as int) == t.drop_last());
            assert(av[i as int] == t.last());
        }
        if !seen {
            let ghost before = out@;
            out.push(all[i].clone());
            proof {
                assert(views(out@) =~= views(before).push(all@[i as int]@));
            }
        }
        i += 1;
    }
    proof {
        assert(av.take(all.len() as int) =~= av);
    }
    out
}

/// Taking names keeps the queue and the visited list growing together
/// until something is found.
proof fn lemma_names_run_balance(defs: Seq<DefView>, st: PathState, c: int, dp: nat, ns: Seq<Seq<char>>, start: int, to: Seq<char>)
    requires
        st.found is None,
    ensures
        ({
            let r = names_run(defs, st, c, dp, ns, start, to);
            r.found is None ==> r.queue.len() - r.visited.len() == st.queue.len() - st.visited.len()
        }),
    decreases ns.len(),
{
    if ns.len() > 0 {
        let (st2, stop) = name_step(defs, st, c, dp, ns[0], start, to);
        if !stop && st2.found is None {
            lemma_names_run_balance(defs, st2, c, dp, ns.drop_first(), start, to);
        } else if !stop {
            lemma_names_run_found(defs, st2, c, dp, ns.drop_first(), start, to);
        }
    }
}

/// Once something is found, it stays found.
proof fn lemma_names_run_found(defs: Seq<DefView>, st: PathState, c: int, dp: nat, ns: Seq<Seq<char>>, start: int, to: Seq<char>)
    requires
        st.found is Some,
    ensures
        names_run(defs, st, c, dp, ns, start, to).found is Some,
    decreases ns.len(),
{
    if ns.len() > 0 {
        let (st2, stop) = name_step(defs, st, c, dp, ns[0], start, to);
        if !stop {
            lemma_names_run_found(defs, st2, c, dp, ns.drop_first(), start, to);
        }
    }
}

/// A list of distinct definition indices is no longer than the definitions.
proof fn lemma_visited_bound(v: Seq<usize>, n: nat)
    requires
        v.no_duplicates(),
        forall|k: int| 0 <= k < v.len() ==> #[trigger] v[k] < n,
    ensures
        v.len() <= n,
{
    let vi = v.map_values(|x: usize| x as int);
    assert(vi.no_duplicates()) by {
        assert forall|a: int, b: int| 0 <= a < vi.len() && 0 <= b < vi.len() && a != b implies vi[a] != vi[b] by {
            assert(v[a] != v[b]);
        }
    }
    vi.unique_seq_to_set();
    let r = vstd::set_lib::set_int_range(0, n as int);
    vstd::set_lib::lemma_int_range(0, n as int);
    assert(vi.to_set().subset_of(r)) by {
        assert forall|x: int| vi.to_set().contains(x) implies r.contains(x) by {
            let k = choose|k: int| 0 <= k < vi.len() && vi[k] == x;
            assert(v[k] < n);
        }
    }
    vstd::set_lib::lemma_len_subset(vi.to_set(), r);
}

/// The walk from the start to its end.
fn walk_path(defs: &Vec<SymbolDef>, sources: &Vec<ParsedSource>, start: usize, to: &str, max: usize) -> (w: Walk)
    requires
        start < defs.len(),
        1 <= max <= 5,
        trees_wf(sources@),
        covered(def_views(defs@), sources@),
    ensures
        w.inv(defs.len() as nat),
        w.state() == bfs(def_views(defs@), sources@, first_state(def_views(defs@), start as int), start as int, to@,
            max as nat, defs.len() as nat),
        w.state().queue.len() == 0 || w.state().found is Some,
{
    let ghost dv = def_views(defs@);
    let ghost n = defs.len() as nat;
    let mut w = Walk {
        queue: vec![(start, 0)],
        visited: vec![start],
        prev: Vec::new(),
        names: vec![(start, defs[start].name.clone())],
        found: None,
    };
    proof {
        assert(dv[start as int].name == defs@[start as int].name@);
        let f = first_state(dv, start as int);
        assert(w.state().queue =~= f.queue);
        assert(w.state().visited =~= f.visited);
        assert(w.state().prev =~= f.prev);
        assert(w.state().names =~= f.names);
        assert(w.state() == f);
        assert(w.visited@.no_duplicates());
    }
    let mut fuel: usize = defs.len();
    while w.queue.len() > 0
        invariant
            start < defs.len(),
            1 <= max <= 5,
            n == defs.len(),
            dv == def_views(defs@),
            trees_wf(sources@),
            covered(dv, sources@),
            w.inv(n),
            w.found is None,
            w.queue.len() + n - w.visited.len() <= fuel,
            fuel <= n,
            bfs(dv, sources@, first_state(dv, start as int), start as int, to@, max as nat, n)
                == bfs(dv, sources@, w.state(), start as int, to@, max as nat, fuel as nat),
        decreases fuel,
    {
        proof {
            lemma_visited_bound(w.visited@, n);
        }
        let ghost here = w.state();
        let (c, dp) = w.queue.remove(0);
        proof {
            assert(w.state().queue =~= here.queue.drop_first());
            assert(here.queue[0] == (c as int, dp as nat));
            assert(w.state() == PathState { queue: here.queue.drop_first(), ..here });
        }
        if dp >= max {
            fuel -= 1;
            continue;
        }
        let ns = called_names(defs, sources, c);
        let ghost st1 = w.state();
        run_names(&mut w, defs, c, dp, &ns, start, to);
        proof {
            lemma_names_run_balance(dv, st1, c as int, dp as nat, views(ns@), start as int, to@);
        }
        if w.found.is_some() {
            return w;
        }
        fuel -= 1;
    }
    w
}

/// The definition `d` was reached from.
fn prev_lookup(defs: &Vec<SymbolDef>, w: &Walk, d: usize) -> (r: Option<usize>)
    requires
        d < defs.len(),
        w.inv(defs.len() as nat),
    ensures
        match r {
            Some(x) => prev_of(def_views(defs@), w.state().prev, d as int) == Some(x as int),
            None => prev_of(def_views(defs@), w.state().prev, d as int) is None,
        },
        r matches Some(p) ==> p < defs.len(),
{
    let ghost dv = def_views(defs@);
    let ghost pv = w.state().prev;
    let ghost pr = |i: int| same_key(dv, d as int, pv[i].0);
    proof {
        lemma_first_at(pv.len(), pr);
    }
    let mut i: usize = 0;
    while i < w.prev.len()
        invariant
            i <= w.prev.len(),
            d < defs.len(),
            w.inv(defs.len() as nat),
            dv == def_views(defs@),
            pv == w.state().prev,
            pr == (|i: int| same_key(dv, d as int, pv[i].0)),
            first_at(i as nat, pr) is None,
        decreases w.prev.len() - i,
    {
        let (k, from) = w.prev[i];
        proof {
            assert(pv[i as int] == (k as int, from as int));
        }
        if same_key_of(defs, d, k) {
            proof {
                assert(pr(i as int));
                lemma_first_at_extend((i + 1) as nat, pv.len(), pr);
            }
            return Some(from);
        }
        i += 1;
    }
    None
}

/// The name recorded last for the key of `d`.
fn name_lookup(defs: &Vec<SymbolDef>, w: &Walk, d: usize) -> (r: String)
    requires
        d < defs.len(),
        w.inv(defs.len() as nat),
    ensures
        r@ == name_of(def_views(defs@), w.state().names, d as int),
{
    let ghost dv = def_views(defs@);
    let ghost nv = w.state().names;
    let mut i: usize = w.names.len();
    proof {
        assert(nv.take(i as int) =~= nv);
    }
    while i > 0
        invariant
            i <= w.names.len(),
            d < defs.len(),
            w.inv(defs.len() as nat),
            dv == def_views(defs@),
            nv == w.state().names,
            name_of(dv, nv, d as int) == name_of(dv, nv.take(i as int), d as int),
        decreases i,
    {
        let ghost t = nv.take(i as int);
        proof {
            assert(t.drop_last() =~= nv.take(i - 1));
            assert(t.last() == (w.names@[i - 1].0 as int, w.names@[i - 1].1@));
        }
        if same_key_of(defs, d, w.names[i - 1].0) {
            return w.names[i - 1].1.clone();
        }
        i -= 1;
    }
    proof {
        reveal_strlit("");
        assert(nv.take(0) =~= Seq::<(int, Seq<char>)>::empty());
    }
    String::new()
}

/// The chain text of a finished walk.
fn chain_of(defs: &Vec<SymbolDef>, w: &Walk, start: usize) -> (r: String)
    requires
        start < defs.len(),
        w.inv(defs.len() as nat),
    ensures
        r@ == chain_text(def_views(defs@), w.state(), start as int),
{
    let ghost dv = def_views(defs@);
    let f = match w.found {
        Some(f) => f,
        None => {
            return String::new();
        },
    };
    let ghost total = (w.state().prev.len() + 1) as nat;
    let mut rev: Vec<usize> = vec![f];
    let mut cur = f;
    let mut fuel: u128 = w.prev.len() as u128 + 1;
    proof {
        assert(w.state().prev.len() == w.prev.len());
    }
    loop
        invariant
            start < defs.len(),
            cur < defs.len(),
            f < defs.len(),
            w.inv(defs.len() as nat),
            dv == def_views(defs@),
            forall|k: int| 0 <= k < rev.len() ==> #[trigger] rev@[k] < defs.len(),
            rev@.map_values(|x: usize| x as int) + chain_back(dv, w.state().prev, start as int, cur as int, fuel as nat)
                == seq![f as int] + chain_back(dv, w.state().prev, start as int, f as int, total),
        ensures
            forall|k: int| 0 <= k < rev.len() ==> #[trigger] rev@[k] < defs.len(),
            rev@.map_values(|x: usize| x as int) == seq![f as int] + chain_back(dv, w.state().prev, start as int, f as int, total),
        decreases fuel,
    {
        let ghost rv = rev@.map_values(|x: usize| x as int);
        if fuel == 0 || same_key_of(defs, cur, start) {
            proof {
                assert(chain_back(dv, w.state().prev, start as int, cur as int, fuel as nat) =~= Seq::<int>::empty());
                assert(rv + Seq::<int>::empty() =~= rv);
            }
            break;
        }
        match prev_lookup(defs, w, cur) {
            None => {
                proof {
                    assert(rv + Seq::<int>::empty() =~= rv);
                }
                break;
            },
            Some(p) => {
                rev.push(p);
                proof {
                    assert(rev@.map_values(|x: usize| x as int) =~= rv.push(p as int));
                    assert(chain_back(dv, w.state().prev, start as int, cur as int, fuel as nat)
                        == seq![p as int] + chain_back(dv, w.state().prev, start as int, p as int, (fuel - 1) as nat));
                    assert(rv.push(p as int) + chain_back(dv, w.state().prev, start as int, p as int, (fuel - 1) as nat)
                        =~= rv + (seq![p as int] + chain_back(dv, w.state().prev, start as int, p as int, (fuel - 1) as nat)));
                }
                cur = p;
                fuel -= 1;
            },
        }
    }
    let ghost back = rev@.map_values(|x: usize| x as int);
    let ghost rows = back.reverse().map_values(|d: int| chain_row(dv, w.state().names, d));
    let mut out = String::new();
    let mut i: usize = rev.len();
    let n = rev.len();
    proof {
        assert(rows.take(0) =~= Seq::<Seq<char>>::empty());
    }
    while i > 0
        invariant
            i <= n,
            n == rev.len(),
            w.inv(defs.len() as nat),
            dv == def_views(defs@),
            back == rev@.map_values(|x: usize| x as int),
            forall|k: int| 0 <= k < rev.len() ==> #[trigger] rev@[k] < defs.len(),
            rows == back.reverse().map_values(|d: int| chain_row(dv, w.state().names, d)),
            out@ == join_with(rows.take((n - i) as int), seq!['\n']),
        decreases i,
    {
        let d = rev[i - 1];
        let ghost t = rows.take((n - i + 1) as int);
        proof {
            assert(t.drop_last() =~= rows.take((n - i) as int));
            assert(back.reverse()[(n - i) as int] == back[i - 1]);
            assert(t.last() == chain_row(dv, w.state().names, d as int));
        }
        let ghost before = out@;
        if i < n {
            crate::text::push_char(&mut out, '\n');
        }
        let name = name_lookup(defs, w, d);
        out.append(name.as_str());
        out.append("@");
        out.append(defs[d].rel_file.as_str());
        out.append(":");
        push_decimal(&mut out, defs[d].line);
        proof {
            assert(dv[d as int] == defs@[d as int]@);
            let row = chain_row(dv, w.state().names, d as int);
            if i == n {
                assert(before =~= Seq::<char>::empty());
                assert(out@ =~= row);
                assert(t =~= seq![row]);
            } else {
                assert(out@ =~= before + seq!['\n'] + row);
            }
        }
        i -= 1;
    }
    proof {
        assert(rows.take(n as int) =~= rows);
    }
    out
}

/// The `call_path` answer: the start definition resolved as `call_graph`
/// resolves it, the walk, and the chain it found.
pub fn call_path_answer(args: &CallPath, p: &GraphProject) -> (r: Result<String, ToolError>)
    requires
        p.wf(),
    ensures
        match path_outcome(*args, *p) {
            Err(m) => r matches Err(e) && e.kind == ToolErrorKind::NotFound && e.message@ == m,
            Ok(t) => r matches Ok(x) && x@ == t,
        },
        ({
            let dv = def_views(p.defs@);
            match target_index(dv, views(p.canonical@), p.target_canonical@, args.symbol@) {
                Some(s) => {
                    let end = bfs(dv, p.sources@, first_state(dv, s), s, args.to@, path_depth(*args), dv.len());
                    end.queue.len() == 0 || end.found is Some
                },
                None => true,
            }
        }),
{
    let start = match find_target_index(&p.defs, &p.canonical, p.target_canonical.as_str(), args.symbol.as_str()) {
        Some(s) => s,
        None => {
            let mut msg = String::from_str("Symbol '");
            msg.append(args.symbol.as_str());
            msg.append("' not found in ");
            msg.append(args.file_path.as_str());
            return Err(ToolError { kind: ToolErrorKind::NotFound, message: msg });
        },
    };
    proof {
        let dv = def_views(p.defs@);
        let cv = views(p.canonical@);
        lemma_first_at(dv.len(), crate::call_graph::named_in(dv, cv, p.target_canonical@, args.symbol@));
        lemma_first_at(dv.len(), crate::call_graph::named(dv, args.symbol@));
    }
    let max: usize = match args.depth {
        Some(v) => if v < 1 { 1 } else if v > 5 { 5 } else { v as usize },
        None => 5,
    };
    let w = walk_path(&p.defs, &p.sources, start, args.to.as_str(), max);
    let chain = chain_of(&p.defs, &w, start);
    let mut out = String::from_str("{\"chain\":");
    append_quoted(&mut out, chain.as_str());
    out.append(",\"from\":");
    append_quoted(&mut out, args.symbol.as_str());
    out.append(",\"reachable\":");
    out.append(if w.found.is_some() { "true" } else { "false" });
    out.append(",\"to\":");
    append_quoted(&mut out, args.to.as_str());
    out.append("}");
    proof {
        assert(out@ =~= path_json(*args, w.state().found is Some, chain@));
    }
    Ok(out)
}

} // verus!
