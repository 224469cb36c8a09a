//! The `depends_on` query: does one file reach another through includes?
//! A breadth-first walk that asks for each file's direct dependencies in
//! turn (the caller reads them), then the chain found, start first.

use vstd::prelude::*;
use vstd::string::StringExecFns;
use crate::call_graph::{path_eq, same_path};
use crate::rows::{views, join_with};
use crate::text::{first_at, lemma_first_at, lemma_first_at_extend};
use crate::json::{json_quoted, append_quoted};

verus! {

/// A walk in progress: files visited, each reached file with the file it
/// was reached from, the queue, and whether the target was reached.
pub struct DependsWalk {
    pub start: String,
    pub target: String,
    pub visited: Vec<String>,
    pub prev: Vec<(String, String)>,
    pub queue: Vec<String>,
    pub reachable: bool,
    pub done: bool,
}

/// A walk as plain values.
pub struct WalkView {
    pub visited: Seq<Seq<char>>,
    pub prev: Seq<(Seq<char>, Seq<char>)>,
    pub queue: Seq<Seq<char>>,
    pub reachable: bool,
    pub done: bool,
}

impl DependsWalk {
    /// The walk as plain values.
    pub open spec fn state(&self) -> WalkView {
        WalkView {
            visited: views(self.visited@),
            prev: self.prev@.map_values(|e: (String, String)| (e.0@, e.1@)),
            queue: views(self.queue@),
            reachable: self.reachable,
            done: self.done,
        }
    }
}

/// `p` is among the visited paths.
pub open spec fn path_seen(visited: Seq<Seq<char>>, p: Seq<char>) -> bool {
    exists|k: int| 0 <= k < visited.len() && #[trigger] path_eq(p, visited[k])
}

/// The first walk state: the start visited and queued; reachable already
/// when the start is the target.
pub open spec fn walk_start(start: Seq<char>, target: Seq<char>) -> WalkView {
    WalkView { visited: seq![start], prev: seq![], queue: seq![start], reachable: path_eq(start, target), done: false }
}

/// The file the walk asks about next, and the walk once it is taken off the
/// queue: none when the queue is empty (the walk is over); when it is the
/// target, the walk is over and reachable.
pub open spec fn walk_take(w: WalkView, target: Seq<char>) -> (Option<Seq<char>>, WalkView) {
    if w.done || w.queue.len() == 0 {
        (None, WalkView { done: true, ..w })
    } else {
        let cur = w.queue[0];
        let rest = WalkView { queue: w.queue.drop_first(), ..w };
        if path_eq(cur, target) {
            (None, WalkView { reachable: true, done: true, ..rest })
        } else {
            (Some(cur), rest)
        }
    }
}

/// Records the direct dependencies of `cur`, first to last: each not yet
/// visited is visited, reached from `cur`, and queued.
pub open spec fn walk_deps(w: WalkView, cur: Seq<char>, deps: Seq<Seq<char>>) -> WalkView
    decreases deps.len(),
{
    if deps.len() == 0 {
        w
    } else {
        let before = walk_deps(w, cur, deps.drop_last());
        let d = deps.last();
        if path_seen(before.visited, d) {
            before
        } else {
            WalkView {
                visited: before.visited.push(d),
                prev: before.prev.push((d, cur)),
                queue: before.queue.push(d),
                ..before
            }
        }
    }
}

/// The walk after `cur`'s dependencies: over and reachable once the target
/// is visited.
pub open spec fn walk_feed(w: WalkView, cur: Seq<char>, deps: Seq<Seq<char>>, target: Seq<char>) -> WalkView {
    let after = walk_deps(w, cur, deps);
    if path_seen(after.visited, target) {
        WalkView { reachable: true, done: true, ..after }
    } else {
        after
    }
}

/// Starts a walk.
pub fn depends_start(start: &str, target: &str) -> (w: DependsWalk)
    ensures
        w.state() == walk_start(start@, target@),
        w.start@ == start@,
        w.target@ == target@,
{
    let s = String::from_str(start);
    let w = DependsWalk {
        start: String::from_str(start),
        target: String::from_str(target),
        visited: vec![s.clone()],
        prev: Vec::new(),
        queue: vec![s],
        reachable: same_path(start, target),
        done: false,
    };
    proof {
        let v = walk_start(start@, target@);
        assert(w.state().visited =~= v.visited);
        assert(w.state().prev =~= v.prev);
        assert(w.state().queue =~= v.queue);
    }
    w
}

/// Takes the next file off the queue: the file whose dependencies the walk
/// needs, or none once the walk is over.
pub fn depends_next(w: &mut DependsWalk) -> (r: Option<String>)
    ensures
        ({
            let (want, next) = walk_take(old(w).state(), old(w).target@);
            &&& final(w).state() == next
            &&& match want {
                Some(p) => r matches Some(s) && s@ == p,
                None => r is None,
            }
        }),
        final(w).start == old(w).start,
        final(w).target == old(w).target,
{
    let ghost before = w.state();
    if w.done || w.queue.len() == 0 {
        w.done = true;
        return None;
    }
    let cur = w.queue.remove(0);
    proof {
        assert(w.state().queue =~= before.queue.drop_first());
        assert(cur@ == before.queue[0]);
    }
    if same_path(cur.as_str(), w.target.as_str()) {
        w.reachable = true;
        w.done = true;
        return None;
    }
    Some(cur)
}

/// Whether `p` was visited.
fn seen(visited: &Vec<String>, p: &str) -> (r: bool)
    ensures
        r == path_seen(views(visited@), p@),
{
    let mut k: usize = 0;
    while k < visited.len()
        invariant
            k <= visited.len(),
            forall|j: int| 0 <= j < k ==> !path_eq(p@, #[trigger] views(visited@)[j]),
        decreases visited.len() - k,
    {
        let hit = same_path(p, visited[k].as_str());
        proof {
            assert(views(visited@)[k as int] == visited@[k as int]@);
        }
        if hit {
            return true;
        }
        k += 1;
    }
    false
}

/// Records the direct dependencies of `cur` (what the caller read for the
/// file `depends_next` gave).
pub fn depends_feed(w: &mut DependsWalk, cur: &str, deps: &Vec<String>)
    ensures
        final(w).state() == walk_feed(old(w).state(), cur@, views(deps@), old(w).target@),
        final(w).start == old(w).start,
        final(w).target == old(w).target,
{
    let ghost w0 = w.state();
    let ghost dv = views(deps@);
    let mut i: usize = 0;
    proof {
        assert(dv.take(0) =~= Seq::<Seq<char>>::empty());
    }
    while i < deps.len()
        invariant
            i <= deps.len(),
            dv == views(deps@),
            w.start == old(w).start,
            w.target == old(w).target,
            w.reachable == w0.reachable,
            w.done == w0.done,
            w.state() == walk_deps(w0, cur@, dv.take(i as int)),
        decreases deps.len() - i,
    {
        let ghost before = w.state();
        proof {
            assert(dv.take(i + 1).drop_last() =~= dv.take(i as int));
            assert(dv.take(i + 1).last() == deps@[i as int]@);
        }
        if !seen(&w.visited, deps[i].as_str()) {
            w.visited.push(deps[i].clone());
            w.prev.push((deps[i].clone(), String::from_str(cur)));
            w.queue.push(deps[i].clone());
            proof {
                assert(w.state().visited =~= before.visited.push(deps@[i as int]@));
                assert(w.state().prev =~= before.prev.push((deps@[i as int]@, cur@)));
                assert(w.state().queue =~= before.queue.push(deps@[i as int]@));
            }
        }
        i += 1;
    }
    proof {
        assert(dv.take(deps.len() as int) =~= dv);
    }
    if seen(&w.visited, w.target.as_str()) {
        w.reachable = true;
        w.done = true;
    }
}

/// The file `d` was reached from (the first record for it).
pub open spec fn reached_from(prev: Seq<(Seq<char>, Seq<char>)>, d: Seq<char>) -> Option<Seq<char>> {
    match first_at(prev.len(), |i: int| path_eq(d, prev[i].0)) {
        Some(i) => Some(prev[i].1),
        None => None,
    }
}

/// The way back from `cur`, at most `fuel` steps, stopping after the start.
pub open spec fn back_from(prev: Seq<(Seq<char>, Seq<char>)>, start: Seq<char>, cur: Seq<char>, fuel: nat) -> Seq<Seq<char>>
    decreases fuel,
{
    if fuel == 0 {
        seq![]
    } else {
        match reached_from(prev, cur) {
            Some(p) => if path_eq(p, start) { seq![p] } else { seq![p] + back_from(prev, start, p, (fuel - 1) as nat) },
            None => seq![],
        }
    }
}

/// The chain of a finished walk, start first: the target, the files back
/// to the start (for at most as many steps as there are records), and the
/// start itself when the way back did not end there; empty when the target
/// was not reached.
pub open spec fn depends_chain_of(w: WalkView, start: Seq<char>, target: Seq<char>) -> Seq<Seq<char>> {
    if !w.reachable {
        seq![]
    } else {
        let rev = seq![target] + back_from(w.prev, start, target, (w.prev.len() + 1) as nat);
        let full = if !path_eq(rev.last(), start) && !path_eq(start, target) { rev.push(start) } else { rev };
        full.reverse()
    }
}

/// The file a walk record names for `d`.
fn reached_lookup(prev: &Vec<(String, String)>, d: &str) -> (r: Option<String>)
    ensures
        match reached_from(prev@.map_values(|e: (String, String)| (e.0@, e.1@)), d@) {
            Some(p) => r matches Some(s) && s@ == p,
            None => r is None,
        },
{
    let ghost pv = prev@.map_values(|e: (String, String)| (e.0@, e.1@));
    let ghost pr = |i: int| path_eq(d@, pv[i].0);
    let mut i: usize = 0;
    while i < prev.len()
        invariant
            i <= prev.len(),
            pv == prev@.map_values(|e: (String, String)| (e.0@, e.1@)),
            pr == (|i: int| path_eq(d@, pv[i].0)),
            first_at(i as nat, pr) is None,
        decreases prev.len() - i,
    {
        let hit = same_path(d, prev[i].0.as_str());
        proof {
            assert(pv[i as int] == (prev@[i as int].0@, prev@[i as int].1@));
        }
        if hit {
            proof {
                assert(pr(i as int));
                lemma_first_at_extend((i + 1) as nat, prev.len() as nat, pr);
            }
            return Some(prev[i].1.clone());
        }
        i += 1;
    }
    None
}

/// The chain of a finished walk, start first.
pub fn depends_chain(w: &DependsWalk) -> (r: Vec<String>)
    ensures
        views(r@) == depends_chain_of(w.state(), w.start@, w.target@),
{
    if !w.reachable {
        return Vec::new();
    }
    let ghost pv = w.state().prev;
    let ghost total = (pv.len() + 1) as nat;
    let mut rev: Vec<String> = vec![w.target.clone()];
    let mut cur = w.target.clone();
    let mut fuel: u128 = w.prev.len() as u128 + 1;
    proof {
        assert(pv.len() == w.prev.len());
        assert(views(rev@) =~= seq![w.target@]);
    }
    loop
        invariant_except_break
            views(rev@) + back_from(pv, w.start@, cur@, fuel as nat)
                == seq![w.target@] + back_from(pv, w.start@, w.target@, total),
        invariant
            pv == w.state().prev,
        ensures
            views(rev@) == seq![w.target@] + back_from(pv, w.start@, w.target@, total),
        decreases fuel,
    {
        let ghost rv = views(rev@);
        if fuel == 0 {
            proof {
                assert(rv + Seq::<Seq<char>>::empty() =~= rv);
            }
            break;
        }
        match reached_lookup(&w.prev, cur.as_str()) {
            None => {
                proof {
                    assert(rv + Seq::<Seq<char>>::empty() =~= rv);
                }
                break;
            },
            Some(p) => {
                let at_start = same_path(p.as_str(), w.start.as_str());
                let ghost back = back_from(pv, w.start@, p@, (fuel - 1) as nat);
                rev.push(p.clone());
                proof {
                    assert(views(rev@) =~= rv.push(p@));
                }
                if at_start {
                    proof {
                        assert(back_from(pv, w.start@, cur@, fuel as nat) == seq![p@]);
                        assert(rv.push(p@) =~= rv + seq![p@]);
                    }
                    break;
                }
                proof {
                    assert(rv.push(p@) + back =~= rv + (seq![p@] + back));
                }
                cur = p;
                fuel -= 1;
            },
        }
    }
    let ghost rv = views(rev@);
    let n = rev.len();
    let last_is_start = same_path(rev[n - 1].as_str(), w.start.as_str());
    if !last_is_start && !same_path(w.start.as_str(), w.target.as_str()) {
        rev.push(w.start.clone());
        proof {
            assert(views(rev@) =~= rv.push(w.start@));
        }
    }
    proof {
        assert(rv.last() == rev@[n - 1]@);
    }
    let ghost full = views(rev@);
    let mut out: Vec<String> = Vec::new();
    let mut i: usize = rev.len();
    proof {
        assert(views(out@) =~= full.reverse().take(0));
    }
    while i > 0
        invariant
            i <= rev.len(),
            full == views(rev@),
            views(out@) == full.reverse().take((rev.len() - i) as int),
        decreases i,
    {
        let ghost before = out@;
        out.push(rev[i - 1].clone());
        proof {
            assert(full.reverse()[(rev.len() - i) as int] == full[i - 1]);
            assert(views(out@) =~= views(before).push(rev@[i - 1]@));
            assert(full.reverse().take((rev.len() - i + 1) as int) =~= full.reverse().take((rev.len() - i) as int).push(full.reverse()[(rev.len() - i) as int]));
        }
        i -= 1;
    }
    proof {
        assert(full.reverse().take(rev.len() as int) =~= full.reverse());
    }
    out
}

/// The answer: the chain, the two files as shown, a hint, and whether the
/// target is reachable, keys in order.
pub open spec fn depends_json(from: Seq<char>, to: Seq<char>, reachable: bool, chain: Seq<Seq<char>>) -> Seq<char> {
    "{\"chain\":"@ + json_quoted(join_with(chain, seq!['\n'])) + ",\"from\":"@ + json_quoted(from) + ",\"hint\":"@
        + json_quoted(if reachable {
            "reachable; adding the edge closes a cycle — pick the other direction or break it"@
        } else {
            "not reachable; safe to add the include"@
        }) + ",\"reachable\":"@ + (if reachable { "true"@ } else { "false"@ }) + ",\"to\":"@ + json_quoted(to) + "}"@
}

/// Writes the answer of a finished walk, with the chain's files and the
/// two ends as shown.
pub fn depends_answer(from: &str, to: &str, reachable: bool, chain: &Vec<String>) -> (r: String)
    ensures
        r@ == depends_json(from@, to@, reachable, views(chain@)),
{
    proof {
        reveal_strlit("\n");
        assert("\n"@ =~= seq!['\n']);
    }
    let joined = crate::rows::join_strings(chain, "\n");
    let mut out = String::from_str("{\"chain\":");
    append_quoted(&mut out, joined.as_str());
    out.append(",\"from\":");
    append_quoted(&mut out, from);
    out.append(",\"hint\":");
    append_quoted(&mut out, if reachable {
        "reachable; adding the edge closes a cycle — pick the other direction or break it"
    } else {
        "not reachable; safe to add the include"
    });
    out.append(",\"reachable\":");
    out.append(if reachable { "true" } else { "false" });
    out.append(",\"to\":");
    append_quoted(&mut out, to);
    out.append("}");
    proof {
        assert(out@ =~= depends_json(from@, to@, reachable, views(chain@)));
    }
    out
}

} // verus!
