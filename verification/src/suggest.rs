//! Compact contextual errors that help an agent self-correct in one step:
//! did-you-mean file suggestions for missing paths and candidate lists for
//! unknown symbols.

use vstd::prelude::*;
use vstd::string::StringExecFns;
use crate::error::{ToolError, ToolErrorKind};
use crate::rows::{join_strings, join_with, views};
use crate::sort::{sort_stable, sorted_by, Ordered};
use crate::text::{
    chars_of, compare_chars, contains_chars, contains_seq, lowercase, seq_lt, seq_three_way,
    string_from_chars, to_lower,
};

verus! {

/// The smaller of two naturals.
pub open spec fn min_nat(a: nat, b: nat) -> nat {
    if a <= b {
        a
    } else {
        b
    }
}

/// Levenshtein distance between two character sequences.
pub open spec fn levenshtein(a: Seq<char>, b: Seq<char>) -> nat
    decreases a.len() + b.len(),
{
    if a.len() == 0 {
        b.len()
    } else if b.len() == 0 {
        a.len()
    } else {
        let cost: nat = if a.last() == b.last() {
            0
        } else {
            1
        };
        min_nat(
            min_nat(
                levenshtein(a.drop_last(), b.drop_last()) + cost,
                levenshtein(a.drop_last(), b) + 1,
            ),
            levenshtein(a, b.drop_last()) + 1,
        )
    }
}

/// The distance `edit_distance` reports: 3 when the lengths differ by more
/// than 2, the Levenshtein distance otherwise.
pub open spec fn bounded_distance(a: Seq<char>, b: Seq<char>) -> nat {
    if a.len() > b.len() + 2 || b.len() > a.len() + 2 {
        3
    } else {
        levenshtein(a, b)
    }
}

/// The Levenshtein distance never exceeds the longer length.
pub proof fn lemma_levenshtein_bound(a: Seq<char>, b: Seq<char>)
    ensures
        levenshtein(a, b) <= if a.len() >= b.len() { a.len() } else { b.len() },
    decreases a.len() + b.len(),
{
    if a.len() > 0 && b.len() > 0 {
        lemma_levenshtein_bound(a.drop_last(), b.drop_last());
    }
}

/// The Levenshtein distance is at least the difference of the lengths.
proof fn lemma_levenshtein_length_gap(a: Seq<char>, b: Seq<char>)
    ensures
        levenshtein(a, b) >= a.len() - b.len(),
        levenshtein(a, b) >= b.len() - a.len(),
    decreases a.len() + b.len(),
{
    if a.len() > 0 && b.len() > 0 {
        lemma_levenshtein_length_gap(a.drop_last(), b.drop_last());
        lemma_levenshtein_length_gap(a.drop_last(), b);
        lemma_levenshtein_length_gap(a, b.drop_last());
    }
}

/// The Levenshtein distance is symmetric.
proof fn lemma_levenshtein_symmetric(a: Seq<char>, b: Seq<char>)
    ensures
        levenshtein(a, b) == levenshtein(b, a),
    decreases a.len() + b.len(),
{
    if a.len() > 0 && b.len() > 0 {
        lemma_levenshtein_symmetric(a.drop_last(), b.drop_last());
        lemma_levenshtein_symmetric(a.drop_last(), b);
        lemma_levenshtein_symmetric(a, b.drop_last());
    }
}

/// The distance reported agrees with the Levenshtein distance up to 2: it
/// never exceeds it, it is at least the smaller of it and 3, it is 2 or
/// less exactly when the Levenshtein distance is, and it is symmetric.
pub proof fn law_edit_distance(a: Seq<char>, b: Seq<char>)
    ensures
        min_nat(levenshtein(a, b), 3) <= bounded_distance(a, b),
        bounded_distance(a, b) <= levenshtein(a, b),
        bounded_distance(a, b) <= 2 <==> levenshtein(a, b) <= 2,
        bounded_distance(a, b) == bounded_distance(b, a),
{
    lemma_levenshtein_length_gap(a, b);
    lemma_levenshtein_symmetric(a, b);
}

/// Levenshtein distance between `a` and `b`, cut off at 3 when the lengths
/// differ by more than 2.
pub fn edit_distance(a: &str, b: &str) -> (d: usize)
    ensures
        d == bounded_distance(a@, b@),
{
    let a = chars_of(a);
    let b = chars_of(b);
    if a.len() > b.len() && a.len() - b.len() > 2 {
        return 3;
    }
    if b.len() > a.len() && b.len() - a.len() > 2 {
        return 3;
    }
    let mut prev: Vec<usize> = Vec::new();
    let mut j: usize = 0;
    loop
        invariant_except_break
            prev@.len() == j,
            forall|k: int| 0 <= k < j ==> prev@[k] == levenshtein(a@.take(0), b@.take(k)),
        invariant
            j <= b.len(),
        ensures
            prev@.len() == b.len() + 1,
            forall|k: int| 0 <= k <= b.len() ==> prev@[k] == levenshtein(a@.take(0), b@.take(k)),
        decreases b.len() - j,
    {
        proof {
            assert(a@.take(0).len() == 0);
        }
        prev.push(j);
        if j == b.len() {
            break;
        }
        j += 1;
    }
    let blen = b.len();
    proof {
        assert(prev@.len() == blen + 1);
        assert(prev.len() == blen + 1);
    }
    let mut i: usize = 0;
    while i < a.len()
        invariant
            i <= a.len(),
            blen == b.len(),
            prev@.len() == blen + 1,
            forall|k: int| 0 <= k <= blen ==> prev@[k] == levenshtein(a@.take(i as int), b@.take(k)),
        decreases a.len() - i,
    {
        let ca = a[i];
        let mut cur: Vec<usize> = Vec::new();
        proof {
            assert(a@.take(i + 1).len() == i + 1);
        }
        cur.push(i + 1);
        let mut j: usize = 0;
        while j < blen
            invariant
                i < a.len(),
                blen == b.len(),
                j <= blen,
                ca == a@[i as int],
                prev@.len() == blen + 1,
                forall|k: int| 0 <= k <= blen ==> prev@[k] == levenshtein(a@.take(i as int), b@.take(k)),
                cur@.len() == j + 1,
                forall|k: int| 0 <= k <= j ==> cur@[k] == levenshtein(a@.take(i + 1), b@.take(k)),
            decreases blen - j,
        {
            let cb = b[j];
            proof {
                lemma_levenshtein_bound(a@.take(i as int), b@.take(j as int));
                lemma_levenshtein_bound(a@.take(i as int), b@.take(j + 1));
                lemma_levenshtein_bound(a@.take(i + 1), b@.take(j as int));
            }
            let cost: usize = if ca != cb {
                1
            } else {
                0
            };
            let sub: u128 = prev[j] as u128 + cost as u128;
            let del: u128 = prev[j + 1] as u128 + 1;
            let ins: u128 = cur[j] as u128 + 1;
            let m1 = if sub <= del {
                sub
            } else {
                del
            };
            let m2 = if m1 <= ins {
                m1
            } else {
                ins
            };
            proof {
                lemma_levenshtein_bound(a@.take(i + 1), b@.take(j + 1));
                assert(b@.take(j + 1).len() == j + 1);
            }
            let m = m2 as usize;
            proof {
                let a2 = a@.take(i + 1);
                let b2 = b@.take(j + 1);
                assert(a2.drop_last() =~= a@.take(i as int));
                assert(b2.drop_last() =~= b@.take(j as int));
                assert(a2.last() == ca);
                assert(b2.last() == cb);
            }
            cur.push(m);
            j += 1;
        }
        prev = cur;
        i += 1;
    }
    proof {
        assert(a@.take(a.len() as int) =~= a@);
        assert(b@.take(blen as int) =~= b@);
    }
    prev[blen]
}


/// Position of the last occurrence of `c` in `s`.
pub open spec fn last_index_of(s: Seq<char>, c: char) -> Option<int>
    decreases s.len(),
{
    if s.len() == 0 {
        None
    } else if s.last() == c {
        Some(s.len() - 1)
    } else {
        last_index_of(s.drop_last(), c)
    }
}

/// A file name without its last extension.
pub open spec fn stem(name: Seq<char>) -> Seq<char> {
    match last_index_of(name, '.') {
        Some(i) => name.take(i),
        None => name,
    }
}

/// The part of `name` before its last `.`, or all of it.
fn stem_of(name: &str) -> (r: String)
    ensures
        r@ == stem(name@),
{
    let cs = chars_of(name);
    let mut i: usize = cs.len();
    proof {
        assert(cs@.take(cs.len() as int) =~= cs@);
    }
    while i > 0
        invariant
            i <= cs.len(),
            cs@ == name@,
            last_index_of(name@, '.') == last_index_of(cs@.take(i as int), '.'),
        decreases i,
    {
        if cs[i - 1] == '.' {
            proof {
                assert(cs@.take(i as int).last() == '.');
            }
            let mut out: Vec<char> = Vec::new();
            let mut k: usize = 0;
            while k < i - 1
                invariant
                    k <= i - 1,
                    i <= cs.len(),
                    out@ == cs@.take(k as int),
                decreases i - 1 - k,
            {
                out.push(cs[k]);
                k += 1;
                proof {
                    assert(out@ =~= cs@.take(k as int));
                }
            }
            return string_from_chars(&out);
        }
        proof {
            assert(cs@.take(i as int).drop_last() =~= cs@.take(i - 1));
        }
        i -= 1;
    }
    proof {
        assert(cs@.take(0).len() == 0);
    }
    string_from_chars(&cs)
}

impl Ordered for (u8, String) {
    open spec fn before(&self, other: &Self) -> bool {
        self.0 < other.0 || (self.0 == other.0 && seq_lt(self.1@, other.1@))
    }

    fn is_before(&self, other: &Self) -> (r: bool) {
        if self.0 < other.0 {
            true
        } else if self.0 > other.0 {
            false
        } else {
            let a = chars_of(self.1.as_str());
            let b = chars_of(other.1.as_str());
            let c = compare_chars(&a, &b);
            proof {
                crate::text::lemma_seq_lt_total(a@, b@);
            }
            c == -1
        }
    }
}

/// How closely a candidate symbol matches the wanted one (both lowercased):
/// 0 equal, 1 one contains the other, 2 within edit distance 2.
pub open spec fn symbol_score(candidate: Seq<char>, wanted: Seq<char>) -> Option<u8> {
    if candidate == wanted {
        Some(0u8)
    } else if contains_seq(candidate, wanted) || contains_seq(wanted, candidate) {
        Some(1u8)
    } else if bounded_distance(candidate, wanted) <= 2 {
        Some(2u8)
    } else {
        None
    }
}

/// The scored candidates, in the order given.
pub open spec fn scored_symbols(candidates: Seq<String>, wanted: Seq<char>) -> Seq<(u8, String)>
    decreases candidates.len(),
{
    if candidates.len() == 0 {
        seq![]
    } else {
        let rest = scored_symbols(candidates.drop_last(), wanted);
        match symbol_score(lowercase(candidates.last()@), wanted) {
            Some(score) => rest.push((score, candidates.last())),
            None => rest,
        }
    }
}

/// The first `n` elements of `s`, or all of them when there are fewer.
pub open spec fn take_at_most<T>(s: Seq<T>, n: nat) -> Seq<T> {
    if n <= s.len() {
        s.take(n as int)
    } else {
        s
    }
}

/// The names of a list of scored entries.
pub open spec fn scored_names(s: Seq<(u8, String)>) -> Seq<Seq<char>> {
    s.map_values(|p: (u8, String)| p.1@)
}

/// The message of `unknown_symbol_err`.
pub open spec fn unknown_symbol_message(symbol: Seq<char>, candidates: Seq<String>, file: Seq<char>) -> Seq<char> {
    let list = scored_names(take_at_most(sorted_by(scored_symbols(candidates, lowercase(symbol))), 5));
    let head = "Symbol '"@ + symbol + "' not found in "@ + file;
    let middle = if list.len() == 0 {
        Seq::<char>::empty()
    } else {
        "; candidates: "@ + join_with(list, ", "@)
    };
    head + middle + "; hint: code_map the dir or symbol_at_line the location"@
}

/// The names of the first `n` entries.
fn first_names(s: &Vec<(u8, String)>, n: usize) -> (r: Vec<String>)
    ensures
        views(r@) == scored_names(take_at_most(s@, n as nat)),
{
    let end = if n <= s.len() {
        n
    } else {
        s.len()
    };
    let mut r: Vec<String> = Vec::new();
    let mut i: usize = 0;
    while i < end
        invariant
            i <= end,
            end <= s.len(),
            views(r@) == scored_names(s@.take(i as int)),
        decreases end - i,
    {
        let ghost old_r = r@;
        let name = s[i].1.clone();
        r.push(name);
        proof {
            assert(views(r@) =~= views(old_r).push(s@[i as int].1@));
        }
        i += 1;
        proof {
            assert(views(r@) =~= scored_names(s@.take(i as int)));
        }
    }
    proof {
        if n > s@.len() {
            assert(s@.take(end as int) =~= s@);
        }
    }
    r
}

/// Error for an unknown symbol, listing up to 5 close candidates from the file.
pub fn unknown_symbol_err(symbol: &str, candidates: &Vec<String>, file: &str) -> (e: ToolError)
    ensures
        e.kind == ToolErrorKind::NotFound,
        e.message@ == unknown_symbol_message(symbol@, candidates@, file@),
{
    let lower = to_lower(symbol);
    let lower_chars = chars_of(lower.as_str());
    let mut scored: Vec<(u8, String)> = Vec::new();
    let mut i: usize = 0;
    while i < candidates.len()
        invariant
            i <= candidates.len(),
            lower_chars@ == lowercase(symbol@),
            lower@ == lowercase(symbol@),
            scored@ == scored_symbols(candidates@.take(i as int), lowercase(symbol@)),
        decreases candidates.len() - i,
    {
        let c = &candidates[i];
        let cl = to_lower(c.as_str());
        let cl_chars = chars_of(cl.as_str());
        proof {
            assert(candidates@.take(i + 1).drop_last() =~= candidates@.take(i as int));
            assert(candidates@.take(i + 1).last() == candidates@[i as int]);
        }
        if compare_chars(&cl_chars, &lower_chars) == 0 {
            scored.push((0u8, c.clone()));
        } else if contains_chars(&cl_chars, &lower_chars) || contains_chars(&lower_chars, &cl_chars) {
            scored.push((1u8, c.clone()));
        } else if edit_distance(cl.as_str(), lower.as_str()) <= 2 {
            scored.push((2u8, c.clone()));
        }
        i += 1;
    }
    proof {
        assert(candidates@.take(candidates.len() as int) =~= candidates@);
    }
    let sorted = sort_stable(scored);
    let list = first_names(&sorted, 5);
    let mut msg = String::from_str("Symbol '");
    msg.append(symbol);
    msg.append("' not found in ");
    msg.append(file);
    if list.len() > 0 {
        msg.append("; candidates: ");
        let joined = join_strings(&list, ", ");
        msg.append(joined.as_str());
    }
    msg.append("; hint: code_map the dir or symbol_at_line the location");
    proof {
        assert(msg@ =~= unknown_symbol_message(symbol@, candidates@, file@));
    }
    ToolError { kind: ToolErrorKind::NotFound, message: msg }
}


/// The last component of a path, as `Path::file_name` reads it (`None` for
/// an empty path, a root, or a path ending in `..`).
pub uninterp spec fn path_file_name(p: Seq<char>) -> Option<Seq<char>>;

/// The file name of a path.
///
/// Wraps `std::path::Path::file_name`; the component it picks depends on the
/// path text alone, so the contract names it `path_file_name`. A `&str` path
/// is valid UTF-8, so the name always converts back to a string.
#[verifier::external_body]
pub(crate) fn file_name_of(p: &str) -> (r: Option<String>)
    ensures
        match r {
            Some(n) => path_file_name(p@) == Some(n@),
            None => path_file_name(p@) is None,
        },
{
    match std::path::Path::new(p).file_name() {
        Some(name) => match name.to_str() {
            Some(text) => Some(text.to_string()),
            None => None,
        },
        None => None,
    }
}

/// A project file offered as a suggestion: its file name and its
/// repo-relative path.
pub struct FileCandidate {
    pub name: String,
    pub rel: String,
}

/// How closely a project file name matches the wanted one: 0 equal, 1 equal
/// ignoring case, 2 one contains the other, 3 stems within edit distance 2.
pub open spec fn file_score(name: Seq<char>, wanted: Seq<char>) -> Option<u8> {
    if name == wanted {
        Some(0u8)
    } else if lowercase(name) == lowercase(wanted) {
        Some(1u8)
    } else if contains_seq(name, wanted) || contains_seq(wanted, name) {
        Some(2u8)
    } else if bounded_distance(lowercase(stem(name)), lowercase(stem(wanted))) <= 2 {
        Some(3u8)
    } else {
        None
    }
}

/// The scored files, in the order given.
pub open spec fn scored_files(files: Seq<FileCandidate>, wanted: Seq<char>) -> Seq<(u8, String)>
    decreases files.len(),
{
    if files.len() == 0 {
        seq![]
    } else {
        let rest = scored_files(files.drop_last(), wanted);
        match file_score(files.last().name@, wanted) {
            Some(score) => rest.push((score, files.last().rel)),
            None => rest,
        }
    }
}

/// Scoring a longer prefix only appends entries.
proof fn lemma_scored_files_prefix(files: Seq<FileCandidate>, wanted: Seq<char>, i: int, j: int)
    requires
        0 <= i <= j <= files.len(),
    ensures
        scored_files(files.take(i), wanted).len() <= scored_files(files.take(j), wanted).len(),
        scored_files(files.take(j), wanted).take(scored_files(files.take(i), wanted).len() as int)
            == scored_files(files.take(i), wanted),
    decreases j - i,
{
    let si = scored_files(files.take(i), wanted);
    if i == j {
        assert(si.take(si.len() as int) =~= si);
    } else {
        lemma_scored_files_prefix(files, wanted, i, j - 1);
        assert(files.take(j).drop_last() =~= files.take(j - 1));
        let sj1 = scored_files(files.take(j - 1), wanted);
        let sj = scored_files(files.take(j), wanted);
        assert(sj.take(si.len() as int) =~= sj1.take(si.len() as int));
    }
}

/// The file name `missing_file_err` matches against: the path's last
/// component, or the whole path when it has none.
pub open spec fn wanted_name(path: Seq<char>) -> Seq<char> {
    match path_file_name(path) {
        Some(n) => n,
        None => path,
    }
}

/// The message of `missing_file_err`: the first 20 matching files (in the
/// order given) are ranked by score, then path, and the best 3 suggested.
pub open spec fn missing_file_message(path: Seq<char>, files: Seq<FileCandidate>) -> Seq<char> {
    let collected = take_at_most(scored_files(files, wanted_name(path)), 20);
    let list = scored_names(take_at_most(sorted_by(collected), 3));
    let middle = if list.len() == 0 {
        Seq::<char>::empty()
    } else {
        "; did you mean: "@ + join_with(list, ", "@)
    };
    "Path does not exist: "@ + path + middle + "; hint: use a repo-relative path from code_map"@
}

/// Error for a missing path with up to 3 did-you-mean suggestions drawn
/// from `files`, the project's files in walk order.
pub fn missing_file_err(path_str: &str, files: &Vec<FileCandidate>) -> (e: ToolError)
    ensures
        e.kind == ToolErrorKind::NotFound,
        e.message@ == missing_file_message(path_str@, files@),
{
    let file_name = match file_name_of(path_str) {
        Some(n) => n,
        None => String::from_str(path_str),
    };
    let ghost wanted = wanted_name(path_str@);
    let wanted_chars = chars_of(file_name.as_str());
    let wanted_lower = to_lower(file_name.as_str());
    let wanted_lower_chars = chars_of(wanted_lower.as_str());
    let wanted_stem = stem_of(file_name.as_str());
    let wanted_stem_lower = to_lower(wanted_stem.as_str());
    let mut scored: Vec<(u8, String)> = Vec::new();
    let mut i: usize = 0;
    proof {
        assert(files@.take(files@.len() as int) =~= files@);
        assert(files@.take(0) =~= Seq::<FileCandidate>::empty());
    }
    while i < files.len()
        invariant_except_break
            scored@ == scored_files(files@.take(i as int), wanted),
            scored@.len() < 20,
        invariant
            i <= files.len(),
            files@.take(files@.len() as int) == files@,
            file_name@ == wanted,
            wanted_chars@ == wanted,
            wanted_lower_chars@ == lowercase(wanted),
            wanted_stem_lower@ == lowercase(stem(wanted)),
        ensures
            scored@ == take_at_most(scored_files(files@, wanted), 20),
        decreases files.len() - i,
    {
        let f = &files[i];
        let name_chars = chars_of(f.name.as_str());
        proof {
            assert(files@.take(i + 1).drop_last() =~= files@.take(i as int));
            assert(files@.take(i + 1).last() == files@[i as int]);
        }
        let score: u8 = if compare_chars(&name_chars, &wanted_chars) == 0 {
            0
        } else {
            let lower = to_lower(f.name.as_str());
            let lower_chars = chars_of(lower.as_str());
            if compare_chars(&lower_chars, &wanted_lower_chars) == 0 {
                1
            } else if contains_chars(&name_chars, &wanted_chars) || contains_chars(&wanted_chars, &name_chars) {
                2
            } else {
                let name_stem = stem_of(f.name.as_str());
                let name_stem_lower = to_lower(name_stem.as_str());
                if edit_distance(name_stem_lower.as_str(), wanted_stem_lower.as_str()) <= 2 {
                    3
                } else {
                    4
                }
            }
        };
        i += 1;
        proof {
            if i == files.len() {
                assert(files@.take(i as int) =~= files@);
            }
        }
        if score < 4 {
            scored.push((score, f.rel.clone()));
            if scored.len() >= 20 {
                proof {
                    lemma_scored_files_prefix(files@, wanted, i as int, files@.len() as int);
                    assert(files@.take(files@.len() as int) =~= files@);
                    assert(scored@ == scored_files(files@.take(i as int), wanted));
                }
                break;
            }
        }
    }
    let sorted = sort_stable(scored);
    let list = first_names(&sorted, 3);
    let mut msg = String::from_str("Path does not exist: ");
    msg.append(path_str);
    if list.len() > 0 {
        msg.append("; did you mean: ");
        let joined = join_strings(&list, ", ");
        msg.append(joined.as_str());
    }
    msg.append("; hint: use a repo-relative path from code_map");
    proof {
        assert(msg@ =~= missing_file_message(path_str@, files@));
    }
    ToolError { kind: ToolErrorKind::NotFound, message: msg }
}

} // verus!
