//! The `relevant_tests` tool: which tests touch a symbol. Usages found in
//! test files become candidates (direct calls rank before other
//! references), one per test function, the best kept; test files named like
//! the source that do not use it are added as same-module candidates.

use vstd::prelude::*;
use vstd::string::StringExecFns;
use crate::rows::{parsed_fields, parse_compact_row, views, row_of, format_row};
use crate::lines::{lines_of, split_lines, trimmed, trim, strip_ws, remove_whitespace, parse_usize_spec, parse_usize};
use crate::text::{
    ascii_lower, ascii_lower_chars, chars_of, contains_seq, str_contains, str_eq, has_prefix, str_starts_with,
    matches_at, match_at, string_from_chars, decimal, decimal_string, seq_lt, str_three_way, push_decimal, first_at,
    lemma_first_at, lemma_first_at_extend,
};
use crate::suggest::{path_file_name, file_name_of};
use crate::sort::{ViewOrdered, sorted_view, sort_by_view, view_seq};
use crate::graph_rows::{page, opt_nat, page_bounds};
use crate::json::{json_quote, json_quoted};

verus! {

/// The stem of a path's file name, as `Path::file_stem` reads it.
pub uninterp spec fn path_file_stem(p: Seq<char>) -> Option<Seq<char>>;

/// The file stem of a path.
///
/// Wraps `std::path::Path::file_stem`; the stem depends on the path text
/// alone, so the contract names it `path_file_stem`. A `&str` path is valid
/// UTF-8, so the stem converts back to a string.
#[verifier::external_body]
pub fn file_stem_of(p: &str) -> (r: Option<String>)
    ensures
        match r {
            Some(s) => path_file_stem(p@) == Some(s@),
            None => path_file_stem(p@) is None,
        },
{
    match std::path::Path::new(p).file_stem() {
        Some(stem) => match stem.to_str() {
            Some(text) => Some(text.to_string()),
            None => None,
        },
        None => None,
    }
}

/// How a test relates to the symbol.
#[derive(PartialEq, Eq, Structural, Clone, Copy, Debug)]
pub enum Relevance {
    Direct,
    Indirect,
    SameModule,
}

/// The name of a relevance.
pub open spec fn relevance_text(r: Relevance) -> Seq<char> {
    match r {
        Relevance::Direct => "direct"@,
        Relevance::Indirect => "indirect"@,
        Relevance::SameModule => "same_module"@,
    }
}

/// The rank of a relevance name: direct 0, indirect 1, same_module 2, else 3.
pub open spec fn rank_of_text(s: Seq<char>) -> nat {
    if s == "direct"@ {
        0
    } else if s == "indirect"@ {
        1
    } else if s == "same_module"@ {
        2
    } else {
        3
    }
}

/// The rank of a relevance name.
pub fn relevance_rank(value: &str) -> (r: usize)
    ensures
        r == rank_of_text(value@),
{
    if str_eq(value, "direct") {
        0
    } else if str_eq(value, "indirect") {
        1
    } else if str_eq(value, "same_module") {
        2
    } else {
        3
    }
}

/// The rank of a relevance.
pub open spec fn rank_of(r: Relevance) -> nat {
    match r {
        Relevance::Direct => 0,
        Relevance::Indirect => 1,
        Relevance::SameModule => 2,
    }
}

/// A path looks like a test file: a `tests` directory, a `_test.`,
/// `.test.`, `_spec.` or `.spec.` infix (ignoring ASCII case), or a file
/// name starting with `test_`.
pub open spec fn test_path(p: Seq<char>) -> bool {
    let lower = ascii_lower(p);
    contains_seq(lower, "/tests/"@) || contains_seq(lower, "\\tests\\"@) || contains_seq(lower, "_test."@)
        || contains_seq(lower, ".test."@) || contains_seq(lower, "_spec."@) || contains_seq(lower, ".spec."@)
        || (match path_file_name(p) {
            Some(n) => has_prefix(n, "test_"@),
            None => false,
        })
}

/// Whether `path` looks like a test file.
pub fn is_test_file(path: &str) -> (b: bool)
    ensures
        b == test_path(path@),
{
    let cs = chars_of(path);
    let lower_chars = ascii_lower_chars(&cs);
    let lower = string_from_chars(&lower_chars);
    let l = lower.as_str();
    if str_contains(l, "/tests/") || str_contains(l, "\\tests\\") || str_contains(l, "_test.")
        || str_contains(l, ".test.") || str_contains(l, "_spec.") || str_contains(l, ".spec.") {
        return true;
    }
    match file_name_of(path) {
        Some(n) => str_starts_with(n.as_str(), "test_"),
        None => false,
    }
}

/// Every path whose ASCII-lowercased form contains `/tests/`, `\tests\`,
/// `_test.`, `.test.`, `_spec.` or `.spec.`, and every path whose file name
/// starts with `test_`, is a test file; no other path is.
pub proof fn law_test_file_markers(p: Seq<char>)
    ensures
        contains_seq(ascii_lower(p), "/tests/"@) ==> test_path(p),
        contains_seq(ascii_lower(p), "\\tests\\"@) ==> test_path(p),
        contains_seq(ascii_lower(p), "_test."@) ==> test_path(p),
        contains_seq(ascii_lower(p), ".test."@) ==> test_path(p),
        contains_seq(ascii_lower(p), "_spec."@) ==> test_path(p),
        contains_seq(ascii_lower(p), ".spec."@) ==> test_path(p),
        (path_file_name(p) matches Some(n) && has_prefix(n, "test_"@)) ==> test_path(p),
        test_path(p) ==> contains_seq(ascii_lower(p), "/tests/"@) || contains_seq(ascii_lower(p), "\\tests\\"@)
            || contains_seq(ascii_lower(p), "_test."@) || contains_seq(ascii_lower(p), ".test."@)
            || contains_seq(ascii_lower(p), "_spec."@) || contains_seq(ascii_lower(p), ".spec."@)
            || (path_file_name(p) matches Some(n) && has_prefix(n, "test_"@)),
{
}

/// The stem of a path, empty when it has none.
pub open spec fn stem_or_empty(p: Seq<char>) -> Seq<char> {
    match path_file_stem(p) {
        Some(s) => s,
        None => seq![],
    }
}

/// A test file's stem and the source's stem contain one another.
pub open spec fn same_module(path: Seq<char>, source_stem: Seq<char>) -> bool {
    contains_seq(stem_or_empty(path), source_stem) || contains_seq(source_stem, stem_or_empty(path))
}

/// Whether a test file belongs to the source's module by name.
pub fn is_same_module_test(path: &str, source_stem: &str) -> (b: bool)
    ensures
        b == same_module(path@, source_stem@),
{
    let stem = match file_stem_of(path) {
        Some(s) => s,
        None => String::new(),
    };
    proof {
        reveal_strlit("");
    }
    str_contains(stem.as_str(), source_stem) || str_contains(source_stem, stem.as_str())
}

/// Start of the last occurrence of `needle` in `hay`, scanning from `i` down.
pub open spec fn last_match_below(hay: Seq<char>, needle: Seq<char>, i: int) -> Option<int>
    decreases i + 1,
{
    if i < 0 {
        None
    } else if matches_at(hay, needle, i) {
        Some(i)
    } else {
        last_match_below(hay, needle, i - 1)
    }
}

/// The part of a scope after its last `::`, trimmed (the test's own name).
pub open spec fn scope_tail(scope: Seq<char>) -> Seq<char> {
    match last_match_below(scope, "::"@, scope.len() - 2) {
        Some(i) => trimmed(scope.skip(i + 2)),
        None => trimmed(scope),
    }
}

/// The last segment of a `::` path, trimmed.
pub fn test_name_from_scope(scope: &str) -> (r: String)
    ensures
        r@ == scope_tail(scope@),
{
    proof {
        reveal_strlit("::");
    }
    let cs = chars_of(scope);
    let sep = chars_of("::");
    if cs.len() < 2 {
        proof {
            assert(last_match_below(scope@, "::"@, scope@.len() - 2) is None);
        }
        return trim(scope);
    }
    let mut i: usize = cs.len() - 2;
    loop
        invariant
            i + 2 <= cs.len(),
            cs@ == scope@,
            sep@ == "::"@,
            last_match_below(scope@, "::"@, scope@.len() - 2) == last_match_below(scope@, "::"@, i as int),
        decreases i,
    {
        if match_at(&cs, &sep, i) {
            let mut tail = String::new();
            let mut k: usize = i + 2;
            while k < cs.len()
                invariant
                    i + 2 <= k <= cs.len(),
                    cs@ == scope@,
                    tail@ == scope@.subrange(i + 2, k as int),
                decreases cs.len() - k,
            {
                crate::text::push_char(&mut tail, cs[k]);
                proof {
                    assert(scope@.subrange(i + 2, k + 1) =~= scope@.subrange(i + 2, k as int).push(scope@[k as int]));
                }
                k += 1;
            }
            proof {
                assert(tail@ =~= scope@.skip(i + 2));
            }
            return trim(tail.as_str());
        }
        if i == 0 {
            proof {
                assert(last_match_below(scope@, "::"@, -1) is None);
            }
            return trim(scope);
        }
        i -= 1;
    }
}

/// The context, with whitespace removed, calls `symbol(`.
pub open spec fn direct_call(context: Seq<char>, symbol: Seq<char>) -> bool {
    contains_seq(strip_ws(context), symbol + "("@)
}

/// Whether the context reads like a call of `symbol`.
pub fn looks_like_direct_call(context: &str, symbol_name: &str) -> (b: bool)
    ensures
        b == direct_call(context@, symbol_name@),
{
    let compact = remove_whitespace(context);
    let mut call = String::from_str(symbol_name);
    call.append("(");
    str_contains(compact.as_str(), call.as_str())
}

/// A candidate test.
pub struct RelevantTest {
    pub file: String,
    pub test_fn: String,
    pub line: usize,
    pub relevance: Relevance,
}

/// The plain values of a candidate.
pub struct TestView {
    pub file: Seq<char>,
    pub test_fn: Seq<char>,
    pub line: nat,
    pub relevance: Relevance,
}

impl View for RelevantTest {
    type V = TestView;

    open spec fn view(&self) -> TestView {
        TestView { file: self.file@, test_fn: self.test_fn@, line: self.line as nat, relevance: self.relevance }
    }
}

impl ViewOrdered for RelevantTest {
    /// By relevance rank, file, line, then test name.
    open spec fn view_before(a: TestView, b: TestView) -> bool {
        if rank_of(a.relevance) != rank_of(b.relevance) {
            rank_of(a.relevance) < rank_of(b.relevance)
        } else if a.file != b.file {
            seq_lt(a.file, b.file)
        } else if a.line != b.line {
            a.line < b.line
        } else {
            seq_lt(a.test_fn, b.test_fn)
        }
    }

    fn is_before(&self, other: &Self) -> (r: bool) {
        proof {
            crate::text::lemma_seq_lt_total(self.file@, other.file@);
            crate::text::lemma_seq_lt_total(self.test_fn@, other.test_fn@);
        }
        let ra: u8 = match self.relevance {
            Relevance::Direct => 0,
            Relevance::Indirect => 1,
            Relevance::SameModule => 2,
        };
        let rb: u8 = match other.relevance {
            Relevance::Direct => 0,
            Relevance::Indirect => 1,
            Relevance::SameModule => 2,
        };
        if ra != rb {
            return ra < rb;
        }
        let f = str_three_way(self.file.as_str(), other.file.as_str());
        if f != 0 {
            return f < 0;
        }
        if self.line != other.line {
            return self.line < other.line;
        }
        str_three_way(self.test_fn.as_str(), other.test_fn.as_str()) < 0
    }
}

/// What the symbol lookup at one line of a test file gave.
pub struct LineSymbol {
    pub line: usize,
    pub symbol: String,
}

/// A project file, with what the usage search found in it when it is a test
/// file: the usage rows and the symbols enclosing their lines.
pub struct TestFileScan {
    pub path: String,
    pub rel: String,
    pub usage_text: String,
    pub lookups: Vec<LineSymbol>,
}

/// Field `k` of a row, or `default` when the row is shorter.
pub open spec fn field_or(fields: Seq<Seq<char>>, k: int, default: Seq<char>) -> Seq<char> {
    if 0 <= k < fields.len() { fields[k] } else { default }
}

/// The test around `line`: the looked-up symbol when it is not empty, else
/// the last segment of the row's scope.
pub open spec fn enclosing_name(lookups: Seq<LineSymbol>, line: nat, fallback: Seq<char>) -> Seq<char> {
    match first_at(lookups.len(), |k: int| lookups[k].line == line) {
        Some(k) => if lookups[k].symbol@.len() > 0 { lookups[k].symbol@ } else { scope_tail(fallback) },
        None => scope_tail(fallback),
    }
}

/// The line of a usage row: field 1 read as a number, else 1.
pub open spec fn row_line(fields: Seq<Seq<char>>) -> nat {
    match parse_usize_spec(field_or(fields, 1, seq![])) {
        Some(v) => v,
        None => 1,
    }
}

/// The candidate a usage row gives; none for a definition.
pub open spec fn row_candidate(row: Seq<char>, symbol: Seq<char>, rel: Seq<char>, lookups: Seq<LineSymbol>) -> Option<TestView> {
    let fields = parsed_fields(row);
    let usage = field_or(fields, 3, "reference"@);
    if usage == "definition"@ {
        None
    } else {
        let line = row_line(fields);
        let relevance = if usage == "call"@ || (usage == "reference"@ && direct_call(field_or(fields, 4, seq![]), symbol)) {
            Relevance::Direct
        } else {
            Relevance::Indirect
        };
        Some(TestView { file: rel, test_fn: enclosing_name(lookups, line, field_or(fields, 5, seq![])), line, relevance })
    }
}

/// The candidates of a test file's usage rows, in order.
pub open spec fn file_candidates(rows: Seq<Seq<char>>, symbol: Seq<char>, rel: Seq<char>, lookups: Seq<LineSymbol>) -> Seq<TestView>
    decreases rows.len(),
{
    if rows.len() == 0 {
        seq![]
    } else {
        file_candidates(rows.drop_last(), symbol, rel, lookups) + match row_candidate(rows.last(), symbol, rel, lookups) {
            Some(c) => seq![c],
            None => seq![],
        }
    }
}

/// Keeps the best candidate per (file, test): a new one replaces the kept
/// one only when it ranks strictly better.
pub open spec fn upsert(entries: Seq<TestView>, c: TestView) -> Seq<TestView> {
    match first_at(entries.len(), |k: int| entries[k].file == c.file && entries[k].test_fn == c.test_fn) {
        Some(k) => if rank_of(entries[k].relevance) <= rank_of(c.relevance) { entries } else { entries.update(k, c) },
        None => entries.push(c),
    }
}

/// `upsert` of each candidate in turn.
pub open spec fn upsert_all(entries: Seq<TestView>, cs: Seq<TestView>) -> Seq<TestView>
    decreases cs.len(),
{
    if cs.len() == 0 {
        entries
    } else {
        upsert(upsert_all(entries, cs.drop_last()), cs.last())
    }
}

/// The candidates from the first `m` files, and the same-module candidates
/// of test files that had no usage.
pub open spec fn scan_files(files: Seq<TestFileScan>, m: int, symbol: Seq<char>, source_stem: Seq<char>) -> (Seq<TestView>, Seq<TestView>)
    decreases m,
{
    if m <= 0 || m > files.len() {
        (seq![], seq![])
    } else {
        let (entries, same) = scan_files(files, m - 1, symbol, source_stem);
        let f = files[m - 1];
        if !test_path(f.path@) {
            (entries, same)
        } else {
            let cs = file_candidates(lines_of(f.usage_text@), symbol, f.rel@, f.lookups@);
            (
                upsert_all(entries, cs),
                if cs.len() == 0 && same_module(f.path@, source_stem) {
                    same.push(TestView { file: f.rel@, test_fn: seq![], line: 1, relevance: Relevance::SameModule })
                } else {
                    same
                },
            )
        }
    }
}

/// `tests` with each of `extra` added unless already present.
pub open spec fn add_unique(tests: Seq<TestView>, extra: Seq<TestView>) -> Seq<TestView>
    decreases extra.len(),
{
    if extra.len() == 0 {
        tests
    } else {
        let t = add_unique(tests, extra.drop_last());
        if t.contains(extra.last()) { t } else { t.push(extra.last()) }
    }
}

/// The relevant tests, best first.
pub open spec fn relevant_tests_of(files: Seq<TestFileScan>, symbol: Seq<char>, source_stem: Seq<char>) -> Seq<TestView> {
    let (entries, same) = scan_files(files, files.len() as int, symbol, source_stem);
    sorted_view::<RelevantTest>(add_unique(entries, same))
}

/// The test around `line` in a file.
fn enclosing_name_of(lookups: &Vec<LineSymbol>, line: usize, fallback: &str) -> (r: String)
    ensures
        r@ == enclosing_name(lookups@, line as nat, fallback@),
{
    let ghost p = |k: int| lookups@[k].line == line as nat;
    let mut k: usize = 0;
    while k < lookups.len()
        invariant
            k <= lookups.len(),
            p == (|k: int| lookups@[k].line == line as nat),
            first_at(k as nat, p) is None,
        decreases lookups.len() - k,
    {
        if lookups[k].line == line {
            proof {
                assert(p(k as int));
                lemma_first_at_extend((k + 1) as nat, lookups.len() as nat, p);
            }
            if !lookups[k].symbol.as_str().is_empty() {
                return lookups[k].symbol.clone();
            }
            return test_name_from_scope(fallback);
        }
        k += 1;
    }
    test_name_from_scope(fallback)
}

/// Field `k` of a row, or `default`.
fn field_or_default(fields: &Vec<String>, k: usize, default: &str) -> (r: String)
    ensures
        r@ == field_or(views(fields@), k as int, default@),
{
    if k < fields.len() {
        fields[k].clone()
    } else {
        String::from_str(default)
    }
}

/// The candidate a usage row gives.
pub fn candidate_of(row: &str, symbol: &str, rel: &str, lookups: &Vec<LineSymbol>) -> (r: Option<RelevantTest>)
    ensures
        match row_candidate(row@, symbol@, rel@, lookups@) {
            Some(c) => r matches Some(x) && x@ == c,
            None => r is None,
        },
{
    let fields = parse_compact_row(row);
    let usage = field_or_default(&fields, 3, "reference");
    if str_eq(usage.as_str(), "definition") {
        return None;
    }
    let line_text = field_or_default(&fields, 1, "");
    let line: usize = match parse_usize(line_text.as_str()) {
        Some(v) => v,
        None => 1,
    };
    let context = field_or_default(&fields, 4, "");
    let fallback = field_or_default(&fields, 5, "");
    let direct = str_eq(usage.as_str(), "call")
        || (str_eq(usage.as_str(), "reference") && looks_like_direct_call(context.as_str(), symbol));
    let relevance = if direct { Relevance::Direct } else { Relevance::Indirect };
    let test_fn = enclosing_name_of(lookups, line, fallback.as_str());
    proof {
        reveal_strlit("");
        assert(""@ =~= Seq::<char>::empty());
    }
    Some(RelevantTest { file: String::from_str(rel), test_fn, line, relevance })
}

/// Whether two candidates are the same test.
fn same_owner(a: &RelevantTest, file: &str, test_fn: &str) -> (r: bool)
    ensures
        r == (a.file@ == file@ && a.test_fn@ == test_fn@),
{
    str_eq(a.file.as_str(), file) && str_eq(a.test_fn.as_str(), test_fn)
}

/// A copy of a candidate.
fn clone_test(t: &RelevantTest) -> (r: RelevantTest)
    ensures
        r@ == t@,
{
    RelevantTest { file: t.file.clone(), test_fn: t.test_fn.clone(), line: t.line, relevance: t.relevance }
}

/// Keeps the better of `c` and the kept candidate for the same test.
fn upsert_test(entries: &mut Vec<RelevantTest>, c: RelevantTest)
    ensures
        view_seq(final(entries)@) == upsert(view_seq(old(entries)@), c@),
{
    let ghost es = view_seq(entries@);
    let ghost p = |k: int| es[k].file == c@.file && es[k].test_fn == c@.test_fn;
    let mut k: usize = 0;
    while k < entries.len()
        invariant
            k <= entries.len(),
            es == view_seq(entries@),
            es == view_seq(old(entries)@),
            p == (|k: int| es[k].file == c@.file && es[k].test_fn == c@.test_fn),
            first_at(k as nat, p) is None,
        decreases entries.len() - k,
    {
        if same_owner(&entries[k], c.file.as_str(), c.test_fn.as_str()) {
            proof {
                assert(es[k as int] == entries@[k as int]@);
                assert(p(k as int));
                lemma_first_at_extend((k + 1) as nat, entries.len() as nat, p);
            }
            let existing: u8 = match entries[k].relevance {
                Relevance::Direct => 0,
                Relevance::Indirect => 1,
                Relevance::SameModule => 2,
            };
            let new_rank: u8 = match c.relevance {
                Relevance::Direct => 0,
                Relevance::Indirect => 1,
                Relevance::SameModule => 2,
            };
            if existing > new_rank {
                let ghost cv = c@;
                entries.set(k, c);
                proof {
                    assert(view_seq(entries@) =~= es.update(k as int, cv));
                }
            }
            return;
        }
        proof {
            assert(es[k as int] == entries@[k as int]@);
        }
        k += 1;
    }
    let ghost cv = c@;
    entries.push(c);
    proof {
        assert(view_seq(entries@) =~= es.push(cv));
    }
}

/// The lines of the usage rows that are not definitions, in order.
pub open spec fn usage_lines(rows: Seq<Seq<char>>) -> Seq<nat>
    decreases rows.len(),
{
    if rows.len() == 0 {
        seq![]
    } else {
        let fields = parsed_fields(rows.last());
        usage_lines(rows.drop_last()) + if field_or(fields, 3, "reference"@) == "definition"@ {
            seq![]
        } else {
            seq![row_line(fields)]
        }
    }
}

/// Lines of the usage rows whose enclosing symbol the tool looks up (the
/// rows that are not definitions), in order.
pub fn lookup_lines(usage_text: &str) -> (r: Vec<usize>)
    ensures
        crate::syntax::line_nats(r@) == usage_lines(lines_of(usage_text@)),
{
    let rows = split_lines(usage_text);
    let ghost rs = views(rows@);
    let mut out: Vec<usize> = Vec::new();
    let mut i: usize = 0;
    proof {
        assert(crate::syntax::line_nats(out@) =~= usage_lines(rs.take(0)));
    }
    while i < rows.len()
        invariant
            i <= rows.len(),
            rs == views(rows@),
            crate::syntax::line_nats(out@) == usage_lines(rs.take(i as int)),
        decreases rows.len() - i,
    {
        proof {
            assert(rs.take(i + 1).drop_last() =~= rs.take(i as int));
            assert(rs.take(i + 1).last() == rows@[i as int]@);
        }
        let fields = parse_compact_row(rows[i].as_str());
        let usage = field_or_default(&fields, 3, "reference");
        let ghost before = crate::syntax::line_nats(out@);
        if !str_eq(usage.as_str(), "definition") {
            let line_text = field_or_default(&fields, 1, "");
            let line: usize = match parse_usize(line_text.as_str()) {
                Some(v) => v,
                None => 1,
            };
            proof {
                reveal_strlit("");
                assert(""@ =~= Seq::<char>::empty());
            }
            out.push(line);
            proof {
                assert(crate::syntax::line_nats(out@) =~= before.push(line as nat));
            }
        } else {
            proof {
                assert(usage_lines(rs.take(i + 1)) =~= usage_lines(rs.take(i as int)));
            }
        }
        i += 1;
    }
    proof {
        assert(rs.take(rows.len() as int) =~= rs);
    }
    out
}

/// Every relevant test, best first: usages in test files, one per test
/// function keeping the best ranked, then same-module test files.
pub fn collect_relevant_tests(files: &Vec<TestFileScan>, source_stem: &str, symbol: &str) -> (r: Vec<RelevantTest>)
    ensures
        view_seq(r@) == relevant_tests_of(files@, symbol@, source_stem@),
{
    let mut entries: Vec<RelevantTest> = Vec::new();
    let mut same: Vec<RelevantTest> = Vec::new();
    let mut m: usize = 0;
    proof {
        assert(view_seq(entries@) =~= Seq::<TestView>::empty());
        assert(view_seq(same@) =~= Seq::<TestView>::empty());
    }
    while m < files.len()
        invariant
            m <= files.len(),
            (view_seq(entries@), view_seq(same@)) == scan_files(files@, m as int, symbol@, source_stem@),
        decreases files.len() - m,
    {
        let f = &files[m];
        if is_test_file(f.path.as_str()) {
            let rows = split_lines(f.usage_text.as_str());
            let ghost rs = views(rows@);
            let ghost e0 = view_seq(entries@);
            let mut matched = false;
            let mut i: usize = 0;
            while i < rows.len()
                invariant
                    i <= rows.len(),
                    rs == views(rows@),
                    view_seq(entries@) == upsert_all(e0, file_candidates(rs.take(i as int), symbol@, f.rel@, f.lookups@)),
                    matched == (file_candidates(rs.take(i as int), symbol@, f.rel@, f.lookups@).len() > 0),
                decreases rows.len() - i,
            {
                proof {
                    assert(rs.take(i + 1).drop_last() =~= rs.take(i as int));
                    assert(rs.take(i + 1).last() == rows@[i as int]@);
                }
                match candidate_of(rows[i].as_str(), symbol, f.rel.as_str(), &f.lookups) {
                    Some(c) => {
                        matched = true;
                        let ghost cv = c@;
                        upsert_test(&mut entries, c);
                        proof {
                            let cs = file_candidates(rs.take(i as int), symbol@, f.rel@, f.lookups@);
                            assert(file_candidates(rs.take(i + 1), symbol@, f.rel@, f.lookups@) =~= cs.push(cv));
                            assert(cs.push(cv).drop_last() =~= cs);
                        }
                    },
                    None => {
                        proof {
                            let cs = file_candidates(rs.take(i as int), symbol@, f.rel@, f.lookups@);
                            assert(file_candidates(rs.take(i + 1), symbol@, f.rel@, f.lookups@) =~= cs);
                        }
                    },
                }
                i += 1;
            }
            proof {
                assert(rs.take(rows.len() as int) =~= rs);
            }
            if !matched && is_same_module_test(f.path.as_str(), source_stem) {
                let ghost sb = view_seq(same@);
                let t = RelevantTest { file: f.rel.clone(), test_fn: String::new(), line: 1, relevance: Relevance::SameModule };
                proof {
                    reveal_strlit("");
                    assert(""@ =~= Seq::<char>::empty());
                }
                same.push(t);
                proof {
                    assert(view_seq(same@) =~= sb.push(TestView { file: f.rel@, test_fn: seq![], line: 1, relevance: Relevance::SameModule }));
                }
            }
        }
        m += 1;
    }
    let ghost base = view_seq(entries@);
    let mut j: usize = 0;
    while j < same.len()
        invariant
            j <= same.len(),
            view_seq(entries@) == add_unique(base, view_seq(same@).take(j as int)),
        decreases same.len() - j,
    {
        let c = &same[j];
        let ghost sv = view_seq(same@);
        proof {
            assert(sv.take(j + 1).drop_last() =~= sv.take(j as int));
            assert(sv.take(j + 1).last() == c@);
        }
        let mut present = false;
        let mut q: usize = 0;
        while q < entries.len()
            invariant
                q <= entries.len(),
                present == (exists|t: int| 0 <= t < q && view_seq(entries@)[t] == c@),
            decreases entries.len() - q,
        {
            let e = &entries[q];
            if str_eq(e.file.as_str(), c.file.as_str()) && str_eq(e.test_fn.as_str(), c.test_fn.as_str())
                && e.line == c.line && e.relevance == c.relevance {
                proof {
                    assert(view_seq(entries@)[q as int] == c@);
                }
                present = true;
            } else {
                proof {
                    assert(view_seq(entries@)[q as int] != c@);
                }
            }
            q += 1;
        }
        proof {
            let t = view_seq(entries@);
            if present {
                let w = choose|w: int| 0 <= w < entries.len() && t[w] == c@;
                assert(t.contains(c@));
            } else {
                assert(!t.contains(c@));
            }
        }
        if !present {
            let ghost before = view_seq(entries@);
            entries.push(clone_test(c));
            proof {
                assert(view_seq(entries@) =~= before.push(c@));
            }
        }
        j += 1;
    }
    proof {
        assert(view_seq(same@).take(same.len() as int) =~= view_seq(same@));
    }
    sort_by_view(entries)
}

/// The header of the rows.
pub open spec fn tests_header() -> Seq<char> {
    "test_file|test_fn|line|relevance"@
}

/// The fields of a test row: file, test, line, relevance.
pub open spec fn test_fields(t: TestView) -> Seq<Seq<char>> {
    seq![t.file, t.test_fn, decimal(t.line), relevance_text(t.relevance)]
}

/// The answer of the tool, keys in order.
pub open spec fn tests_json(tests: Seq<TestView>, symbol: Seq<char>, offset: nat, limit: Option<nat>) -> Seq<char> {
    let rows = crate::rows::join_with(page(tests, offset, limit).map_values(|t: TestView| row_of(test_fields(t))), seq!['\n']);
    "{\"h\":"@ + json_quoted(tests_header()) + ",\"offset\":"@ + decimal(offset) + ",\"sym\":"@ + json_quoted(symbol)
        + ",\"tests\":"@ + json_quoted(rows) + ",\"total\":"@ + decimal(tests.len()) + "}"@
}

/// The name of a relevance, as a new string.
fn relevance_string(r: Relevance) -> (s: String)
    ensures
        s@ == relevance_text(r),
{
    match r {
        Relevance::Direct => String::from_str("direct"),
        Relevance::Indirect => String::from_str("indirect"),
        Relevance::SameModule => String::from_str("same_module"),
    }
}

/// The answer of the tool for the found tests.
pub fn relevant_tests_json(tests: &Vec<RelevantTest>, symbol: &str, offset: usize, limit: Option<usize>) -> (r: String)
    ensures
        r@ == tests_json(view_seq(tests@), symbol@, offset as nat, opt_nat(limit)),
{
    let ghost tv = view_seq(tests@);
    let (start, end) = page_bounds::<TestView>(tests.len(), offset, limit);
    let mut rows: Vec<String> = Vec::new();
    let mut j: usize = start;
    while j < end
        invariant
            start <= j <= end,
            end <= tests.len(),
            tv == view_seq(tests@),
            views(rows@) == tv.subrange(start as int, j as int).map_values(|t: TestView| row_of(test_fields(t))),
        decreases end - j,
    {
        let t = &tests[j];
        let mut fields: Vec<String> = Vec::new();
        fields.push(t.file.clone());
        fields.push(t.test_fn.clone());
        fields.push(decimal_string(t.line));
        fields.push(relevance_string(t.relevance));
        proof {
            assert(views(fields@) =~= test_fields(t@));
        }
        let row = format_row(&fields);
        let ghost before = views(rows@);
        rows.push(row);
        proof {
            assert(tv.subrange(start as int, j + 1) =~= tv.subrange(start as int, j as int).push(tv[j as int]));
            assert(views(rows@) =~= before.push(row@));
        }
        j += 1;
    }
    let text = crate::budget::join_prefix(&rows, rows.len());
    proof {
        assert(views(rows@).take(rows.len() as int) =~= views(rows@));
    }
    let mut out = String::from_str("{\"h\":");
    let hq = json_quote("test_file|test_fn|line|relevance");
    out.append(hq.as_str());
    out.append(",\"offset\":");
    push_decimal(&mut out, offset);
    out.append(",\"sym\":");
    let sq = json_quote(symbol);
    out.append(sq.as_str());
    out.append(",\"tests\":");
    let tq = json_quote(text.as_str());
    out.append(tq.as_str());
    out.append(",\"total\":");
    push_decimal(&mut out, tests.len());
    out.append("}");
    proof {
        assert(out@ =~= tests_json(tv, symbol@, offset as nat, opt_nat(limit)));
    }
    out
}

/// The order of relevant tests is a strict order.
proof fn lemma_tests_strict_order()
    ensures
        crate::sort::strict_order::<RelevantTest>(),
{
    assert forall|a: TestView| !#[trigger] RelevantTest::view_before(a, a) by {
        crate::text::lemma_seq_lt_total(a.file, a.file);
        crate::text::lemma_seq_lt_total(a.test_fn, a.test_fn);
    }
    assert forall|a: TestView, b: TestView, c: TestView|
        #[trigger] RelevantTest::view_before(a, b) && #[trigger] RelevantTest::view_before(b, c)
        implies RelevantTest::view_before(a, c) by {
        crate::text::lemma_seq_lt_total(a.file, b.file);
        crate::text::lemma_seq_lt_total(b.file, c.file);
        crate::text::lemma_seq_lt_total(a.file, c.file);
        crate::text::lemma_seq_lt_total(a.test_fn, b.test_fn);
        crate::text::lemma_seq_lt_total(b.test_fn, c.test_fn);
        crate::text::lemma_seq_lt_total(a.test_fn, c.test_fn);
        if seq_lt(a.file, b.file) && seq_lt(b.file, c.file) {
            crate::text::lemma_seq_lt_trans(a.file, b.file, c.file);
        }
        if seq_lt(a.test_fn, b.test_fn) && seq_lt(b.test_fn, c.test_fn) {
            crate::text::lemma_seq_lt_trans(a.test_fn, b.test_fn, c.test_fn);
        }
    }
}

/// The relevant tests come best first: by relevance, then file, line and
/// test name, none before an earlier one.
pub proof fn law_relevant_tests_sorted(files: Seq<TestFileScan>, symbol: Seq<char>, source_stem: Seq<char>)
    ensures
        crate::sort::view_sorted::<RelevantTest>(relevant_tests_of(files, symbol, source_stem)),
{
    lemma_tests_strict_order();
    let (entries, same) = scan_files(files, files.len() as int, symbol, source_stem);
    crate::sort::lemma_sorted_view_sorted::<RelevantTest>(add_unique(entries, same));
}

} // verus!
