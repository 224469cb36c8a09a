//! The `search_text` tool: literal or regular-expression search over file
//! lines, one hit per line (the first pattern that matches), ordered by
//! file, line, column and pattern, paged and trimmed to a token budget.

use vstd::prelude::*;
use vstd::string::{StringExecFns, StringSliceAdditionalSpecFns};
use crate::error::{ToolError, ToolErrorKind};
use crate::text::{first_at, lemma_first_at, lemma_first_at_extend, lowercase, to_lower, decimal, decimal_string, push_decimal, seq_lt, str_three_way, str_eq};
use crate::lines::{lines_of, split_lines};
use crate::rows::{row_of, views, format_row, join_with};
use crate::sort::{ViewOrdered, sorted_view, sort_by_view, view_seq};
use crate::graph_rows::{page, opt_nat, page_bounds};
use crate::json::{json_quote, json_quoted, json_string_array, string_array, append_quoted};
use crate::hints::{search_hint, search_hint_text};
use crate::tools::SearchText;
use crate::budget::{Cl100k, budget_choice, budget_with, load_cl100k, join_prefix, joined};

verus! {

#[verifier::external_type_specification]
#[verifier::external_body]
pub struct ExRegex(regex::Regex);

/// Whether `pattern` compiles as a regular expression (case-insensitive
/// when asked), with the builder's default limits.
pub uninterp spec fn regex_compiles(pattern: Seq<char>, case_insensitive: bool) -> bool;

/// Byte offset where the leftmost-first match of `pattern` in `hay` starts.
pub uninterp spec fn regex_first_start(pattern: Seq<char>, case_insensitive: bool, hay: Seq<char>) -> Option<nat>;

/// A compiled regular expression and what it was compiled from.
pub struct CompiledRegex {
    re: regex::Regex,
    pattern: String,
    case_insensitive: bool,
}

impl CompiledRegex {
    /// The source of the expression.
    pub closed spec fn source(&self) -> Seq<char> {
        self.pattern@
    }

    /// Whether it ignores case.
    pub closed spec fn insensitive(&self) -> bool {
        self.case_insensitive
    }
}

/// Compiles a regular expression.
///
/// Wraps `RegexBuilder::new(pattern).case_insensitive(..).build()`; whether
/// it compiles depends on the pattern and flag alone, so the contract names
/// it `regex_compiles`. The error's text is passed on, with nothing claimed
/// of it.
#[verifier::external_body]
pub fn build_regex(pattern: &str, case_insensitive: bool) -> (r: Result<CompiledRegex, String>)
    ensures
        r is Ok <==> regex_compiles(pattern@, case_insensitive),
        r matches Ok(c) ==> c.source() == pattern@ && c.insensitive() == case_insensitive,
{
    match regex::RegexBuilder::new(pattern).case_insensitive(case_insensitive).build() {
        Ok(re) => Ok(CompiledRegex { re, pattern: pattern.to_string(), case_insensitive }),
        Err(e) => Err(format!("{e}")),
    }
}

/// Where the first match of a compiled expression in `hay` starts.
///
/// Wraps `Regex::find(..).start()`; the offset depends on the expression's
/// source, its flag and the text alone, so the contract names it
/// `regex_first_start`.
#[verifier::external_body]
pub fn regex_find(c: &CompiledRegex, hay: &str) -> (r: Option<usize>)
    ensures
        match regex_first_start(c.source(), c.insensitive(), hay@) {
            Some(i) => r matches Some(x) && x as nat == i,
            None => r is None,
        },
{
    match c.re.find(hay) {
        Some(m) => Some(m.start()),
        None => None,
    }
}

/// `needle` occurs in `hay` at byte `i`.
pub open spec fn bytes_at(hay: Seq<u8>, needle: Seq<u8>, i: int) -> bool {
    0 <= i && i + needle.len() <= hay.len() && hay.subrange(i, i + needle.len()) == needle
}

/// The first byte offset where `needle` occurs in `hay` (`str::find`).
pub open spec fn first_bytes(hay: Seq<u8>, needle: Seq<u8>) -> Option<int> {
    if needle.len() > hay.len() {
        None
    } else {
        first_at((hay.len() - needle.len() + 1) as nat, |i: int| bytes_at(hay, needle, i))
    }
}

/// The UTF-8 bytes of a character sequence.
pub open spec fn utf8(s: Seq<char>) -> Seq<u8> {
    vstd::utf8::encode_utf8(s)
}

/// The first byte offset of `needle` in `hay`.
fn find_bytes(hay: &str, needle: &str) -> (r: Option<usize>)
    ensures
        match first_bytes(utf8(hay@), utf8(needle@)) {
            Some(i) => r matches Some(x) && x as int == i,
            None => r is None,
        },
{
    let h = hay.as_bytes();
    let n = needle.as_bytes();
    let ghost hv = utf8(hay@);
    let ghost nv = utf8(needle@);
    if n.len() > h.len() {
        return None;
    }
    let last = h.len() - n.len();
    let ghost p = |i: int| bytes_at(hv, nv, i);
    let mut i: usize = 0;
    while i <= last
        invariant
            h@ == hv,
            n@ == nv,
            hv == utf8(hay@),
            nv == utf8(needle@),
            last == h.len() - n.len(),
            i <= last + 1,
            p == (|i: int| bytes_at(hv, nv, i)),
            first_at(i as nat, p) is None,
        decreases last + 1 - i,
    {
        let mut k: usize = 0;
        let mut ok = true;
        while k < n.len()
            invariant
                h@ == hv,
                n@ == nv,
                i <= last,
                last == h.len() - n.len(),
                k <= n.len(),
                ok == (forall|t: int| 0 <= t < k ==> hv[i + t] == nv[t]),
            decreases n.len() - k,
        {
            if h[i + k] != n[k] {
                ok = false;
            }
            k += 1;
        }
        proof {
            if ok {
                assert(hv.subrange(i as int, i + nv.len()) =~= nv);
            } else {
                let t = choose|t: int| 0 <= t < n.len() && hv[i + t] != nv[t];
                assert(hv.subrange(i as int, i + nv.len())[t] != nv[t]);
            }
        }
        if ok {
            proof {
                assert(p(i as int));
                lemma_first_at_extend((i + 1) as nat, (last + 1) as nat, p);
            }
            return Some(i);
        }
        i += 1;
    }
    None
}

/// How a pattern is matched.
pub enum Matcher {
    Literal { needle: String, case_sensitive: bool },
    Regex(CompiledRegex),
}

/// The 1-based byte column of a pattern's first match in `line` (a match
/// starting at byte `usize::MAX`, past any real line, counts as none).
pub open spec fn match_col(m: Matcher, line: Seq<char>) -> Option<nat> {
    let start = match m {
        Matcher::Literal { needle, case_sensitive } => if case_sensitive {
            first_bytes(utf8(line), utf8(needle@))
        } else {
            first_bytes(utf8(lowercase(line)), utf8(lowercase(needle@)))
        },
        Matcher::Regex(c) => match regex_first_start(c.source(), c.insensitive(), line) {
            Some(i) => Some(i as int),
            None => None,
        },
    };
    match start {
        Some(i) => if i + 1 <= usize::MAX { Some((i + 1) as nat) } else { None },
        None => None,
    }
}

impl Matcher {
    /// The 1-based byte column of the first match.
    pub fn find_col(&self, line: &str) -> (r: Option<usize>)
        ensures
            match match_col(*self, line@) {
                Some(c) => r matches Some(x) && x as nat == c,
                None => r is None,
            },
    {
        let start = match self {
            Matcher::Literal { needle, case_sensitive } => {
                if *case_sensitive {
                    find_bytes(line, needle.as_str())
                } else {
                    let l = to_lower(line);
                    let n = to_lower(needle.as_str());
                    find_bytes(l.as_str(), n.as_str())
                }
            },
            Matcher::Regex(c) => regex_find(c, line),
        };
        match start {
            Some(i) => {
                if i < usize::MAX {
                    Some(i + 1)
                } else {
                    None
                }
            },
            None => None,
        }
    }

    /// Whether the pattern matches somewhere in `line`.
    pub fn is_match(&self, line: &str) -> (b: bool)
        ensures
            b == match_col(*self, line@) is Some,
    {
        self.find_col(line).is_some()
    }
}

/// A file to search: its path as the project spells it, the path shown in
/// rows, and its text (`None` when it could not be read; such a file is
/// skipped).
pub struct SearchFile {
    pub path: String,
    pub rel: String,
    pub content: Option<String>,
}

/// One matching line.
pub struct Hit {
    pub pattern: String,
    pub file: String,
    pub rel: String,
    pub line: usize,
    pub col: usize,
    pub context: String,
}

/// A hit as plain values.
pub struct HitView {
    pub pattern: Seq<char>,
    pub file: Seq<char>,
    pub rel: Seq<char>,
    pub line: nat,
    pub col: nat,
    pub context: Seq<char>,
}

impl View for Hit {
    type V = HitView;

    open spec fn view(&self) -> HitView {
        HitView {
            pattern: self.pattern@,
            file: self.file@,
            rel: self.rel@,
            line: self.line as nat,
            col: self.col as nat,
            context: self.context@,
        }
    }
}

impl ViewOrdered for Hit {
    /// By file, line, column, then pattern.
    open spec fn view_before(a: HitView, b: HitView) -> bool {
        if a.file != b.file {
            seq_lt(a.file, b.file)
        } else if a.line != b.line {
            a.line < b.line
        } else if a.col != b.col {
            a.col < b.col
        } else {
            seq_lt(a.pattern, b.pattern)
        }
    }

    fn is_before(&self, other: &Self) -> (r: bool) {
        proof {
            crate::text::lemma_seq_lt_total(self.file@, other.file@);
            crate::text::lemma_seq_lt_total(self.pattern@, other.pattern@);
        }
        let f = str_three_way(self.file.as_str(), other.file.as_str());
        if f != 0 {
            return f < 0;
        }
        if self.line != other.line {
            return self.line < other.line;
        }
        if self.col != other.col {
            return self.col < other.col;
        }
        str_three_way(self.pattern.as_str(), other.pattern.as_str()) < 0
    }
}

/// The index of the first matcher that matches `line`.
pub open spec fn first_matcher(ms: Seq<Matcher>, line: Seq<char>) -> Option<int> {
    first_at(ms.len(), |k: int| match_col(ms[k], line) is Some)
}

/// The context shown for line `idx`: the line itself, or the lines from
/// `ctx` before to `ctx` after it (clipped to the file) joined by newlines.
pub open spec fn context_of(lines: Seq<Seq<char>>, idx: int, ctx: nat) -> Seq<char> {
    if ctx == 0 {
        lines[idx]
    } else {
        let start = if idx >= ctx { idx - ctx } else { 0 };
        let end = if idx + ctx + 1 <= lines.len() { idx + ctx + 1 } else { lines.len() as int };
        join_with(lines.subrange(start, end), seq!['\n'])
    }
}

/// The hits among the first `n` lines of a file, one per line at most: the
/// first pattern that matches the line, where it matches, and the context.
pub open spec fn line_hits(ms: Seq<Matcher>, pats: Seq<Seq<char>>, file: Seq<char>, rel: Seq<char>, lines: Seq<Seq<char>>, ctx: nat, n: nat) -> Seq<HitView>
    decreases n,
{
    if n == 0 {
        seq![]
    } else {
        let prev = line_hits(ms, pats, file, rel, lines, ctx, (n - 1) as nat);
        let idx = n - 1;
        match first_matcher(ms, lines[idx]) {
            Some(k) => prev.push(HitView {
                pattern: pats[k],
                file,
                rel,
                line: n,
                col: match_col(ms[k], lines[idx])->0,
                context: context_of(lines, idx, ctx),
            }),
            None => prev,
        }
    }
}

/// The hits in one file (none when it could not be read).
pub open spec fn file_hits(ms: Seq<Matcher>, pats: Seq<Seq<char>>, f: SearchFile, ctx: nat) -> Seq<HitView> {
    match f.content {
        Some(c) => {
            let lines = lines_of(c@);
            line_hits(ms, pats, f.path@, f.rel@, lines, ctx, lines.len())
        },
        None => seq![],
    }
}

/// The hits in the first `n` files, in file order.
pub open spec fn files_hits(ms: Seq<Matcher>, pats: Seq<Seq<char>>, files: Seq<SearchFile>, ctx: nat, n: nat) -> Seq<HitView>
    decreases n,
{
    if n == 0 {
        seq![]
    } else {
        files_hits(ms, pats, files, ctx, (n - 1) as nat) + file_hits(ms, pats, files[n - 1], ctx)
    }
}

/// The index of the first matcher that matches `line`.
fn find_matcher(ms: &Vec<Matcher>, line: &str) -> (r: Option<(usize, usize)>)
    ensures
        match first_matcher(ms@, line@) {
            Some(k) => r matches Some((i, c)) && i as int == k && match_col(ms@[k], line@) == Some(c as nat),
            None => r is None,
        },
        r matches Some((i, _)) ==> i < ms.len(),
{
    let ghost p = |k: int| match_col(ms@[k], line@) is Some;
    let mut k: usize = 0;
    while k < ms.len()
        invariant
            k <= ms.len(),
            p == (|k: int| match_col(ms@[k], line@) is Some),
            first_at(k as nat, p) is None,
        decreases ms.len() - k,
    {
        match ms[k].find_col(line) {
            Some(c) => {
                proof {
                    assert(p(k as int));
                    lemma_first_at_extend((k + 1) as nat, ms.len() as nat, p);
                }
                return Some((k, c));
            },
            None => {},
        }
        k += 1;
    }
    None
}

/// The lines `start..end` joined by newlines.
fn join_range(lines: &Vec<String>, start: usize, end: usize) -> (r: String)
    requires
        start <= end <= lines.len(),
    ensures
        r@ == join_with(views(lines@).subrange(start as int, end as int), seq!['\n']),
{
    let ghost lv = views(lines@);
    let mut out = String::new();
    let mut i: usize = start;
    proof {
        assert(lv.subrange(start as int, start as int) =~= Seq::<Seq<char>>::empty());
    }
    while i < end
        invariant
            start <= i <= end,
            end <= lines.len(),
            lv == views(lines@),
            out@ == join_with(lv.subrange(start as int, i as int), seq!['\n']),
        decreases end - i,
    {
        let ghost before = out@;
        proof {
            let vs = lv.subrange(start as int, i + 1);
            assert(vs.drop_last() =~= lv.subrange(start as int, i as int));
            assert(vs.last() == lines@[i as int]@);
        }
        if i > start {
            crate::text::push_char(&mut out, '\n');
        }
        out.append(lines[i].as_str());
        proof {
            let vs = lv.subrange(start as int, i + 1);
            if i == start {
                assert(before =~= Seq::<char>::empty());
                assert(out@ =~= vs[0]);
            } else {
                assert(out@ =~= join_with(vs.drop_last(), seq!['\n']) + seq!['\n'] + vs.last());
            }
        }
        i += 1;
    }
    out
}

/// The context shown for line `idx`.
fn context_at(lines: &Vec<String>, idx: usize, ctx: usize) -> (r: String)
    requires
        idx < lines.len(),
    ensures
        r@ == context_of(views(lines@), idx as int, ctx as nat),
{
    if ctx == 0 {
        return lines[idx].clone();
    }
    let start: usize = if idx >= ctx { idx - ctx } else { 0 };
    let end: usize = if ctx < lines.len() - idx { idx + ctx + 1 } else { lines.len() };
    join_range(lines, start, end)
}

/// Adds the hits of one file.
fn collect_file(ms: &Vec<Matcher>, pats: &Vec<String>, f: &SearchFile, ctx: usize, hits: &mut Vec<Hit>)
    requires
        ms.len() == pats.len(),
    ensures
        view_seq(final(hits)@) == view_seq(old(hits)@) + file_hits(ms@, views(pats@), *f, ctx as nat),
{
    let content = match &f.content {
        Some(c) => c,
        None => {
            proof {
                assert(view_seq(hits@) =~= view_seq(old(hits)@) + Seq::<HitView>::empty());
            }
            return;
        },
    };
    let lines = split_lines(content.as_str());
    let ghost lv = views(lines@);
    let ghost base = view_seq(hits@);
    let ghost pv = views(pats@);
    let mut i: usize = 0;
    proof {
        assert(view_seq(hits@) =~= base + line_hits(ms@, pv, f.path@, f.rel@, lv, ctx as nat, 0));
    }
    while i < lines.len()
        invariant
            i <= lines.len(),
            lv == views(lines@),
            lv == lines_of(content@),
            pv == views(pats@),
            ms.len() == pats.len(),
            base == view_seq(old(hits)@),
            view_seq(hits@) == base + line_hits(ms@, pv, f.path@, f.rel@, lv, ctx as nat, i as nat),
        decreases lines.len() - i,
    {
        let ghost before = view_seq(hits@);
        match find_matcher(ms, lines[i].as_str()) {
            Some((k, c)) => {
                let context = context_at(&lines, i, ctx);
                let h = Hit {
                    pattern: pats[k].clone(),
                    file: f.path.clone(),
                    rel: f.rel.clone(),
                    line: i + 1,
                    col: c,
                    context,
                };
                hits.push(h);
                proof {
                    assert(pv[k as int] == pats@[k as int]@);
                    assert(view_seq(hits@) =~= before.push(h@));
                }
            },
            None => {},
        }
        proof {
            assert(lv[i as int] == lines@[i as int]@);
            assert(view_seq(hits@) =~= base + line_hits(ms@, pv, f.path@, f.rel@, lv, ctx as nat, (i + 1) as nat));
        }
        i += 1;
    }
}

/// Every hit in `files`, in file and line order.
fn collect_hits(ms: &Vec<Matcher>, pats: &Vec<String>, files: &Vec<SearchFile>, ctx: usize) -> (r: Vec<Hit>)
    requires
        ms.len() == pats.len(),
    ensures
        view_seq(r@) == files_hits(ms@, views(pats@), files@, ctx as nat, files.len() as nat),
{
    let mut hits: Vec<Hit> = Vec::new();
    let mut i: usize = 0;
    proof {
        assert(view_seq(hits@) =~= Seq::<HitView>::empty());
    }
    while i < files.len()
        invariant
            i <= files.len(),
            ms.len() == pats.len(),
            view_seq(hits@) == files_hits(ms@, views(pats@), files@, ctx as nat, i as nat),
        decreases files.len() - i,
    {
        collect_file(ms, pats, &files[i], ctx, &mut hits);
        i += 1;
    }
    hits
}

/// The patterns a request names: `pattern` alone, else every string of
/// `patterns`, else none (also when `patterns` is empty).
pub open spec fn requested_patterns(args: SearchText) -> Option<Seq<Seq<char>>> {
    match args.pattern {
        Some(p) => Some(seq![p@]),
        None => match args.patterns {
            Some(v) => if v.len() > 0 { Some(views(v@)) } else { None },
            None => None,
        },
    }
}

/// `m` is the matcher built for pattern `p`.
pub open spec fn matcher_for(m: Matcher, p: Seq<char>, regex: bool, case_sensitive: bool) -> bool {
    if regex {
        m matches Matcher::Regex(c) && c.source() == p && c.insensitive() == !case_sensitive
    } else {
        m matches Matcher::Literal { needle, case_sensitive: cs } && needle@ == p && cs == case_sensitive
    }
}

/// The index of the first pattern that does not compile, in regex mode.
pub open spec fn first_bad_regex(ps: Seq<Seq<char>>, regex: bool, case_sensitive: bool) -> Option<int> {
    first_at(ps.len(), |k: int| regex && !regex_compiles(ps[k], !case_sensitive))
}

/// A validated search: the patterns with their matchers and the paging,
/// budget and context options.
pub struct SearchRequest {
    pub path: String,
    pub patterns: Vec<String>,
    pub matchers: Vec<Matcher>,
    pub context_lines: usize,
    pub offset: usize,
    pub limit: Option<usize>,
    pub max_tokens: Option<usize>,
    pub estimate: bool,
}

impl SearchRequest {
    /// At least one pattern, each with its matcher.
    pub open spec fn wf(&self) -> bool {
        &&& self.patterns.len() >= 1
        &&& self.matchers.len() == self.patterns.len()
    }
}

/// The message for a request without patterns.
pub open spec fn missing_patterns_message() -> Seq<char> {
    "Missing or invalid 'pattern'/'patterns' argument"@
}

/// Builds the matcher for one pattern.
fn build_matcher(pattern: &str, regex: bool, case_sensitive: bool) -> (r: Result<Matcher, ToolError>)
    ensures
        match r {
            Ok(m) => (!regex || regex_compiles(pattern@, !case_sensitive)) && matcher_for(m, pattern@, regex, case_sensitive),
            Err(e) => regex && !regex_compiles(pattern@, !case_sensitive) && e.kind == ToolErrorKind::InvalidInput
                && e.message@.take(11) == "Bad regex: "@,
        },
{
    if regex {
        match build_regex(pattern, !case_sensitive) {
            Ok(c) => Ok(Matcher::Regex(c)),
            Err(text) => {
                let mut msg = String::from_str("Bad regex: ");
                msg.append(text.as_str());
                proof {
                    reveal_strlit("Bad regex: ");
                    assert(msg@.take(11) =~= "Bad regex: "@);
                }
                Err(ToolError { kind: ToolErrorKind::InvalidInput, message: msg })
            },
        }
    } else {
        Ok(Matcher::Literal { needle: String::from_str(pattern), case_sensitive })
    }
}

/// Checks a `search_text` request: the patterns it names and, in regex
/// mode, that each compiles (the first that does not is reported).
pub fn search_request(args: &SearchText) -> (r: Result<SearchRequest, ToolError>)
    ensures
        match requested_patterns(*args) {
            None => r matches Err(e) && e.kind == ToolErrorKind::InvalidInput && e.message@ == missing_patterns_message(),
            Some(ps) => {
                let regex = args.regex == Some(true);
                let cs = args.case_sensitive != Some(false);
                match first_bad_regex(ps, regex, cs) {
                    Some(k) => r matches Err(e) && e.kind == ToolErrorKind::InvalidInput
                        && e.message@.take(11) == "Bad regex: "@,
                    None => r matches Ok(q) && q.wf() && views(q.patterns@) == ps
                        && (forall|k: int| 0 <= k < ps.len() ==> matcher_for(#[trigger] q.matchers@[k], ps[k], regex, cs))
                        && q.path@ == args.path@
                        && q.context_lines as nat == (match args.context_lines { Some(c) => c as nat, None => 0 })
                        && q.offset as nat == (match args.offset { Some(o) => o as nat, None => 0 })
                        && opt_nat(q.limit) == (match args.limit { Some(l) => Some(l as nat), None => None })
                        && opt_nat(q.max_tokens) == (match args.max_tokens { Some(m) => Some(m as nat), None => None })
                        && q.estimate == (args.estimate == Some(true)),
                }
            },
        },
{
    let patterns: Vec<String> = match &args.pattern {
        Some(p) => {
            let v = vec![p.clone()];
            proof {
                assert(views(v@) =~= seq![p@]);
            }
            v
        },
        None => match &args.patterns {
            Some(v) => {
                if v.len() == 0 {
                    return Err(ToolError {
                        kind: ToolErrorKind::InvalidInput,
                        message: String::from_str("Missing or invalid 'pattern'/'patterns' argument"),
                    });
                }
                v.clone()
            },
            None => {
                return Err(ToolError {
                    kind: ToolErrorKind::InvalidInput,
                    message: String::from_str("Missing or invalid 'pattern'/'patterns' argument"),
                });
            },
        },
    };
    let ghost ps = views(patterns@);
    let regex = match args.regex { Some(b) => b, None => false };
    let cs = match args.case_sensitive { Some(b) => b, None => true };
    let ghost bad = |k: int| regex && !regex_compiles(ps[k], !cs);
    let mut matchers: Vec<Matcher> = Vec::new();
    let mut i: usize = 0;
    while i < patterns.len()
        invariant
            i <= patterns.len(),
            ps == views(patterns@),
            bad == (|k: int| regex && !regex_compiles(ps[k], !cs)),
            requested_patterns(*args) == Some(ps),
            regex == (args.regex == Some(true)),
            cs == (args.case_sensitive != Some(false)),
            first_at(i as nat, bad) is None,
            matchers.len() == i,
            forall|k: int| 0 <= k < i ==> matcher_for(#[trigger] matchers@[k], ps[k], regex, cs),
        decreases patterns.len() - i,
    {
        match build_matcher(patterns[i].as_str(), regex, cs) {
            Ok(m) => {
                matchers.push(m);
                proof {
                    assert(!bad(i as int));
                }
            },
            Err(e) => {
                proof {
                    assert(bad(i as int));
                    lemma_first_at_extend((i + 1) as nat, patterns.len() as nat, bad);
                    assert(bad =~= (|k: int| regex && !regex_compiles(ps[k], !cs)));
                    assert(first_bad_regex(ps, regex, cs) == first_at(ps.len(), bad));
                }
                return Err(e);
            },
        }
        i += 1;
    }
    let context_lines: usize = match args.context_lines { Some(c) => c as usize, None => 0 };
    let offset: usize = match args.offset { Some(o) => o as usize, None => 0 };
    let limit: Option<usize> = match args.limit { Some(l) => Some(l as usize), None => None };
    let max_tokens: Option<usize> = match args.max_tokens { Some(m) => Some(m as usize), None => None };
    let estimate = match args.estimate { Some(b) => b, None => false };
    Ok(SearchRequest {
        path: args.path.clone(),
        patterns,
        matchers,
        context_lines,
        offset,
        limit,
        max_tokens,
        estimate,
    })
}

/// The hits of a request over `files`, sorted by file, line, column and
/// pattern.
pub open spec fn search_hits(req: SearchRequest, files: Seq<SearchFile>) -> Seq<HitView> {
    sorted_view::<Hit>(files_hits(req.matchers@, views(req.patterns@), files, req.context_lines as nat, files.len()))
}

/// Header of the rows with one pattern.
pub open spec fn single_header() -> Seq<char> {
    "file|line|col|context"@
}

/// Header of the rows with several patterns.
pub open spec fn multi_header() -> Seq<char> {
    "pattern|file|line|col|context"@
}

/// The fields of a hit's row (the pattern first when there are several).
pub open spec fn hit_fields(h: HitView, multi: bool) -> Seq<Seq<char>> {
    if multi {
        seq![h.pattern, h.rel, decimal(h.line), decimal(h.col), h.context]
    } else {
        seq![h.rel, decimal(h.line), decimal(h.col), h.context]
    }
}

/// The rows of a list of hits.
pub open spec fn hit_rows(hits: Seq<HitView>, multi: bool) -> Seq<Seq<char>> {
    hits.map_values(|h: HitView| row_of(hit_fields(h, multi)))
}

/// The number of distinct values in `s`.
pub open spec fn distinct_count(s: Seq<Seq<char>>) -> nat
    decreases s.len(),
{
    if s.len() == 0 {
        0
    } else {
        distinct_count(s.drop_last()) + if s.drop_last().contains(s.last()) { 0nat } else { 1nat }
    }
}

/// The files of a list of hits.
pub open spec fn hit_files(hits: Seq<HitView>) -> Seq<Seq<char>> {
    hits.map_values(|h: HitView| h.file)
}

/// The bytes an estimate counts: each hit's context and file, plus 16.
pub open spec fn estimate_chars(hits: Seq<HitView>) -> nat
    decreases hits.len(),
{
    if hits.len() == 0 {
        0
    } else {
        estimate_chars(hits.drop_last()) + utf8(hits.last().context).len() + utf8(hits.last().file).len() + 16
    }
}

/// `n`, or the largest `usize` when it does not fit.
pub open spec fn saturated(n: nat) -> nat {
    if n <= usize::MAX { n } else { usize::MAX as nat }
}

/// The estimated token cost: a quarter of the bytes plus four per row,
/// each step held at the largest `usize`.
pub open spec fn estimate_tokens(hits: Seq<HitView>) -> nat {
    saturated(saturated(estimate_chars(hits)) / 4 + hits.len() * 4)
}

/// The answer to an estimate request.
pub open spec fn estimate_json(pats: Seq<Seq<char>>, hits: Seq<HitView>) -> Seq<char> {
    "{\"estimated_rows\":"@ + decimal(hits.len()) + ",\"estimated_tokens\":"@ + decimal(estimate_tokens(hits))
        + ",\"pat\":"@ + json_string_array(pats) + ",\"scope_summary\":"@
        + json_quoted(decimal(distinct_count(hit_files(hits))) + " files"@) + ",\"total\":"@ + decimal(hits.len()) + "}"@
}

/// What the budget measures before the rows: the header.
pub open spec fn budget_pre(pats: Seq<Seq<char>>) -> Seq<char> {
    let header = if pats.len() > 1 { multi_header() } else { single_header() };
    "{\"h\":"@ + json_quoted(header) + ",\"m\":"@
}

/// What the budget measures after the rows: the patterns.
pub open spec fn budget_post(pats: Seq<Seq<char>>) -> Seq<char> {
    ",\"pat\":"@ + json_string_array(pats) + "}"@
}

/// The answer: header, hint, rows, paging and patterns (one pattern as a
/// string, several as an array), keys in order.
pub open spec fn search_json(pats: Seq<Seq<char>>, rows: Seq<char>, truncated: bool, total: nat, offset: nat) -> Seq<char> {
    let multi = pats.len() > 1;
    let header = if multi { multi_header() } else { single_header() };
    "{"@ + (if truncated { "\"@\":{\"t\":true},"@ } else { seq![] }) + "\"h\":"@ + json_quoted(header)
        + ",\"hint\":"@ + json_quoted(search_hint_text(total, truncated, pats[0])) + ",\"m\":"@ + json_quoted(rows)
        + ",\"offset\":"@ + decimal(offset) + ",\"pat\":"@
        + (if multi { json_string_array(pats) } else { json_quoted(pats[0]) }) + ",\"total\":"@ + decimal(total) + "}"@
}

/// The rows of the page a request asks for.
pub open spec fn search_rows(req: SearchRequest, files: Seq<SearchFile>) -> Seq<Seq<char>> {
    hit_rows(page(search_hits(req, files), req.offset as nat, opt_nat(req.limit)), req.patterns.len() > 1)
}

/// The row of one hit.
fn hit_row(h: &Hit, multi: bool) -> (r: String)
    ensures
        r@ == row_of(hit_fields(h@, multi)),
{
    let mut fields: Vec<String> = Vec::new();
    if multi {
        fields.push(h.pattern.clone());
    }
    fields.push(h.rel.clone());
    fields.push(decimal_string(h.line));
    fields.push(decimal_string(h.col));
    fields.push(h.context.clone());
    proof {
        assert(views(fields@) =~= hit_fields(h@, multi));
    }
    format_row(&fields)
}

/// The rows of `hits[lo..hi]`.
fn rows_between(hits: &Vec<Hit>, lo: usize, hi: usize, multi: bool) -> (r: Vec<String>)
    requires
        lo <= hi <= hits.len(),
    ensures
        views(r@) == hit_rows(view_seq(hits@).subrange(lo as int, hi as int), multi),
{
    let mut out: Vec<String> = Vec::new();
    let mut i: usize = lo;
    while i < hi
        invariant
            lo <= i <= hi,
            hi <= hits.len(),
            views(out@) == hit_rows(view_seq(hits@).subrange(lo as int, i as int), multi),
        decreases hi - i,
    {
        let row = hit_row(&hits[i], multi);
        let ghost before = out@;
        out.push(row);
        proof {
            assert(views(out@) =~= views(before).push(row@));
            assert(view_seq(hits@).subrange(lo as int, i + 1) =~= view_seq(hits@).subrange(lo as int, i as int).push(hits@[i as int]@));
            assert(hit_rows(view_seq(hits@).subrange(lo as int, i + 1), multi) =~= hit_rows(view_seq(hits@).subrange(lo as int, i as int), multi).push(row@));
        }
        i += 1;
    }
    out
}

/// Whether `files[..i]` holds `files[i]`.
fn seen_before(hits: &Vec<Hit>, i: usize) -> (r: bool)
    requires
        i < hits.len(),
    ensures
        r == hit_files(view_seq(hits@)).take(i as int).contains(hits@[i as int].file@),
{
    let ghost fs = hit_files(view_seq(hits@));
    let mut j: usize = 0;
    while j < i
        invariant
            j <= i,
            i < hits.len(),
            fs == hit_files(view_seq(hits@)),
            forall|t: int| 0 <= t < j ==> fs[t] != hits@[i as int].file@,
        decreases i - j,
    {
        if str_eq(hits[j].file.as_str(), hits[i].file.as_str()) {
            proof {
                assert(fs.take(i as int)[j as int] == hits@[i as int].file@);
            }
            return true;
        }
        j += 1;
    }
    proof {
        assert forall|t: int| 0 <= t < i implies fs.take(i as int)[t] != hits@[i as int].file@ by {}
    }
    false
}

/// The answer to an estimate request.
fn estimate_text(pats: &Vec<String>, hits: &Vec<Hit>) -> (r: String)
    ensures
        r@ == estimate_json(views(pats@), view_seq(hits@)),
{
    let ghost hv = view_seq(hits@);
    let mut chars: usize = 0;
    let mut files: usize = 0;
    let mut i: usize = 0;
    proof {
        assert(hv.take(0) =~= Seq::<HitView>::empty());
        assert(hit_files(hv.take(0)) =~= Seq::<Seq<char>>::empty());
    }
    while i < hits.len()
        invariant
            i <= hits.len(),
            hv == view_seq(hits@),
            chars as nat == saturated(estimate_chars(hv.take(i as int))),
            files as nat == distinct_count(hit_files(hv.take(i as int))),
            files <= i,
        decreases hits.len() - i,
    {
        let ghost t = hv.take(i + 1);
        proof {
            assert(t.drop_last() =~= hv.take(i as int));
            assert(t.last() == hits@[i as int]@);
            assert(hit_files(t).drop_last() =~= hit_files(hv.take(i as int)));
            assert(hit_files(t).last() == hits@[i as int].file@);
            assert(hit_files(hv.take(i as int)) =~= hit_files(hv).take(i as int));
        }
        let cl = hits[i].context.as_str().as_bytes().len();
        let fl = hits[i].file.as_str().as_bytes().len();
        proof {
            assert(cl == utf8(hits@[i as int].context@).len());
            assert(fl == utf8(hits@[i as int].file@).len());
        }
        let step = cl as u128 + fl as u128 + 16;
        let sum = chars as u128 + step;
        chars = if sum > usize::MAX as u128 { usize::MAX } else { sum as usize };
        proof {
            assert(estimate_chars(t) == estimate_chars(hv.take(i as int)) + utf8(hits@[i as int].context@).len()
                + utf8(hits@[i as int].file@).len() + 16);
        }
        if !seen_before(hits, i) {
            files = files + 1;
        }
        i += 1;
    }
    proof {
        assert(hv.take(hits.len() as int) =~= hv);
    }
    let total = hits.len();
    let quarter = chars / 4;
    let tokens: usize = if total <= (usize::MAX - quarter) / 4 { quarter + total * 4 } else { usize::MAX };
    let mut out = String::from_str("{\"estimated_rows\":");
    push_decimal(&mut out, total);
    out.append(",\"estimated_tokens\":");
    push_decimal(&mut out, tokens);
    out.append(",\"pat\":");
    let arr = string_array(pats);
    out.append(arr.as_str());
    out.append(",\"scope_summary\":");
    let mut summary = decimal_string(files);
    summary.append(" files");
    append_quoted(&mut out, summary.as_str());
    out.append(",\"total\":");
    push_decimal(&mut out, total);
    out.append("}");
    proof {
        assert(tokens as nat == estimate_tokens(hv)) by (nonlinear_arith)
            requires
                quarter as nat == saturated(estimate_chars(hv)) / 4,
                total as nat == hv.len(),
                tokens == (if total <= (usize::MAX - quarter) / 4 { quarter + total * 4 } else { usize::MAX as int }),
        {}
        assert(out@ =~= estimate_json(views(pats@), hv));
    }
    out
}

/// The answer for the rows kept.
fn answer_text(pats: &Vec<String>, rows: &str, truncated: bool, total: usize, offset: usize) -> (r: String)
    requires
        pats.len() >= 1,
    ensures
        r@ == search_json(views(pats@), rows@, truncated, total as nat, offset as nat),
{
    let multi = pats.len() > 1;
    let header: &str = if multi { "pattern|file|line|col|context" } else { "file|line|col|context" };
    let hint = search_hint(total, truncated, pats[0].as_str());
    let mut out = String::from_str("{");
    if truncated {
        out.append("\"@\":{\"t\":true},");
    }
    out.append("\"h\":");
    append_quoted(&mut out, header);
    out.append(",\"hint\":");
    append_quoted(&mut out, hint.as_str());
    out.append(",\"m\":");
    append_quoted(&mut out, rows);
    out.append(",\"offset\":");
    push_decimal(&mut out, offset);
    out.append(",\"pat\":");
    if multi {
        let arr = string_array(pats);
        out.append(arr.as_str());
    } else {
        append_quoted(&mut out, pats[0].as_str());
    }
    out.append(",\"total\":");
    push_decimal(&mut out, total);
    out.append("}");
    proof {
        let h = if multi { multi_header() } else { single_header() };
        assert(header@ == h);
        assert(views(pats@)[0] == pats@[0]@);
        assert(out@ =~= search_json(views(pats@), rows@, truncated, total as nat, offset as nat));
    }
    out
}

/// The `search_text` answer for a checked request over the files found:
/// every line that matches, sorted, then either the cost estimate or the
/// requested page of rows, trimmed to the token budget when one is given.
pub fn search_answer(req: &SearchRequest, files: &Vec<SearchFile>) -> (r: Result<String, ToolError>)
    requires
        req.wf(),
    ensures
        ({
            let pats = views(req.patterns@);
            let hits = search_hits(*req, files@);
            let rows = search_rows(*req, files@);
            if req.estimate {
                r matches Ok(t) && t@ == estimate_json(pats, hits)
            } else {
                match req.max_tokens {
                    None => r matches Ok(t) && t@ == search_json(pats, joined(rows, rows.len()), false, hits.len(), req.offset as nat),
                    Some(m) => match budget_choice(rows, budget_pre(pats), budget_pre(pats), budget_post(pats), m as nat) {
                        Some(kept) => r matches Ok(t) && t@ == search_json(pats, kept.0, kept.1, hits.len(), req.offset as nat),
                        None => r matches Err(e) && e.kind == ToolErrorKind::Other,
                    },
                }
            }
        }),
{
    let found = collect_hits(&req.matchers, &req.patterns, files, req.context_lines);
    let hits = sort_by_view(found);
    let ghost hv = view_seq(hits@);
    let total = hits.len();
    if req.estimate {
        return Ok(estimate_text(&req.patterns, &hits));
    }
    let multi = req.patterns.len() > 1;
    let (lo, hi) = page_bounds::<HitView>(total, req.offset, req.limit);
    let rows = rows_between(&hits, lo, hi, multi);
    proof {
        assert(page(hv, req.offset as nat, opt_nat(req.limit)) == hv.subrange(lo as int, hi as int));
    }
    match req.max_tokens {
        None => {
            let text = join_prefix(&rows, rows.len());
            Ok(answer_text(&req.patterns, text.as_str(), false, total, req.offset))
        },
        Some(m) => {
            let tok = match load_cl100k() {
                Ok(t) => t,
                Err(e) => {
                    let mut msg = String::from_str("Failed to init tokenizer: ");
                    msg.append(e.as_str());
                    proof {
                        reveal_strlit("Failed to init tokenizer: ");
                        assert(msg@.take(26) =~= "Failed to init tokenizer: "@);
                    }
                    return Err(ToolError { kind: ToolErrorKind::Other, message: msg });
                },
            };
            let header: &str = if multi { "pattern|file|line|col|context" } else { "file|line|col|context" };
            let mut pre = String::from_str("{\"h\":");
            append_quoted(&mut pre, header);
            pre.append(",\"m\":");
            let mut post = String::from_str(",\"pat\":");
            let arr = string_array(&req.patterns);
            post.append(arr.as_str());
            post.append("}");
            proof {
                let pats = views(req.patterns@);
                let h = if multi { multi_header() } else { single_header() };
                assert(header@ == h);
                assert(pre@ =~= budget_pre(pats));
                assert(post@ =~= budget_post(pats));
            }
            let (text, truncated) = match budget_with(&tok, &rows, pre.as_str(), pre.as_str(), post.as_str(), m) {
                Ok(kept) => kept,
                Err(e) => return Err(ToolError { kind: ToolErrorKind::Other, message: e }),
            };
            Ok(answer_text(&req.patterns, text.as_str(), truncated, total, req.offset))
        },
    }
}

} // verus!
