//! LSP reference locations: reading a location record, finding the column
//! of a symbol nearest to where a reference points, and picking the
//! identifier node of a syntax tree that the reference names.

use vstd::prelude::*;
use vstd::string::StringSliceAdditionalSpecFns;
use crate::error::{ToolError, ToolErrorKind};
use crate::value::{Json, json_get, opt_u64, opt_str, get, as_u64};
use crate::diagnostics::{or_else, record_file, range_start, record_file_of, range_start_of, alias_of};
use crate::lines::{lines_of, split_lines};
use crate::search::{bytes_at, utf8};
use crate::syntax::{SyntaxTree, SyntaxNode, identifier_kind};
use crate::text::{first_at, lemma_first_at, lemma_first_at_extend, str_eq, str_ends_with};
use crate::rows::views;

verus! {

/// Where a reference points: a file and a 1-based line and column.
pub struct ReferenceLocation {
    pub file: String,
    pub line: usize,
    pub column: usize,
}

/// A location as plain values.
pub struct LocationView {
    pub file: Seq<char>,
    pub line: nat,
    pub column: nat,
}

impl View for ReferenceLocation {
    type V = LocationView;

    open spec fn view(&self) -> LocationView {
        LocationView { file: self.file@, line: self.line as nat, column: self.column as nat }
    }
}

/// What a reference record reads as, or the message of the first thing
/// missing from it: an LSP `range.start` (0-based, turned 1-based) when the
/// record has one, else its own 1-based `line` and `col` (or `column`).
pub open spec fn reference_of(v: Json) -> Result<LocationView, Seq<char>> {
    match record_file(v) {
        None => Err("Reference is missing 'file', 'file_path', or 'uri'"@),
        Some(file) => match range_start(v) {
            Some(s) => match opt_u64(json_get(s, "line"@)) {
                None => Err("LSP range is missing start.line"@),
                Some(l) => match opt_u64(json_get(s, "character"@)) {
                    None => Err("LSP range is missing start.character"@),
                    Some(c) => Ok(LocationView { file, line: (l as usize) as nat + 1, column: (c as usize) as nat + 1 }),
                },
            },
            None => match opt_u64(json_get(v, "line"@)) {
                None => Err("Reference is missing 1-based 'line'"@),
                Some(l) => match opt_u64(or_else(json_get(v, "col"@), json_get(v, "column"@))) {
                    None => Err("Reference is missing 1-based 'col' or 'column'"@),
                    Some(c) => Ok(LocationView { file, line: (l as usize) as nat, column: (c as usize) as nat }),
                },
            },
        },
    }
}

/// The 0-based LSP numbers a record gives turn 1-based without overflow
/// (the records on which reading them does not fail by overflow).
pub open spec fn reference_fits(v: Json) -> bool {
    record_file(v) is Some ==> match range_start(v) {
        Some(s) => match opt_u64(json_get(s, "line"@)) {
            Some(l) => (l as usize) < usize::MAX
                && (opt_u64(json_get(s, "character"@)) matches Some(c) ==> (c as usize) < usize::MAX),
            None => true,
        },
        None => true,
    }
}

/// A failure of the record's shape.
fn invalid(message: &str) -> (e: ToolError)
    ensures
        e.kind == ToolErrorKind::InvalidInput,
        e.message@ == message@,
{
    ToolError { kind: ToolErrorKind::InvalidInput, message: String::from_str(message) }
}

/// Reads one reference record.
pub fn parse_reference_location(v: &Json) -> (r: Result<ReferenceLocation, ToolError>)
    requires
        reference_fits(*v),
    ensures
        match reference_of(*v) {
            Ok(loc) => r matches Ok(x) && x@ == loc,
            Err(m) => r matches Err(e) && e.kind == ToolErrorKind::InvalidInput && e.message@ == m,
        },
{
    let file = match record_file_of(v) {
        Some(f) => f,
        None => {
            return Err(invalid("Reference is missing 'file', 'file_path', or 'uri'"));
        },
    };
    match range_start_of(v) {
        Some(start) => {
            let l = match as_u64(get(start, "line")) {
                Some(l) => l,
                None => {
                    return Err(invalid("LSP range is missing start.line"));
                },
            };
            let c = match as_u64(get(start, "character")) {
                Some(c) => c,
                None => {
                    return Err(invalid("LSP range is missing start.character"));
                },
            };
            Ok(ReferenceLocation { file, line: l as usize + 1, column: c as usize + 1 })
        },
        None => {
            let l = match as_u64(get(v, "line")) {
                Some(l) => l,
                None => {
                    return Err(invalid("Reference is missing 1-based 'line'"));
                },
            };
            let col_value = alias_of(v, "col", "column");
            match as_u64(col_value) {
                Some(c) => Ok(ReferenceLocation { file, line: l as usize, column: c as usize }),
                None => Err(invalid("Reference is missing 1-based 'col' or 'column'")),
            }
        },
    }
}

/// `i` is a character boundary of the UTF-8 bytes `h` (the end counts).
pub open spec fn is_boundary(h: Seq<u8>, i: int) -> bool {
    i == h.len() || !(0x80 <= h[i] && h[i] < 0xC0)
}

/// The character boundaries of `h` from byte `from` on, in order (where an
/// empty pattern matches).
pub open spec fn boundaries_from(h: Seq<u8>, from: nat) -> Seq<int>
    decreases h.len() + 1 - from,
{
    if from > h.len() {
        seq![]
    } else if is_boundary(h, from as int) {
        seq![from as int] + boundaries_from(h, from + 1)
    } else {
        boundaries_from(h, from + 1)
    }
}

/// The first byte offset at or after `from` where `n` occurs in `h`.
pub open spec fn next_match(h: Seq<u8>, n: Seq<u8>, from: nat) -> Option<int> {
    first_at((h.len() + 1) as nat, |i: int| i >= from && bytes_at(h, n, i))
}

/// Where `n` matches in `h` from byte `from` on, left to right and without
/// overlap (`str::match_indices`); an empty `n` matches at every boundary.
pub open spec fn match_starts(h: Seq<u8>, n: Seq<u8>, from: nat) -> Seq<int>
    decreases h.len() + 1 - from,
{
    if from > h.len() {
        seq![]
    } else if n.len() == 0 {
        boundaries_from(h, from)
    } else {
        match next_match(h, n, from) {
            Some(i) => if from <= i && i + n.len() <= h.len() {
                seq![i] + match_starts(h, n, (i + n.len()) as nat)
            } else {
                seq![]
            },
            None => seq![],
        }
    }
}

/// How far a match `start..start + len` lies from `column` (0 inside it).
pub open spec fn match_distance(start: int, len: int, column: int) -> int {
    if column < start {
        start - column
    } else if column >= start + len {
        column - (start + len)
    } else {
        0
    }
}

/// The first of `starts` at the least distance from `column`, with it.
pub open spec fn nearest_of(starts: Seq<int>, len: int, column: int) -> Option<(int, int)>
    decreases starts.len(),
{
    if starts.len() == 0 {
        None
    } else {
        let x = starts.last();
        let d = match_distance(x, len, column);
        match nearest_of(starts.drop_last(), len, column) {
            None => Some((x, d)),
            Some((b, bd)) => if d < bd { Some((x, d)) } else { Some((b, bd)) },
        }
    }
}

/// The byte column of the occurrence of `symbol` on 0-based line `line`
/// nearest to byte column `column`; none when the line or the symbol is
/// not there.
pub open spec fn nearest_column(source: Seq<char>, line: nat, column: nat, symbol: Seq<char>) -> Option<nat> {
    let ls = lines_of(source);
    if line < ls.len() {
        match nearest_of(match_starts(utf8(ls[line as int]), utf8(symbol), 0), utf8(symbol).len() as int, column as int) {
            Some((x, _)) => Some(x as nat),
            None => None,
        }
    } else {
        None
    }
}

/// `first_at` finds nothing where `p` fails everywhere below `n`.
proof fn lemma_first_at_none(n: nat, p: spec_fn(int) -> bool)
    requires
        forall|j: int| 0 <= j < n ==> !#[trigger] p(j),
    ensures
        first_at(n, p) is None,
    decreases n,
{
    if n > 0 {
        lemma_first_at_none((n - 1) as nat, p);
    }
}

/// The first byte offset at or after `from` where `n` occurs in `h`.
fn find_from(h: &[u8], n: &[u8], from: usize) -> (r: Option<usize>)
    requires
        n@.len() > 0,
    ensures
        match next_match(h@, n@, from as nat) {
            Some(i) => r matches Some(x) && x as int == i,
            None => r is None,
        },
{
    let ghost p = |i: int| i >= from && bytes_at(h@, n@, i);
    proof {
        lemma_first_at(h@.len() + 1, p);
    }
    if n.len() > h.len() || from > h.len() - n.len() {
        proof {
            assert forall|j: int| 0 <= j < h@.len() + 1 implies !#[trigger] p(j) by {}
            lemma_first_at_none((h@.len() + 1) as nat, p);
        }
        return None;
    }
    let last = h.len() - n.len();
    proof {
        assert forall|j: int| 0 <= j < from implies !#[trigger] p(j) by {}
        lemma_first_at_none(from as nat, p);
    }
    let mut i: usize = from;
    while i <= last
        invariant
            from <= i <= last + 1,
            last == h.len() - n.len(),
            n@.len() > 0,
            p == (|i: int| i >= from && bytes_at(h@, n@, i)),
            first_at(i as nat, p) is None,
        decreases last + 1 - i,
    {
        let mut k: usize = 0;
        let mut ok = true;
        while k < n.len()
            invariant
                i <= last,
                last == h.len() - n.len(),
                k <= n.len(),
                ok == (forall|t: int| 0 <= t < k ==> h@[i + t] == n@[t]),
            decreases n.len() - k,
        {
            if h[i + k] != n[k] {
                ok = false;
            }
            k += 1;
        }
        proof {
            if ok {
                assert(h@.subrange(i as int, i + n@.len()) =~= n@);
            } else {
                let t = choose|t: int| 0 <= t < n.len() && h@[i + t] != n@[t];
                assert(h@.subrange(i as int, i + n@.len())[t] != n@[t]);
            }
        }
        if ok {
            proof {
                assert(p(i as int));
                lemma_first_at_extend((i + 1) as nat, (h@.len() + 1) as nat, p);
            }
            return Some(i);
        }
        i += 1;
    }
    proof {
        assert forall|j: int| last + 1 <= j < h@.len() + 1 implies !#[trigger] p(j) by {}
        assert forall|j: int| 0 <= j < h@.len() + 1 implies !#[trigger] p(j) by {
            if j < last + 1 {
                lemma_first_at(i as nat, p);
            }
        }
        lemma_first_at_none((h@.len() + 1) as nat, p);
    }
    None
}

/// `x` at distance `d` replaces the best so far only when strictly nearer.
fn better(best: Option<(usize, usize)>, x: usize, d: usize) -> (r: Option<(usize, usize)>)
    ensures
        r == (match best {
            None => Some((x, d)),
            Some((b, bd)) => if d < bd { Some((x, d)) } else { Some((b, bd)) },
        }),
{
    match best {
        None => Some((x, d)),
        Some((b, bd)) => if d < bd { Some((x, d)) } else { Some((b, bd)) },
    }
}

/// The distance of a match from `column`.
fn distance(start: usize, len: usize, column: usize) -> (d: usize)
    requires
        start + len <= usize::MAX,
    ensures
        d as int == match_distance(start as int, len as int, column as int),
{
    let end = start + len;
    if column < start {
        start - column
    } else if column >= end {
        column - end
    } else {
        0
    }
}

/// The best pair as integers.
pub open spec fn as_ints(b: Option<(usize, usize)>) -> Option<(int, int)> {
    match b {
        Some((x, d)) => Some((x as int, d as int)),
        None => None,
    }
}

/// The byte column of the occurrence of `symbol` on 0-based line `line`
/// nearest to byte column `column` (the first of equally near ones).
pub fn nearest_symbol_column(source: &str, line: usize, column: usize, symbol: &str) -> (r: Option<usize>)
    ensures
        match nearest_column(source@, line as nat, column as nat, symbol@) {
            Some(c) => r matches Some(x) && x as nat == c,
            None => r is None,
        },
{
    let lines = split_lines(source);
    if line >= lines.len() {
        return None;
    }
    let h = lines[line].as_str().as_bytes();
    let n = symbol.as_bytes();
    let ghost hv = h@;
    let ghost nv = n@;
    proof {
        assert(views(lines@)[line as int] == lines@[line as int]@);
        assert(hv == utf8(lines_of(source@)[line as int]));
        assert(nv == utf8(symbol@));
    }
    let nlen = n.len();
    let mut best: Option<(usize, usize)> = None;
    let ghost mut seen: Seq<int> = seq![];
    let mut from: usize = 0;
    if nlen == 0 {
        while from < h.len()
            invariant
                hv == h@,
                nv.len() == 0,
                nlen == 0,
                from <= h.len(),
                match_starts(hv, nv, 0) == seen + match_starts(hv, nv, from as nat),
                as_ints(best) == nearest_of(seen, 0, column as int),
            decreases h.len() - from,
        {
            let here = !(0x80 <= h[from] && h[from] < 0xC0);
            let ghost before = seen;
            proof {
                assert(here == is_boundary(hv, from as int));
                assert(match_starts(hv, nv, from as nat) == boundaries_from(hv, from as nat));
                assert(match_starts(hv, nv, (from + 1) as nat) == boundaries_from(hv, (from + 1) as nat));
            }
            if here {
                let d = distance(from, 0, column);
                best = better(best, from, d);
                proof {
                    seen = seen.push(from as int);
                    assert(seen.drop_last() =~= before);
                    assert(boundaries_from(hv, from as nat) == seq![from as int] + boundaries_from(hv, (from + 1) as nat));
                    assert(before + match_starts(hv, nv, from as nat) =~= seen + match_starts(hv, nv, (from + 1) as nat));
                }
            }
            from += 1;
        }
        let d = distance(from, 0, column);
        best = better(best, from, d);
        let ghost before = seen;
        proof {
            seen = seen.push(from as int);
            assert(seen.drop_last() =~= before);
            assert(match_starts(hv, nv, from as nat) == boundaries_from(hv, from as nat));
            assert(boundaries_from(hv, (from + 1) as nat) =~= Seq::<int>::empty());
            assert(boundaries_from(hv, from as nat) == seq![from as int] + boundaries_from(hv, (from + 1) as nat));
            assert(match_starts(hv, nv, 0) =~= seen);
        }
    } else {
        while from <= h.len()
            invariant
                hv == h@,
                nv == n@,
                nlen == nv.len(),
                nlen > 0,
                from <= h.len() + 1,
                match_starts(hv, nv, 0) == seen + match_starts(hv, nv, from as nat),
                as_ints(best) == nearest_of(seen, nlen as int, column as int),
            ensures
                match_starts(hv, nv, 0) == seen,
                as_ints(best) == nearest_of(seen, nlen as int, column as int),
            decreases h.len() + 1 - from,
        {
            match find_from(h, n, from) {
                None => {
                    proof {
                        assert(match_starts(hv, nv, from as nat) =~= Seq::<int>::empty());
                        assert(seen + match_starts(hv, nv, from as nat) =~= seen);
                    }
                    break;
                },
                Some(i) => {
                    proof {
                        lemma_first_at((hv.len() + 1) as nat, |j: int| j >= from && bytes_at(hv, nv, j));
                    }
                    let d = distance(i, nlen, column);
                    best = better(best, i, d);
                    let ghost before = seen;
                    proof {
                        seen = seen.push(i as int);
                        assert(seen.drop_last() =~= before);
                        assert(match_starts(hv, nv, from as nat) == seq![i as int] + match_starts(hv, nv, (i + nlen) as nat));
                        assert(before + match_starts(hv, nv, from as nat) =~= seen + match_starts(hv, nv, (i + nlen) as nat));
                    }
                    from = i + nlen;
                },
            }
        }
    }
    proof {
        assert(seen == match_starts(hv, nv, 0));
        assert(nv.len() == nlen);
    }
    match best {
        Some((x, _)) => Some(x),
        None => None,
    }
}

/// Whether a node kind names something (`identifier` or `*_identifier`).
pub fn is_identifier(kind: &str) -> (b: bool)
    ensures
        b == identifier_kind(kind@),
{
    str_eq(kind, "identifier") || str_ends_with(kind, "_identifier")
}

/// The node's span holds the point (both ends included).
pub open spec fn spans_point(n: SyntaxNode, row: nat, col: nat) -> bool {
    &&& (row > n.start_row || (row == n.start_row && col >= n.start_col))
    &&& (row < n.end_row || (row == n.end_row && col <= n.end_col))
}

/// Whether node `n` spans the point.
pub fn contains_point(n: &SyntaxNode, row: usize, col: usize) -> (b: bool)
    ensures
        b == spans_point(*n, row as nat, col as nat),
{
    (row > n.start_row || (row == n.start_row && col >= n.start_col))
        && (row < n.end_row || (row == n.end_row && col <= n.end_col))
}

/// The nearest identifier at or above node `i`.
pub open spec fn ident_ancestor(t: SyntaxTree, i: int) -> Option<int>
    decreases i,
{
    if !(0 <= i < t.nodes.len()) {
        None
    } else if identifier_kind(t.nodes@[i].kind@) {
        Some(i)
    } else {
        match t.nodes@[i].parent {
            Some(p) => if p < i { ident_ancestor(t, p as int) } else { None },
            None => None,
        }
    }
}

/// The first identifier, in pre-order over named children, in the subtree
/// of `i` whose span holds the point; a subtree that does not hold the
/// point is not entered.
pub open spec fn descendant_at(t: SyntaxTree, i: int, row: nat, col: nat) -> Option<int>
    decreases t.nodes.len() - i, t.nodes@[i].children.len() + 1,
{
    if !(0 <= i < t.nodes.len()) || !spans_point(t.nodes@[i], row, col) {
        None
    } else if identifier_kind(t.nodes@[i].kind@) {
        Some(i)
    } else {
        descendant_kids(t, i, 0, row, col)
    }
}

/// The first found among the named children of `i` from child `k` on.
pub open spec fn descendant_kids(t: SyntaxTree, i: int, k: int, row: nat, col: nat) -> Option<int>
    decreases t.nodes.len() - i, t.nodes@[i].children.len() - k,
{
    if !(0 <= i < t.nodes.len()) || k < 0 || k >= t.nodes@[i].children.len() {
        None
    } else {
        match t.named_child(i, k) {
            Some(c) => match descendant_at(t, c, row, col) {
                Some(f) => Some(f),
                None => descendant_kids(t, i, k + 1, row, col),
            },
            None => descendant_kids(t, i, k + 1, row, col),
        }
    }
}

/// The nearest identifier at or above node `i`.
pub fn identifier_ancestor(t: &SyntaxTree, i: usize) -> (r: Option<usize>)
    requires
        t.wf(),
        i < t.nodes.len(),
    ensures
        match ident_ancestor(*t, i as int) {
            Some(a) => r == Some(a as usize),
            None => r is None,
        },
    decreases i,
{
    if is_identifier(t.nodes[i].kind.as_str()) {
        return Some(i);
    }
    proof {
        assert(t.node_wf(i as int));
    }
    match t.nodes[i].parent {
        Some(p) => identifier_ancestor(t, p),
        None => None,
    }
}

/// The first identifier under node `i` whose span holds the point.
pub fn identifier_descendant_at(t: &SyntaxTree, i: usize, row: usize, col: usize) -> (r: Option<usize>)
    requires
        t.wf(),
        i < t.nodes.len(),
    ensures
        match descendant_at(*t, i as int, row as nat, col as nat) {
            Some(f) => r == Some(f as usize),
            None => r is None,
        },
    decreases t.nodes.len() - i,
{
    let n = &t.nodes[i];
    if !contains_point(n, row, col) {
        return None;
    }
    if is_identifier(n.kind.as_str()) {
        return Some(i);
    }
    proof {
        assert(t.node_wf(i as int));
    }
    let mut k: usize = 0;
    while k < n.children.len()
        invariant
            t.wf(),
            i < t.nodes.len(),
            n == t.nodes@[i as int],
            k <= n.children.len(),
            spans_point(*n, row as nat, col as nat),
            !identifier_kind(n.kind@),
            descendant_at(*t, i as int, row as nat, col as nat) == descendant_kids(*t, i as int, k as int, row as nat, col as nat),
            forall|j: int| 0 <= j < n.children.len() ==> i < #[trigger] n.children@[j] < t.nodes.len(),
        decreases n.children.len() - k,
    {
        let c = n.children[k];
        if t.nodes[c].is_named {
            match identifier_descendant_at(t, c, row, col) {
                Some(f) => {
                    return Some(f);
                },
                None => {},
            }
        }
        k += 1;
    }
    None
}

/// The identifier a lookup at a point settles on, given the smallest node
/// spanning the range there (`found`): that node when it is an identifier,
/// else its nearest identifier ancestor, else the first identifier under
/// the root that holds the point.
pub open spec fn identifier_at_column(t: SyntaxTree, found: Option<usize>, row: nat, col: nat) -> Option<int> {
    match found {
        None => None,
        Some(f) => match ident_ancestor(t, f as int) {
            Some(a) => Some(a),
            None => descendant_at(t, 0, row, col),
        },
    }
}

/// The identifier at a point, given the smallest node spanning the range
/// that starts there.
pub fn identifier_node_at_column(t: &SyntaxTree, found: Option<usize>, row: usize, col: usize) -> (r: Option<usize>)
    requires
        t.wf(),
        found matches Some(f) ==> f < t.nodes.len(),
    ensures
        match identifier_at_column(*t, found, row as nat, col as nat) {
            Some(a) => r == Some(a as usize),
            None => r is None,
        },
{
    match found {
        None => None,
        Some(f) => match identifier_ancestor(t, f) {
            Some(a) => Some(a),
            None => identifier_descendant_at(t, 0, row, col),
        },
    }
}

/// The node's text is exactly `symbol`.
pub open spec fn text_is(n: SyntaxNode, symbol: Seq<char>) -> bool {
    n.text matches Some(s) && s@ == symbol
}

/// Whether the node's text is exactly `symbol`.
pub fn identifier_text_matches(n: &SyntaxNode, symbol: &str) -> (b: bool)
    ensures
        b == text_is(*n, symbol@),
{
    match &n.text {
        Some(s) => str_eq(s.as_str(), symbol),
        None => false,
    }
}

/// The identifier a reference names: the one at its column when its text is
/// the symbol, else the one at the nearest occurrence of the symbol on the
/// line. `found_at` and `found_near` are the smallest nodes spanning the
/// symbol's range at the column and at that nearest occurrence.
pub open spec fn identifier_node(t: SyntaxTree, source: Seq<char>, row: nat, col: nat, symbol: Seq<char>, found_at: Option<usize>, found_near: Option<usize>) -> Option<int> {
    let first = identifier_at_column(t, found_at, row, col);
    if first matches Some(n) && text_is(t.nodes@[n], symbol) {
        first
    } else {
        match nearest_column(source, row, col, symbol) {
            Some(c) => identifier_at_column(t, found_near, row, c),
            None => None,
        }
    }
}

/// The identifier node a reference names (see `identifier_node`).
pub fn identifier_node_at(t: &SyntaxTree, source: &str, row: usize, col: usize, symbol: &str, found_at: Option<usize>, found_near: Option<usize>) -> (r: Option<usize>)
    requires
        t.wf(),
        found_at matches Some(f) ==> f < t.nodes.len(),
        found_near matches Some(f) ==> f < t.nodes.len(),
    ensures
        match identifier_node(*t, source@, row as nat, col as nat, symbol@, found_at, found_near) {
            Some(a) => r == Some(a as usize),
            None => r is None,
        },
{
    match identifier_node_at_column(t, found_at, row, col) {
        Some(n) => {
            proof {
                lemma_ident_ancestor_in(*t, found_at, row as nat, col as nat);
            }
            if identifier_text_matches(&t.nodes[n], symbol) {
                return Some(n);
            }
        },
        None => {},
    }
    match nearest_symbol_column(source, row, col, symbol) {
        Some(c) => identifier_node_at_column(t, found_near, row, c),
        None => None,
    }
}

/// What `identifier_at_column` gives is a node of the tree.
proof fn lemma_ident_ancestor_in(t: SyntaxTree, found: Option<usize>, row: nat, col: nat)
    ensures
        identifier_at_column(t, found, row, col) matches Some(a) ==> 0 <= a < t.nodes.len(),
{
    if let Some(f) = found {
        lemma_ancestor_in(t, f as int);
        if ident_ancestor(t, f as int) is None {
            lemma_descendant_in(t, 0, row, col);
        }
    }
}

/// An identifier ancestor is a node of the tree.
proof fn lemma_ancestor_in(t: SyntaxTree, i: int)
    ensures
        ident_ancestor(t, i) matches Some(a) ==> 0 <= a < t.nodes.len(),
    decreases i,
{
    if 0 <= i < t.nodes.len() && !identifier_kind(t.nodes@[i].kind@) {
        if let Some(p) = t.nodes@[i].parent {
            if p < i {
                lemma_ancestor_in(t, p as int);
            }
        }
    }
}

/// A found descendant is a node of the tree.
proof fn lemma_descendant_in(t: SyntaxTree, i: int, row: nat, col: nat)
    ensures
        descendant_at(t, i, row, col) matches Some(a) ==> 0 <= a < t.nodes.len(),
    decreases t.nodes.len() - i, t.nodes@[i].children.len() + 1,
{
    if 0 <= i < t.nodes.len() && spans_point(t.nodes@[i], row, col) && !identifier_kind(t.nodes@[i].kind@) {
        lemma_kids_in(t, i, 0, row, col);
    }
}

/// A descendant found among children is a node of the tree.
proof fn lemma_kids_in(t: SyntaxTree, i: int, k: int, row: nat, col: nat)
    ensures
        descendant_kids(t, i, k, row, col) matches Some(a) ==> 0 <= a < t.nodes.len(),
    decreases t.nodes.len() - i, t.nodes@[i].children.len() - k,
{
    if 0 <= i < t.nodes.len() && 0 <= k < t.nodes@[i].children.len() {
        if let Some(c) = t.named_child(i, k) {
            lemma_descendant_in(t, c, row, col);
        }
        lemma_kids_in(t, i, k + 1, row, col);
    }
}

} // verus!
