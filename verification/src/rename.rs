//! The `rename_preview` dry run: the usage rows of a symbol turned into the
//! edits a rename would make, sorted by place, paged and budgeted.

use vstd::prelude::*;
use vstd::string::{StringExecFns, StrSliceExecFns};
use crate::error::{ToolError, ToolErrorKind};
use crate::rows::{row_of, views, format_row};
use crate::lines::{lines_of, split_lines, trimmed, trim, parse_usize_spec, parse_usize};
use crate::flow_text::split_on;
use crate::sort::{ViewOrdered, sorted_view, sort_by_view, view_seq};
use crate::graph_rows::{page, opt_nat, page_bounds};
use crate::budget::{budget_choice, budget_with, load_cl100k, join_prefix, joined};
use crate::json::{json_quoted, append_quoted};
use crate::text::{decimal, decimal_string, push_decimal, push_char, chars_of, seq_lt, str_three_way, str_eq};
use crate::search::distinct_count;
use crate::tools::RenamePreview;

verus! {

/// A row field with its escapes undone, left to right: a backslash and the
/// character after it stand for that character's meaning (`\n` newline,
/// `\r` carriage return, `\|` a bar, `\\` a backslash; an unknown escape
/// keeps its backslash); a lone backslash at the end stays.
pub open spec fn unescaped(s: Seq<char>) -> Seq<char>
    decreases s.len(),
{
    if s.len() == 0 {
        seq![]
    } else if s[0] == '\\' && s.len() >= 2 {
        crate::rows::unescape_char(s[1]) + unescaped(s.skip(2))
    } else {
        seq![s[0]] + unescaped(s.skip(1))
    }
}

/// Escaping a character in front of a field escapes it in front.
proof fn lemma_escape_front(c: char, t: Seq<char>)
    ensures
        crate::rows::escape_field(seq![c] + t) == crate::rows::escape_char(c) + crate::rows::escape_field(t),
    decreases t.len(),
{
    if t.len() == 0 {
        assert(seq![c] + t =~= seq![c]);
        assert(seq![c].drop_last() =~= Seq::<char>::empty());
        assert(crate::rows::escape_field(Seq::<char>::empty()) =~= Seq::<char>::empty());
        assert(seq![c].last() == c);
        assert(crate::rows::escape_field(seq![c]) =~= crate::rows::escape_char(c));
        assert(t =~= Seq::<char>::empty());
    } else {
        lemma_escape_front(c, t.drop_last());
        assert((seq![c] + t).drop_last() =~= seq![c] + t.drop_last());
        assert((seq![c] + t).last() == t.last());
        assert(crate::rows::escape_field(seq![c] + t) =~= crate::rows::escape_char(c) + crate::rows::escape_field(t));
    }
}

/// Unescaping an escaped field gives the field back: the row escapes
/// (backslash, newline, carriage return, bar) are undone exactly.
pub proof fn law_unescape_roundtrip(f: Seq<char>)
    ensures
        unescaped(crate::rows::escape_field(f)) == f,
    decreases f.len(),
{
    if f.len() > 0 {
        let c = f[0];
        let t = f.skip(1);
        assert(f =~= seq![c] + t);
        lemma_escape_front(c, t);
        law_unescape_roundtrip(t);
        let e = crate::rows::escape_char(c);
        let whole = e + crate::rows::escape_field(t);
        if e.len() == 2 {
            assert(whole[0] == '\\');
            assert(whole[1] == e[1]);
            assert(whole.skip(2) =~= crate::rows::escape_field(t));
            assert(crate::rows::unescape_char(e[1]) =~= seq![c]);
        } else {
            assert(e =~= seq![c]);
            assert(c != '\\');
            assert(whole[0] == c);
            assert(whole.skip(1) =~= crate::rows::escape_field(t));
        }
        assert(unescaped(whole) =~= f);
    } else {
        assert(crate::rows::escape_field(f) =~= Seq::<char>::empty());
    }
}

/// Undoes the row escapes of a field (see `unescaped`).
pub fn unescape(s: &str) -> (r: String)
    ensures
        r@ == unescaped(s@),
{
    let cs = chars_of(s);
    let mut out = String::new();
    let mut i: usize = 0;
    proof {
        assert(cs@.skip(0) =~= cs@);
    }
    while i < cs.len()
        invariant
            i <= cs.len(),
            cs@ == s@,
            out@ + unescaped(cs@.skip(i as int)) == unescaped(s@),
        decreases cs.len() - i,
    {
        let ghost before = out@;
        let ghost rest = cs@.skip(i as int);
        if cs[i] == '\\' && i + 1 < cs.len() {
            let c = cs[i + 1];
            if c == 'n' {
                push_char(&mut out, '\n');
            } else if c == 'r' {
                push_char(&mut out, '\r');
            } else if c == '|' || c == '\\' {
                push_char(&mut out, c);
            } else {
                push_char(&mut out, '\\');
                push_char(&mut out, c);
            }
            proof {
                assert(rest[0] == cs@[i as int]);
                assert(rest[1] == c);
                assert(rest.skip(2) =~= cs@.skip(i + 2));
                assert(out@ =~= before + crate::rows::unescape_char(c));
            }
            i += 2;
        } else {
            push_char(&mut out, cs[i]);
            proof {
                assert(rest[0] == cs@[i as int]);
                assert(rest.skip(1) =~= cs@.skip(i + 1));
                assert(out@ =~= before + seq![rest[0]]);
            }
            i += 1;
        }
    }
    proof {
        assert(cs@.skip(i as int) =~= Seq::<char>::empty());
        assert(out@ + unescaped(cs@.skip(i as int)) =~= out@);
    }
    out
}

/// A name the rename can take: not blank, and only ASCII letters, digits
/// and underscores.
pub open spec fn bare_name(s: Seq<char>) -> bool {
    trimmed(s).len() > 0 && forall|i: int| 0 <= i < s.len() ==> #[trigger] name_char(s[i])
}

/// An ASCII letter, digit or underscore.
pub open spec fn name_char(c: char) -> bool {
    ('a' <= c && c <= 'z') || ('A' <= c && c <= 'Z') || ('0' <= c && c <= '9') || c == '_'
}

/// Checks the new name (before any usage search).
pub fn check_new_name(args: &RenamePreview) -> (r: Result<(), ToolError>)
    ensures
        r is Ok <==> bare_name(args.new_name@),
        r matches Err(e) ==> e.kind == ToolErrorKind::InvalidInput && e.message@ == "'new_name' must be a bare identifier"@,
{
    let t = trim(args.new_name.as_str());
    let cs = chars_of(args.new_name.as_str());
    let mut ok = t.as_str().unicode_len() > 0;
    let mut i: usize = 0;
    while i < cs.len()
        invariant
            i <= cs.len(),
            cs@ == args.new_name@,
            ok == (trimmed(args.new_name@).len() > 0 && forall|k: int| 0 <= k < i ==> #[trigger] name_char(cs@[k])),
        decreases cs.len() - i,
    {
        let c = cs[i];
        let good = ('a' <= c && c <= 'z') || ('A' <= c && c <= 'Z') || ('0' <= c && c <= '9') || c == '_';
        proof {
            assert(good == name_char(cs@[i as int]));
        }
        ok = ok && good;
        i += 1;
    }
    if !ok {
        return Err(ToolError {
            kind: ToolErrorKind::InvalidInput,
            message: String::from_str("'new_name' must be a bare identifier"),
        });
    }
    Ok(())
}

/// One edit of the rename: file, line, column and the usage's confidence.
pub struct RenameEdit {
    pub file: String,
    pub line: usize,
    pub col: usize,
    pub conf: String,
}

/// An edit as plain values.
pub struct EditView {
    pub file: Seq<char>,
    pub line: nat,
    pub col: nat,
    pub conf: Seq<char>,
}

impl View for RenameEdit {
    type V = EditView;

    open spec fn view(&self) -> EditView {
        EditView { file: self.file@, line: self.line as nat, col: self.col as nat, conf: self.conf@ }
    }
}

impl ViewOrdered for RenameEdit {
    /// By file, line, then column.
    open spec fn view_before(a: EditView, b: EditView) -> bool {
        if a.file != b.file {
            seq_lt(a.file, b.file)
        } else if a.line != b.line {
            a.line < b.line
        } else {
            a.col < b.col
        }
    }

    fn is_before(&self, other: &Self) -> (r: bool) {
        proof {
            crate::text::lemma_seq_lt_total(self.file@, other.file@);
        }
        let f = str_three_way(self.file.as_str(), other.file.as_str());
        if f != 0 {
            return f < 0;
        }
        if self.line != other.line {
            return self.line < other.line;
        }
        self.col < other.col
    }
}

/// A number field: its value, or 0 when it does not parse.
pub open spec fn number_or_zero(s: Seq<char>) -> nat {
    match parse_usize_spec(s) {
        Some(v) => v,
        None => 0,
    }
}

/// The columns of a usage row, split at every `|`.
pub open spec fn raw_columns(row: Seq<char>) -> Seq<Seq<char>> {
    split_on(row, |c: char| c == '|')
}

/// The edit a usage row gives: none for rows with fewer than eight columns
/// or for imports.
pub open spec fn edit_of_row(row: Seq<char>) -> Option<EditView> {
    let cols = raw_columns(row);
    if cols.len() < 8 || cols[3] == "import"@ {
        None
    } else {
        Some(EditView {
            file: unescaped(cols[0]),
            line: number_or_zero(cols[1]),
            col: number_or_zero(cols[2]),
            conf: cols[6],
        })
    }
}

/// The edits of the first `n` usage rows, in row order.
pub open spec fn edits_of(rows: Seq<Seq<char>>, n: int) -> Seq<EditView>
    decreases n,
{
    if n <= 0 || n > rows.len() {
        seq![]
    } else {
        edits_of(rows, n - 1) + match edit_of_row(rows[n - 1]) {
            Some(e) => seq![e],
            None => seq![],
        }
    }
}

/// The columns of a row.
fn split_columns(row: &str) -> (r: Vec<String>)
    ensures
        views(r@) == raw_columns(row@),
{
    let cs = chars_of(row);
    let ghost sep = |c: char| c == '|';
    let mut out: Vec<String> = Vec::new();
    let mut cur = String::new();
    let mut i: usize = 0;
    proof {
        assert(cs@.take(0) =~= Seq::<char>::empty());
        assert(split_on(cs@.take(0), sep) == seq![Seq::<char>::empty()]);
    }
    while i < cs.len()
        invariant
            i <= cs.len(),
            cs@ == row@,
            sep == (|c: char| c == '|'),
            views(out@).push(cur@) == split_on(cs@.take(i as int), sep),
        decreases cs.len() - i,
    {
        let ghost p = split_on(cs@.take(i as int), sep);
        proof {
            assert(cs@.take(i + 1).drop_last() =~= cs@.take(i as int));
            assert(cs@.take(i + 1).last() == cs@[i as int]);
        }
        if cs[i] == '|' {
            let ghost before = out@;
            let done = cur;
            out.push(done);
            cur = String::new();
            proof {
                assert(views(out@) =~= views(before).push(done@));
                assert(views(before).push(done@) =~= p);
                assert(cur@ =~= Seq::<char>::empty());
                assert(views(out@).push(cur@) =~= p.push(seq![]));
            }
        } else {
            let ghost old_cur = cur@;
            push_char(&mut cur, cs[i]);
            proof {
                assert(p.last() == old_cur);
                assert(views(out@).push(cur@) =~= p.update(p.len() - 1, p.last().push(cs@[i as int])));
            }
        }
        i += 1;
    }
    proof {
        assert(cs@.take(i as int) =~= row@);
    }
    let ghost before = out@;
    out.push(cur);
    proof {
        assert(views(out@) =~= views(before).push(cur@));
    }
    out
}

/// The edits the usage rows give, in row order.
fn collect_edits(rows: &Vec<String>) -> (r: Vec<RenameEdit>)
    ensures
        view_seq(r@) == edits_of(views(rows@), rows.len() as int),
{
    let mut out: Vec<RenameEdit> = Vec::new();
    let mut i: usize = 0;
    proof {
        assert(view_seq(out@) =~= edits_of(views(rows@), 0));
    }
    while i < rows.len()
        invariant
            i <= rows.len(),
            view_seq(out@) == edits_of(views(rows@), i as int),
        decreases rows.len() - i,
    {
        let cols = split_columns(rows[i].as_str());
        let ghost cv = views(cols@);
        proof {
            assert(views(rows@)[i as int] == rows@[i as int]@);
        }
        if cols.len() >= 8 && !str_eq(cols[3].as_str(), "import") {
            let line = match parse_usize(cols[1].as_str()) { Some(v) => v, None => 0 };
            let col = match parse_usize(cols[2].as_str()) { Some(v) => v, None => 0 };
            let e = RenameEdit { file: unescape(cols[0].as_str()), line, col, conf: cols[6].clone() };
            let ghost before = out@;
            out.push(e);
            proof {
                assert(cv[0] == cols@[0]@);
                assert(cv[1] == cols@[1]@);
                assert(cv[2] == cols@[2]@);
                assert(cv[3] == cols@[3]@);
                assert(cv[6] == cols@[6]@);
                assert(view_seq(out@) =~= view_seq(before).push(e@));
            }
        } else {
            proof {
                if cols.len() >= 8 {
                    assert(cv[3] == cols@[3]@);
                }
            }
        }
        proof {
            assert(view_seq(out@) =~= edits_of(views(rows@), i + 1));
        }
        i += 1;
    }
    out
}

/// The row an edit is shown as.
pub open spec fn edit_fields(e: EditView, symbol: Seq<char>, new_name: Seq<char>) -> Seq<Seq<char>> {
    seq![e.file, decimal(e.line), decimal(e.col), symbol, new_name, e.conf]
}

/// The rows of a list of edits.
pub open spec fn edit_rows(es: Seq<EditView>, symbol: Seq<char>, new_name: Seq<char>) -> Seq<Seq<char>> {
    es.map_values(|e: EditView| row_of(edit_fields(e, symbol, new_name)))
}

/// The answer: the edits, how many files they touch, header, hint, names
/// and paging, keys in order.
pub open spec fn rename_json(edits: Seq<char>, marked: bool, files: nat, symbol: Seq<char>, new_name: Seq<char>, total: nat, offset: nat) -> Seq<char> {
    "{"@ + (if marked { "\"@\":{\"t\":true},"@ } else { seq![] }) + "\"edits\":"@ + json_quoted(edits)
        + ",\"files_modified\":"@ + decimal(files)
        + ",\"h\":\"file|line|col|old_text|new_text|confidence\",\"hint\":\"dry run only; apply with apply_symbol_edit per site or LSP rename, then verify_edit\",\"new_name\":"@
        + json_quoted(new_name) + ",\"offset\":"@ + decimal(offset) + ",\"sym\":"@ + json_quoted(symbol)
        + ",\"total_edits\":"@ + decimal(total) + "}"@
}

/// The edits a preview lists: every usage row's edit, sorted, then the page.
pub open spec fn rename_page(args: RenamePreview, usage_rows: Seq<char>) -> Seq<EditView> {
    let rows = lines_of(usage_rows);
    page(sorted_view::<RenameEdit>(edits_of(rows, rows.len() as int)),
        match args.offset { Some(o) => o as nat, None => 0 },
        match args.limit { Some(l) => Some(l as nat), None => None })
}

/// The `rename_preview` answer for the usage rows of the symbol: the edits
/// sorted by place, paged, and trimmed to the token budget when one is
/// given (then marked whenever rows were dropped or paged away).
pub fn rename_answer(args: &RenamePreview, usage_rows: &str) -> (r: Result<String, ToolError>)
    ensures
        ({
            let rows = lines_of(usage_rows@);
            let all = sorted_view::<RenameEdit>(edits_of(rows, rows.len() as int));
            let shown = rename_page(*args, usage_rows@);
            let texts = edit_rows(shown, args.symbol@, args.new_name@);
            let files = distinct_count(shown.map_values(|e: EditView| e.file));
            let offset: nat = match args.offset { Some(o) => o as nat, None => 0 };
            match args.max_tokens {
                None => r matches Ok(t) && t@ == rename_json(joined(texts, texts.len()), false, files, args.symbol@,
                    args.new_name@, all.len(), offset),
                Some(m) => match budget_choice(texts, "{\"edits\":"@, "{\"edits\":"@, "}"@, m as nat) {
                    Some(kept) => r matches Ok(t) && t@ == rename_json(kept.0, kept.1 || shown.len() < all.len(), files,
                        args.symbol@, args.new_name@, all.len(), offset),
                    None => r matches Err(e) && e.kind == ToolErrorKind::Other,
                },
            }
        }),
{
    let lines = split_lines(usage_rows);
    let edits = collect_edits(&lines);
    let sorted = sort_by_view(edits);
    let ghost sv = view_seq(sorted@);
    let total = sorted.len();
    let offset: usize = match args.offset { Some(o) => o as usize, None => 0 };
    let limit: Option<usize> = match args.limit { Some(l) => Some(l as usize), None => None };
    let (lo, hi) = page_bounds::<EditView>(total, offset, limit);
    proof {
        assert(page(sv, offset as nat, opt_nat(limit)) == sv.subrange(lo as int, hi as int));
    }
    let mut texts: Vec<String> = Vec::new();
    let mut files: usize = 0;
    let mut i: usize = lo;
    proof {
        assert(sv.subrange(lo as int, lo as int).map_values(|e: EditView| e.file) =~= Seq::<Seq<char>>::empty());
    }
    while i < hi
        invariant
            lo <= i <= hi,
            hi <= sorted.len(),
            sv == view_seq(sorted@),
            views(texts@) == edit_rows(sv.subrange(lo as int, i as int), args.symbol@, args.new_name@),
            files as nat == distinct_count(sv.subrange(lo as int, i as int).map_values(|e: EditView| e.file)),
            files <= i - lo,
        decreases hi - i,
    {
        let e = &sorted[i];
        let mut fields: Vec<String> = Vec::new();
        fields.push(e.file.clone());
        fields.push(decimal_string(e.line));
        fields.push(decimal_string(e.col));
        fields.push(args.symbol.clone());
        fields.push(args.new_name.clone());
        fields.push(e.conf.clone());
        proof {
            assert(views(fields@) =~= edit_fields(e@, args.symbol@, args.new_name@));
        }
        let row = format_row(&fields);
        let ghost before = texts@;
        texts.push(row);
        let mut seen = false;
        let mut j: usize = lo;
        let ghost fs = sv.subrange(lo as int, i + 1).map_values(|e: EditView| e.file);
        while j < i
            invariant
                lo <= j <= i,
                i < hi,
                hi <= sorted.len(),
                sv == view_seq(sorted@),
                fs == sv.subrange(lo as int, i + 1).map_values(|e: EditView| e.file),
                seen == fs.drop_last().take(j - lo).contains(sorted@[i as int].file@),
            decreases i - j,
        {
            let ghost a = fs.drop_last().take(j - lo);
            let ghost b = fs.drop_last().take(j + 1 - lo);
            let ghost x = sorted@[i as int].file@;
            proof {
                assert(b =~= a.push(sorted@[j as int].file@));
            }
            let same = str_eq(sorted[j].file.as_str(), sorted[i].file.as_str());
            if same {
                seen = true;
            }
            proof {
                if a.contains(x) {
                    let k = choose|k: int| 0 <= k < a.len() && a[k] == x;
                    assert(b[k] == x);
                }
                if same {
                    assert(b[a.len() as int] == x);
                }
                if b.contains(x) {
                    let k = choose|k: int| 0 <= k < b.len() && b[k] == x;
                    if k < a.len() {
                        assert(a[k] == x);
                    }
                }
            }
            j += 1;
        }
        proof {
            assert(fs.drop_last().take(i - lo) =~= fs.drop_last());
            assert(fs.drop_last() =~= sv.subrange(lo as int, i as int).map_values(|e: EditView| e.file));
            assert(fs.last() == sorted@[i as int].file@);
            assert(views(texts@) =~= views(before).push(row@));
            assert(sv.subrange(lo as int, i + 1) =~= sv.subrange(lo as int, i as int).push(sv[i as int]));
            assert(edit_rows(sv.subrange(lo as int, i + 1), args.symbol@, args.new_name@)
                =~= edit_rows(sv.subrange(lo as int, i as int), args.symbol@, args.new_name@).push(row@));
        }
        if !seen {
            files = files + 1;
        }
        i += 1;
    }
    let shown_len = hi - lo;
    let (text, marked) = match args.max_tokens {
        None => (join_prefix(&texts, texts.len()), false),
        Some(m) => {
            let tok = match load_cl100k() {
                Ok(t) => t,
                Err(e) => {
                    let mut msg = String::from_str("tokenizer: ");
                    msg.append(e.as_str());
                    proof {
                        reveal_strlit("tokenizer: ");
                        assert(msg@.take(11) =~= "tokenizer: "@);
                    }
                    return Err(ToolError { kind: ToolErrorKind::Other, message: msg });
                },
            };
            let (t, cut) = match budget_with(&tok, &texts, "{\"edits\":", "{\"edits\":", "}", m as usize) {
                Ok(kept) => kept,
                Err(e) => return Err(ToolError { kind: ToolErrorKind::Other, message: e }),
            };
            (t, cut || shown_len < total)
        },
    };
    let mut out = String::from_str("{");
    if marked {
        out.append("\"@\":{\"t\":true},");
    }
    out.append("\"edits\":");
    append_quoted(&mut out, text.as_str());
    out.append(",\"files_modified\":");
    push_decimal(&mut out, files);
    out.append(",\"h\":\"file|line|col|old_text|new_text|confidence\",\"hint\":\"dry run only; apply with apply_symbol_edit per site or LSP rename, then verify_edit\",\"new_name\":");
    append_quoted(&mut out, args.new_name.as_str());
    out.append(",\"offset\":");
    push_decimal(&mut out, offset);
    out.append(",\"sym\":");
    append_quoted(&mut out, args.symbol.as_str());
    out.append(",\"total_edits\":");
    push_decimal(&mut out, total);
    out.append("}");
    proof {
        assert(out@ =~= rename_json(text@, marked, files as nat, args.symbol@, args.new_name@, total as nat, offset as nat));
    }
    Ok(out)
}

} // verus!
