//! The `format_diagnostics` tool: LSP diagnostics read from the request,
//! each given the innermost function, class or method around its line,
//! ordered by severity then position, paged and trimmed to a token budget.

use vstd::prelude::*;
use vstd::string::StringExecFns;
use crate::error::{ToolError, ToolErrorKind};
use crate::value::{Json, json_get, json_index, json_str, json_u64, opt_str, opt_u64, get, as_str, as_u64};
use crate::lsp::{uri_path, file_path_from_uri, severity_label, parse_severity, code_label, diagnostic_code};
use crate::shape::{FileShape, FunctionInfo, ClassInfo, ImplBlockInfo, MethodInfo};
use crate::sort::{ViewOrdered, sorted_view, sort_by_view, view_seq};
use crate::rows::{row_of, views, format_row};
use crate::graph_rows::{page, opt_nat, page_bounds};
use crate::budget::{Cl100k, budget_choice, budget_with, load_cl100k};
use crate::json::{json_quote, json_quoted};
use crate::text::{decimal, decimal_string, seq_lt, str_three_way, push_decimal, str_eq};

verus! {

/// `a`, or `b` when `a` is absent or null (an alias key takes over from a
/// key that is not set).
pub open spec fn or_else(a: Option<Json>, b: Option<Json>) -> Option<Json> {
    match a {
        Some(Json::Null) => b,
        Some(_) => a,
        None => b,
    }
}

/// The file a record names: `file` (or `file_path` when `file` is absent or null)
/// if it is a string, else the path of its `uri`.
pub open spec fn record_file(v: Json) -> Option<Seq<char>> {
    match opt_str(or_else(json_get(v, "file"@), json_get(v, "file_path"@))) {
        Some(s) => Some(s),
        None => match opt_str(json_get(v, "uri"@)) {
            Some(u) => uri_path(u),
            None => None,
        },
    }
}

/// The `range.start` object of a record, if there is one.
pub open spec fn range_start(v: Json) -> Option<Json> {
    match json_get(v, "range"@) {
        Some(r) => match json_get(r, "start"@) {
            Some(s) => if s is Object { Some(s) } else { None },
            None => None,
        },
        None => None,
    }
}

/// 0-based LSP numbers of the record turn 1-based without overflow.
pub open spec fn lines_fit(v: Json) -> bool {
    record_file(v) is Some ==> match range_start(v) {
        Some(s) => match opt_u64(json_get(s, "line"@)) {
            Some(l) => (l as usize) < usize::MAX
                && (opt_u64(json_get(s, "character"@)) matches Some(c) ==> (c as usize) < usize::MAX),
            None => true,
        },
        None => true,
    }
}

/// A diagnostic as read from the request.
pub struct Diagnostic {
    pub file: String,
    pub line: usize,
    pub column: usize,
    pub severity: String,
    pub message: String,
    pub source: String,
    pub code: String,
}

/// The plain values of a diagnostic.
pub struct DiagnosticView {
    pub file: Seq<char>,
    pub line: nat,
    pub column: nat,
    pub severity: Seq<char>,
    pub message: Seq<char>,
    pub source: Seq<char>,
    pub code: Seq<char>,
}

impl View for Diagnostic {
    type V = DiagnosticView;

    open spec fn view(&self) -> DiagnosticView {
        DiagnosticView {
            file: self.file@,
            line: self.line as nat,
            column: self.column as nat,
            severity: self.severity@,
            message: self.message@,
            source: self.source@,
            code: self.code@,
        }
    }
}

/// What a diagnostic record reads as, or the message of the first thing
/// missing from it.
pub open spec fn diagnostic_of(v: Json) -> Result<DiagnosticView, Seq<char>> {
    match record_file(v) {
        None => Err("Diagnostic is missing 'file', 'file_path', or 'uri'"@),
        Some(file) => {
            let pos: Result<(nat, nat), Seq<char>> = match range_start(v) {
                Some(s) => match opt_u64(json_get(s, "line"@)) {
                    None => Err("LSP range is missing start.line"@),
                    Some(l) => match opt_u64(json_get(s, "character"@)) {
                        None => Err("LSP range is missing start.character"@),
                        Some(c) => Ok(((l as usize) as nat + 1, (c as usize) as nat + 1)),
                    },
                },
                None => match opt_u64(json_get(v, "line"@)) {
                    None => Err("Diagnostic is missing 1-based 'line'"@),
                    Some(l) => Ok(((l as usize) as nat, match opt_u64(or_else(json_get(v, "col"@), json_get(v, "column"@))) {
                        Some(c) => (c as usize) as nat,
                        None => 1,
                    })),
                },
            };
            match pos {
                Err(m) => Err(m),
                Ok((line, column)) => match opt_str(json_get(v, "message"@)) {
                    None => Err("Diagnostic is missing 'message'"@),
                    Some(message) => Ok(DiagnosticView {
                        file,
                        line,
                        column,
                        severity: severity_label(json_get(v, "severity"@)),
                        message,
                        source: match opt_str(json_get(v, "source"@)) {
                            Some(s) => s,
                            None => seq![],
                        },
                        code: code_label(json_get(v, "code"@)),
                    }),
                },
            }
        },
    }
}

/// An optional borrowed value as an optional value.
pub open spec fn deref_opt(v: Option<&Json>) -> Option<Json> {
    match v {
        Some(x) => Some(*x),
        None => None,
    }
}

/// The member `first`, or `second` when `first` is absent or null.
pub fn alias_of<'a>(v: &'a Json, first: &str, second: &str) -> (r: Option<&'a Json>)
    ensures
        deref_opt(r) == or_else(json_get(*v, first@), json_get(*v, second@)),
{
    match get(v, first) {
        Some(Json::Null) => get(v, second),
        Some(x) => Some(x),
        None => get(v, second),
    }
}

/// The file a record names.
pub fn record_file_of(v: &Json) -> (r: Option<String>)
    ensures
        match record_file(*v) {
            Some(f) => r matches Some(s) && s@ == f,
            None => r is None,
        },
{
    let first = alias_of(v, "file", "file_path");
    match as_str(first) {
        Some(s) => Some(String::from_str(s)),
        None => match as_str(get(v, "uri")) {
            Some(u) => file_path_from_uri(u),
            None => None,
        },
    }
}

/// The `range.start` object of a record.
pub fn range_start_of(v: &Json) -> (r: Option<&Json>)
    ensures
        deref_opt(r) == range_start(*v),
{
    match get(v, "range") {
        Some(range) => match get(range, "start") {
            Some(s) => match s {
                Json::Object(_) => Some(s),
                _ => None,
            },
            None => None,
        },
        None => None,
    }
}

/// A failure of the request's shape.
fn invalid(message: &str) -> (e: ToolError)
    ensures
        e.kind == ToolErrorKind::InvalidInput,
        e.message@ == message@,
{
    ToolError { kind: ToolErrorKind::InvalidInput, message: String::from_str(message) }
}

/// Reads one diagnostic record.
pub fn parse_diagnostic(v: &Json) -> (r: Result<Diagnostic, ToolError>)
    requires
        lines_fit(*v),
    ensures
        match diagnostic_of(*v) {
            Ok(d) => r matches Ok(x) && x@ == d,
            Err(m) => r matches Err(e) && e.kind == ToolErrorKind::InvalidInput && e.message@ == m,
        },
{
    let file = match record_file_of(v) {
        Some(f) => f,
        None => {
            return Err(invalid("Diagnostic is missing 'file', 'file_path', or 'uri'"));
        },
    };
    let line: usize;
    let column: usize;
    match range_start_of(v) {
        Some(start) => {
            let l = match as_u64(get(start, "line")) {
                Some(l) => l,
                None => {
                    return Err(invalid("LSP range is missing start.line"));
                },
            };
            let c = match as_u64(get(start, "character")) {
                Some(c) => c,
                None => {
                    return Err(invalid("LSP range is missing start.character"));
                },
            };
            line = l as usize + 1;
            column = c as usize + 1;
        },
        None => {
            let l = match as_u64(get(v, "line")) {
                Some(l) => l,
                None => {
                    return Err(invalid("Diagnostic is missing 1-based 'line'"));
                },
            };
            let col_value = alias_of(v, "col", "column");
            line = l as usize;
            column = match as_u64(col_value) {
                Some(c) => c as usize,
                None => 1,
            };
        },
    }
    let message = match as_str(get(v, "message")) {
        Some(m) => String::from_str(m),
        None => {
            return Err(invalid("Diagnostic is missing 'message'"));
        },
    };
    let source = match as_str(get(v, "source")) {
        Some(s) => String::from_str(s),
        None => String::new(),
    };
    proof {
        reveal_strlit("");
    }
    Ok(Diagnostic {
        file,
        line,
        column,
        severity: parse_severity(get(v, "severity")),
        message,
        source,
        code: diagnostic_code(get(v, "code")),
    })
}

/// A named line span an owner can be picked from.
pub struct OwnerSpan {
    pub name: Seq<char>,
    pub line: nat,
    pub end_line: nat,
}

/// The spans of a class: the class itself, then `Class::method` for each method.
pub open spec fn class_spans(c: ClassInfo) -> Seq<OwnerSpan> {
    seq![OwnerSpan { name: c.name@, line: c.line as nat, end_line: c.end_line as nat }]
        + c.methods@.map_values(|m: FunctionInfo| OwnerSpan { name: c.name@ + "::"@ + m.name@, line: m.line as nat, end_line: m.end_line as nat })
}

/// The spans of an impl block: `Type::method` for each method.
pub open spec fn impl_spans(b: ImplBlockInfo) -> Seq<OwnerSpan> {
    b.methods@.map_values(|m: MethodInfo| OwnerSpan { name: b.target_type@ + "::"@ + m.name@, line: m.line as nat, end_line: m.end_line as nat })
}

/// Every span an owner is looked for in, in order: functions, classes
/// with their methods, impl-block methods.
pub open spec fn owner_spans(shape: FileShape) -> Seq<OwnerSpan> {
    shape.functions@.map_values(|f: FunctionInfo| OwnerSpan { name: f.name@, line: f.line as nat, end_line: f.end_line as nat })
        + shape.classes@.map_values(|c: ClassInfo| class_spans(c)).flatten_alt()
        + shape.impl_blocks@.map_values(|b: ImplBlockInfo| impl_spans(b)).flatten_alt()
}

/// The scan for an owner over `spans`: a span around `line` that starts no
/// earlier than the current owner's start replaces it.
pub open spec fn owner_scan(spans: Seq<OwnerSpan>, line: nat) -> (Option<Seq<char>>, nat)
    decreases spans.len(),
{
    if spans.len() == 0 {
        (None, 0)
    } else {
        let (owner, start) = owner_scan(spans.drop_last(), line);
        let s = spans.last();
        if s.line <= line && line <= s.end_line && s.line >= start {
            (Some(s.name), s.line)
        } else {
            (owner, start)
        }
    }
}

/// The owner of `line` in a file outline.
pub open spec fn owner_at(shape: FileShape, line: nat) -> Option<Seq<char>> {
    owner_scan(owner_spans(shape), line).0
}

/// Span `s` covers `line`.
pub open spec fn span_covers(s: OwnerSpan, line: nat) -> bool {
    s.line <= line && line <= s.end_line
}

/// What the scan gives: no owner when no span covers the line; otherwise
/// the name of a covering span that starts at the scan's start, which is
/// the latest start of all covering spans.
proof fn lemma_owner_scan(spans: Seq<OwnerSpan>, line: nat)
    ensures
        ({
            let (o, st) = owner_scan(spans, line);
            &&& o is None <==> forall|j: int| 0 <= j < spans.len() ==> !span_covers(#[trigger] spans[j], line)
            &&& o is None ==> st == 0
            &&& o matches Some(n) ==> exists|i: int| 0 <= i < spans.len() && span_covers(#[trigger] spans[i], line)
                && spans[i].name == n && spans[i].line == st
            &&& forall|j: int| 0 <= j < spans.len() && span_covers(#[trigger] spans[j], line) ==> spans[j].line <= st
        }),
    decreases spans.len(),
{
    if spans.len() > 0 {
        let prev = spans.drop_last();
        lemma_owner_scan(prev, line);
        let (o, st) = owner_scan(prev, line);
        let last = spans.last();
        assert forall|j: int| 0 <= j < spans.len() - 1 implies #[trigger] spans[j] == prev[j] by {}
        if span_covers(last, line) && last.line >= st {
            assert(span_covers(spans[spans.len() - 1], line));
        } else if span_covers(last, line) {
            assert(o is Some);
            let i = choose|i: int| 0 <= i < prev.len() && span_covers(#[trigger] prev[i], line) && prev[i].name == o->0
                && prev[i].line == st;
            assert(span_covers(spans[i], line));
        } else {
            if o is Some {
                let i = choose|i: int| 0 <= i < prev.len() && span_covers(#[trigger] prev[i], line) && prev[i].name == o->0
                    && prev[i].line == st;
                assert(span_covers(spans[i], line));
            }
            if forall|j: int| 0 <= j < prev.len() ==> !span_covers(#[trigger] prev[j], line) {
                assert forall|j: int| 0 <= j < spans.len() implies !span_covers(#[trigger] spans[j], line) by {
                    if j < spans.len() - 1 {
                        assert(!span_covers(prev[j], line));
                    }
                }
            }
        }
    }
}

/// The owner of a line is the innermost span around it: when no span
/// covers the line there is none; otherwise it is the name of a covering
/// span, and no covering span starts later.
pub proof fn law_owner_innermost(spans: Seq<OwnerSpan>, line: nat)
    ensures
        owner_scan(spans, line).0 is None <==> forall|j: int| 0 <= j < spans.len() ==> !span_covers(#[trigger] spans[j], line),
        owner_scan(spans, line).0 matches Some(n) ==> exists|i: int| 0 <= i < spans.len() && span_covers(#[trigger] spans[i], line)
            && spans[i].name == n
            && forall|j: int| 0 <= j < spans.len() && span_covers(#[trigger] spans[j], line) ==> spans[j].line <= spans[i].line,
{
    lemma_owner_scan(spans, line);
}

/// In a file outline, the owner of a line is the innermost of its
/// functions, classes and methods around the line.
pub proof fn law_owner_at_innermost(shape: FileShape, line: nat)
    ensures
        owner_at(shape, line) is None <==> forall|j: int| 0 <= j < owner_spans(shape).len()
            ==> !span_covers(#[trigger] owner_spans(shape)[j], line),
        owner_at(shape, line) matches Some(n) ==> exists|i: int| 0 <= i < owner_spans(shape).len()
            && span_covers(#[trigger] owner_spans(shape)[i], line) && owner_spans(shape)[i].name == n
            && forall|j: int| 0 <= j < owner_spans(shape).len() && span_covers(#[trigger] owner_spans(shape)[j], line)
                ==> owner_spans(shape)[j].line <= owner_spans(shape)[i].line,
{
    law_owner_innermost(owner_spans(shape), line);
}

/// A span with its name as a string.
pub struct Span {
    pub name: String,
    pub line: usize,
    pub end_line: usize,
}

/// The plain values of spans.
pub open spec fn span_views(v: Seq<Span>) -> Seq<OwnerSpan> {
    v.map_values(|s: Span| OwnerSpan { name: s.name@, line: s.line as nat, end_line: s.end_line as nat })
}

/// `a::b` as a new string.
fn scoped(a: &str, b: &str) -> (r: String)
    ensures
        r@ == a@ + "::"@ + b@,
{
    let mut s = String::from_str(a);
    s.append("::");
    s.append(b);
    s
}

/// The spans of an outline, in scan order.
pub fn spans_of(shape: &FileShape) -> (r: Vec<Span>)
    ensures
        span_views(r@) == owner_spans(*shape),
{
    let mut out: Vec<Span> = Vec::new();
    let mut i: usize = 0;
    while i < shape.functions.len()
        invariant
            i <= shape.functions.len(),
            span_views(out@) == shape.functions@.take(i as int).map_values(|f: FunctionInfo| OwnerSpan { name: f.name@, line: f.line as nat, end_line: f.end_line as nat }),
        decreases shape.functions.len() - i,
    {
        let f = &shape.functions[i];
        let ghost before = span_views(out@);
        out.push(Span { name: f.name.clone(), line: f.line, end_line: f.end_line });
        proof {
            assert(shape.functions@.take(i + 1) =~= shape.functions@.take(i as int).push(*f));
            assert(span_views(out@) =~= before.push(OwnerSpan { name: f.name@, line: f.line as nat, end_line: f.end_line as nat }));
        }
        i += 1;
    }
    proof {
        assert(shape.functions@.take(shape.functions.len() as int) =~= shape.functions@);
    }
    let ghost after_fns = span_views(out@);
    let mut c: usize = 0;
    while c < shape.classes.len()
        invariant
            c <= shape.classes.len(),
            span_views(out@) == after_fns + shape.classes@.take(c as int).map_values(|c: ClassInfo| class_spans(c)).flatten_alt(),
        decreases shape.classes.len() - c,
    {
        let cl = &shape.classes[c];
        let ghost start = span_views(out@);
        out.push(Span { name: cl.name.clone(), line: cl.line, end_line: cl.end_line });
        let mut m: usize = 0;
        proof {
            assert(span_views(out@) =~= start + seq![OwnerSpan { name: cl.name@, line: cl.line as nat, end_line: cl.end_line as nat }]
                + cl.methods@.take(0).map_values(|m: FunctionInfo| OwnerSpan { name: cl.name@ + "::"@ + m.name@, line: m.line as nat, end_line: m.end_line as nat }));
        }
        while m < cl.methods.len()
            invariant
                m <= cl.methods.len(),
                span_views(out@) == start + seq![OwnerSpan { name: cl.name@, line: cl.line as nat, end_line: cl.end_line as nat }]
                    + cl.methods@.take(m as int).map_values(|m: FunctionInfo| OwnerSpan { name: cl.name@ + "::"@ + m.name@, line: m.line as nat, end_line: m.end_line as nat }),
            decreases cl.methods.len() - m,
        {
            let me = &cl.methods[m];
            let ghost before = span_views(out@);
            out.push(Span { name: scoped(cl.name.as_str(), me.name.as_str()), line: me.line, end_line: me.end_line });
            proof {
                assert(cl.methods@.take(m + 1) =~= cl.methods@.take(m as int).push(*me));
                assert(span_views(out@) =~= before.push(OwnerSpan { name: cl.name@ + "::"@ + me.name@, line: me.line as nat, end_line: me.end_line as nat }));
            }
            m += 1;
        }
        proof {
            assert(cl.methods@.take(cl.methods.len() as int) =~= cl.methods@);
            let f = |c: ClassInfo| class_spans(c);
            assert(shape.classes@.take(c + 1).map_values(f).drop_last() =~= shape.classes@.take(c as int).map_values(f));
            assert(span_views(out@) =~= after_fns + shape.classes@.take(c + 1).map_values(f).flatten_alt());
        }
        c += 1;
    }
    proof {
        assert(shape.classes@.take(shape.classes.len() as int) =~= shape.classes@);
    }
    let ghost after_classes = span_views(out@);
    let mut b: usize = 0;
    while b < shape.impl_blocks.len()
        invariant
            b <= shape.impl_blocks.len(),
            span_views(out@) == after_classes + shape.impl_blocks@.take(b as int).map_values(|b: ImplBlockInfo| impl_spans(b)).flatten_alt(),
        decreases shape.impl_blocks.len() - b,
    {
        let bl = &shape.impl_blocks[b];
        let ghost start = span_views(out@);
        let mut m: usize = 0;
        proof {
            assert(span_views(out@) =~= start
                + bl.methods@.take(0).map_values(|m: MethodInfo| OwnerSpan { name: bl.target_type@ + "::"@ + m.name@, line: m.line as nat, end_line: m.end_line as nat }));
        }
        while m < bl.methods.len()
            invariant
                m <= bl.methods.len(),
                span_views(out@) == start
                    + bl.methods@.take(m as int).map_values(|m: MethodInfo| OwnerSpan { name: bl.target_type@ + "::"@ + m.name@, line: m.line as nat, end_line: m.end_line as nat }),
            decreases bl.methods.len() - m,
        {
            let me = &bl.methods[m];
            let ghost before = span_views(out@);
            out.push(Span { name: scoped(bl.target_type.as_str(), me.name.as_str()), line: me.line, end_line: me.end_line });
            proof {
                assert(bl.methods@.take(m + 1) =~= bl.methods@.take(m as int).push(*me));
                assert(span_views(out@) =~= before.push(OwnerSpan { name: bl.target_type@ + "::"@ + me.name@, line: me.line as nat, end_line: me.end_line as nat }));
            }
            m += 1;
        }
        proof {
            assert(bl.methods@.take(bl.methods.len() as int) =~= bl.methods@);
            let f = |b: ImplBlockInfo| impl_spans(b);
            assert(shape.impl_blocks@.take(b + 1).map_values(f).drop_last() =~= shape.impl_blocks@.take(b as int).map_values(f));
            assert(span_views(out@) =~= after_classes + shape.impl_blocks@.take(b + 1).map_values(f).flatten_alt());
        }
        b += 1;
    }
    proof {
        assert(shape.impl_blocks@.take(shape.impl_blocks.len() as int) =~= shape.impl_blocks@);
    }
    out
}

/// The innermost function, class or method of the outline around `line`.
pub fn owner_for_line(shape: &FileShape, line: usize) -> (r: Option<String>)
    ensures
        match owner_at(*shape, line as nat) {
            Some(n) => r matches Some(s) && s@ == n,
            None => r is None,
        },
{
    let spans = spans_of(shape);
    let ghost sv = span_views(spans@);
    let mut owner: Option<String> = None;
    let mut owner_start: usize = 0;
    let mut i: usize = 0;
    while i < spans.len()
        invariant
            i <= spans.len(),
            sv == span_views(spans@),
            ({
                let (o, st) = owner_scan(sv.take(i as int), line as nat);
                &&& st == owner_start as nat
                &&& match o {
                    Some(n) => owner matches Some(s) && s@ == n,
                    None => owner is None,
                }
            }),
        decreases spans.len() - i,
    {
        let s = &spans[i];
        proof {
            assert(sv.take(i + 1).drop_last() =~= sv.take(i as int));
            assert(sv.take(i + 1).last() == sv[i as int]);
        }
        if s.line <= line && line <= s.end_line && s.line >= owner_start {
            owner = Some(s.name.clone());
            owner_start = s.line;
        }
        i += 1;
    }
    proof {
        assert(sv.take(spans.len() as int) =~= sv);
    }
    owner
}

/// One output row of the tool.
pub struct DiagnosticRow {
    pub severity: String,
    pub file: String,
    pub line: usize,
    pub column: usize,
    pub owner: String,
    pub source: String,
    pub code: String,
    pub message: String,
}

/// The plain values of a row.
pub struct DiagRowView {
    pub severity: Seq<char>,
    pub file: Seq<char>,
    pub line: nat,
    pub column: nat,
    pub owner: Seq<char>,
    pub source: Seq<char>,
    pub code: Seq<char>,
    pub message: Seq<char>,
}

impl View for DiagnosticRow {
    type V = DiagRowView;

    open spec fn view(&self) -> DiagRowView {
        DiagRowView {
            severity: self.severity@,
            file: self.file@,
            line: self.line as nat,
            column: self.column as nat,
            owner: self.owner@,
            source: self.source@,
            code: self.code@,
            message: self.message@,
        }
    }
}

/// Errors first, then warnings, infos, hints, and everything else.
pub open spec fn severity_rank(s: Seq<char>) -> nat {
    if s == "error"@ {
        0
    } else if s == "warning"@ {
        1
    } else if s == "info"@ {
        2
    } else if s == "hint"@ {
        3
    } else {
        4
    }
}

/// The rank of a severity label.
pub fn severity_rank_of(s: &str) -> (r: u8)
    ensures
        r == severity_rank(s@),
{
    if str_eq(s, "error") {
        0
    } else if str_eq(s, "warning") {
        1
    } else if str_eq(s, "info") {
        2
    } else if str_eq(s, "hint") {
        3
    } else {
        4
    }
}

impl ViewOrdered for DiagnosticRow {
    /// By severity rank, file, line, column, then message.
    open spec fn view_before(a: DiagRowView, b: DiagRowView) -> bool {
        if severity_rank(a.severity) != severity_rank(b.severity) {
            severity_rank(a.severity) < severity_rank(b.severity)
        } else if a.file != b.file {
            seq_lt(a.file, b.file)
        } else if a.line != b.line {
            a.line < b.line
        } else if a.column != b.column {
            a.column < b.column
        } else {
            seq_lt(a.message, b.message)
        }
    }

    fn is_before(&self, other: &Self) -> (r: bool) {
        proof {
            crate::text::lemma_seq_lt_total(self.file@, other.file@);
            crate::text::lemma_seq_lt_total(self.message@, other.message@);
        }
        let ra = severity_rank_of(self.severity.as_str());
        let rb = severity_rank_of(other.severity.as_str());
        if ra != rb {
            return ra < rb;
        }
        let f = str_three_way(self.file.as_str(), other.file.as_str());
        if f != 0 {
            return f < 0;
        }
        if self.line != other.line {
            return self.line < other.line;
        }
        if self.column != other.column {
            return self.column < other.column;
        }
        str_three_way(self.message.as_str(), other.message.as_str()) < 0
    }
}

/// The fields of a row: severity, file, line, col, owner, source, code, message.
pub open spec fn diag_fields(r: DiagRowView) -> Seq<Seq<char>> {
    seq![r.severity, r.file, decimal(r.line), decimal(r.column), r.owner, r.source, r.code, r.message]
}

/// The row text of a row.
pub fn diag_row_text(r: &DiagnosticRow) -> (t: String)
    ensures
        t@ == row_of(diag_fields(r@)),
{
    let mut fields: Vec<String> = Vec::new();
    fields.push(r.severity.clone());
    fields.push(r.file.clone());
    fields.push(decimal_string(r.line));
    fields.push(decimal_string(r.column));
    fields.push(r.owner.clone());
    fields.push(r.source.clone());
    fields.push(r.code.clone());
    fields.push(r.message.clone());
    proof {
        assert(views(fields@) =~= diag_fields(r@));
    }
    format_row(&fields)
}

/// Every record read in order, or the first failure.
pub open spec fn parse_all(items: Seq<Json>) -> Result<Seq<DiagnosticView>, Seq<char>>
    decreases items.len(),
{
    if items.len() == 0 {
        Ok(seq![])
    } else {
        match parse_all(items.drop_last()) {
            Err(m) => Err(m),
            Ok(ds) => match diagnostic_of(items.last()) {
                Err(m) => Err(m),
                Ok(d) => Ok(ds.push(d)),
            },
        }
    }
}

/// A 64-bit number as a machine-sized one.
pub open spec fn size_of_u64(x: u64) -> nat {
    (x as usize) as nat
}

/// What a request reads as: the diagnostics, the token budget (2000 by
/// default), the offset and the limit; or the first failure.
pub open spec fn request_of(args: Json) -> Result<(Seq<DiagnosticView>, nat, nat, Option<nat>), Seq<char>> {
    match json_index(args, "diagnostics"@) {
        Json::Array(items) => match parse_all(items@) {
            Err(m) => Err(m),
            Ok(ds) => Ok((
                ds,
                match json_u64(json_index(args, "max_tokens"@)) { Some(m) => size_of_u64(m), None => 2000 },
                match json_u64(json_index(args, "offset"@)) { Some(o) => size_of_u64(o), None => 0 },
                match json_u64(json_index(args, "limit"@)) { Some(l) => Some(size_of_u64(l)), None => None },
            )),
        },
        _ => Err("Missing or invalid 'diagnostics' argument"@),
    }
}

/// Every record's LSP numbers turn 1-based without overflow.
pub open spec fn request_fits(args: Json) -> bool {
    match json_index(args, "diagnostics"@) {
        Json::Array(items) => forall|i: int| 0 <= i < items.len() ==> #[trigger] lines_fit(items@[i]),
        _ => true,
    }
}

/// A request read from the arguments.
pub struct DiagnosticsRequest {
    pub diagnostics: Vec<Diagnostic>,
    pub max_tokens: usize,
    pub offset: usize,
    pub limit: Option<usize>,
}

/// Member `key` of the arguments, as indexing gives it (null when absent).
fn arg<'a>(args: &'a Json, key: &str) -> (r: Option<&'a Json>)
    ensures
        match r {
            Some(x) => json_get(*args, key@) == Some(*x) && json_index(*args, key@) == *x,
            None => json_get(*args, key@) is None && json_index(*args, key@) == Json::Null,
        },
{
    get(args, key)
}

/// Reads the request of the tool.
pub fn read_diagnostics(args: &Json) -> (r: Result<DiagnosticsRequest, ToolError>)
    requires
        request_fits(*args),
    ensures
        match request_of(*args) {
            Ok((ds, max, offset, limit)) => r matches Ok(q) && view_seq(q.diagnostics@) == ds
                && q.max_tokens == max && q.offset == offset && opt_nat(q.limit) == limit,
            Err(m) => r matches Err(e) && e.kind == ToolErrorKind::InvalidInput && e.message@ == m,
        },
{
    let items = match arg(args, "diagnostics") {
        Some(Json::Array(items)) => items,
        _ => {
            return Err(invalid("Missing or invalid 'diagnostics' argument"));
        },
    };
    let max_tokens: usize = match as_u64(arg(args, "max_tokens")) {
        Some(m) => m as usize,
        None => 2000,
    };
    let offset: usize = match as_u64(arg(args, "offset")) {
        Some(o) => o as usize,
        None => 0,
    };
    let limit: Option<usize> = match as_u64(arg(args, "limit")) {
        Some(l) => Some(l as usize),
        None => None,
    };
    let mut out: Vec<Diagnostic> = Vec::new();
    let mut i: usize = 0;
    proof {
        assert(items@.take(0) =~= Seq::<Json>::empty());
        assert(view_seq(out@) =~= Seq::<DiagnosticView>::empty());
    }
    while i < items.len()
        invariant
            i <= items.len(),
            json_index(*args, "diagnostics"@) == Json::Array(*items),
            forall|k: int| 0 <= k < items.len() ==> #[trigger] lines_fit(items@[k]),
            parse_all(items@.take(i as int)) == Ok::<Seq<DiagnosticView>, Seq<char>>(view_seq(out@)),
        decreases items.len() - i,
    {
        proof {
            assert(items@.take(i + 1).drop_last() =~= items@.take(i as int));
            assert(items@.take(i + 1).last() == items@[i as int]);
            assert(lines_fit(items@[i as int]));
        }
        match parse_diagnostic(&items[i]) {
            Ok(d) => {
                let ghost before = view_seq(out@);
                out.push(d);
                proof {
                    assert(view_seq(out@) =~= before.push(d@));
                }
            },
            Err(e) => {
                proof {
                    lemma_parse_all_stops(items@, i as int);
                }
                return Err(e);
            },
        }
        i += 1;
    }
    proof {
        assert(items@.take(items.len() as int) =~= items@);
    }
    Ok(DiagnosticsRequest { diagnostics: out, max_tokens, offset, limit })
}

/// A failure at record `i`, after `i` records read, is the failure of all.
pub proof fn lemma_parse_all_stops(items: Seq<Json>, i: int)
    requires
        0 <= i < items.len(),
        parse_all(items.take(i)) is Ok,
        diagnostic_of(items[i]) is Err,
    ensures
        parse_all(items) == Err::<Seq<DiagnosticView>, Seq<char>>(diagnostic_of(items[i])->Err_0),
    decreases items.len() - i,
{
    assert(items.take(i + 1).drop_last() =~= items.take(i));
    assert(items.take(i + 1).last() == items[i]);
    lemma_parse_all_err_extends(items, i + 1);
}

/// Once reading fails on a prefix, it fails the same on every longer one.
pub proof fn lemma_parse_all_err_extends(items: Seq<Json>, n: int)
    requires
        0 <= n <= items.len(),
        parse_all(items.take(n)) is Err,
    ensures
        parse_all(items) == parse_all(items.take(n)),
    decreases items.len() - n,
{
    if n < items.len() {
        assert(items.take(n + 1).drop_last() =~= items.take(n));
        lemma_parse_all_err_extends(items, n + 1);
    } else {
        assert(items.take(n) =~= items);
    }
}

/// The file behind a diagnostic: its reported (relative) path, and its
/// outline when it parsed, or the message of the failure to read it.
pub struct DiagFile {
    pub rel: String,
    pub shape: Result<Option<FileShape>, String>,
}

/// The message of the first file that could not be read.
pub open spec fn file_failure(files: Seq<DiagFile>) -> Option<Seq<char>> {
    match crate::text::first_at(files.len(), |k: int| files[k].shape is Err) {
        Some(k) => Some(files[k].shape->Err_0@),
        None => None,
    }
}

/// The row of a diagnostic given its file.
pub open spec fn diag_row_of(d: DiagnosticView, f: DiagFile) -> DiagRowView {
    DiagRowView {
        severity: d.severity,
        file: f.rel@,
        line: d.line,
        column: d.column,
        owner: match f.shape {
            Ok(Some(shape)) => match owner_at(shape, d.line) {
                Some(n) => n,
                None => seq![],
            },
            _ => seq![],
        },
        source: d.source,
        code: d.code,
        message: d.message,
    }
}

/// The header of the rows.
pub open spec fn diagnostic_header() -> Seq<char> {
    "severity|file|line|col|owner|source|code|message"@
}

/// The rows to show: every diagnostic's row, sorted, then paged.
pub open spec fn shown_rows(ds: Seq<DiagnosticView>, files: Seq<DiagFile>, offset: nat, limit: Option<nat>) -> Seq<Seq<char>> {
    page(sorted_view::<DiagnosticRow>(Seq::new(ds.len(), |i: int| diag_row_of(ds[i], files[i]))), offset, limit)
        .map_values(|r: DiagRowView| row_of(diag_fields(r)))
}

/// The answer: kept rows, header and paging, keys in order.
pub open spec fn diagnostics_json(rows: Seq<char>, truncated: bool, total: nat, offset: nat) -> Seq<char> {
    "{"@ + (if truncated { "\"@\":{\"t\":true},"@ } else { seq![] }) + "\"d\":"@ + json_quoted(rows)
        + ",\"h\":"@ + json_quoted(diagnostic_header()) + ",\"offset\":"@ + decimal(offset) + ",\"total\":"@ + decimal(total) + "}"@
}

/// The answer for rows once budgeted; nothing when a measured text cannot
/// be counted.
pub open spec fn diagnostics_answer(rows: Seq<Seq<char>>, total: nat, offset: nat, max_tokens: nat) -> Option<Seq<char>> {
    match budget_choice(rows, "{\"d\":"@, "{\"@\":{\"t\":true},\"d\":"@, ",\"h\":"@ + json_quoted(diagnostic_header()) + "}"@, max_tokens) {
        Some(kept) => Some(diagnostics_json(kept.0, kept.1, total, offset)),
        None => None,
    }
}

/// Builds, sorts and pages the rows, then trims them to the budget.
pub fn format_diagnostics_text(req: &DiagnosticsRequest, files: &Vec<DiagFile>) -> (r: Result<String, ToolError>)
    requires
        files.len() == req.diagnostics.len(),
    ensures
        match file_failure(files@) {
            Some(m) => r matches Err(e) && e.kind == ToolErrorKind::NotFound && e.message@ == m,
            None => match diagnostics_answer(
                    shown_rows(view_seq(req.diagnostics@), files@, req.offset as nat, opt_nat(req.limit)),
                    req.diagnostics.len() as nat, req.offset as nat, req.max_tokens as nat) {
                Some(t) => r matches Ok(text) && text@ == t,
                None => r matches Err(e) && e.kind == ToolErrorKind::Other,
            },
        },
{
    let ghost ds = view_seq(req.diagnostics@);
    let ghost p = |k: int| files@[k].shape is Err;
    let mut rows: Vec<DiagnosticRow> = Vec::new();
    let mut i: usize = 0;
    while i < req.diagnostics.len()
        invariant
            i <= req.diagnostics.len(),
            files.len() == req.diagnostics.len(),
            ds == view_seq(req.diagnostics@),
            p == (|k: int| files@[k].shape is Err),
            crate::text::first_at(i as nat, p) is None,
            view_seq(rows@) == Seq::new(i as nat, |k: int| diag_row_of(ds[k], files@[k])),
        decreases req.diagnostics.len() - i,
    {
        let d = &req.diagnostics[i];
        let f = &files[i];
        let owner = match &f.shape {
            Err(msg) => {
                proof {
                    assert(p(i as int));
                    crate::text::lemma_first_at_extend((i + 1) as nat, files.len() as nat, p);
                }
                return Err(ToolError { kind: ToolErrorKind::NotFound, message: msg.clone() });
            },
            Ok(Some(shape)) => match owner_for_line(shape, d.line) {
                Some(o) => o,
                None => String::new(),
            },
            Ok(None) => String::new(),
        };
        let row = DiagnosticRow {
            severity: d.severity.clone(),
            file: f.rel.clone(),
            line: d.line,
            column: d.column,
            owner,
            source: d.source.clone(),
            code: d.code.clone(),
            message: d.message.clone(),
        };
        let ghost before = view_seq(rows@);
        proof {
            reveal_strlit("");
            assert(ds[i as int] == d@);
            assert(row@ == diag_row_of(ds[i as int], files@[i as int]));
        }
        rows.push(row);
        proof {
            assert(view_seq(rows@) =~= before.push(row@));
            assert(view_seq(rows@) =~= Seq::new((i + 1) as nat, |k: int| diag_row_of(ds[k], files@[k])));
        }
        i += 1;
    }
    let total = rows.len();
    let sorted = sort_by_view(rows);
    let ghost sv = view_seq(sorted@);
    proof {
        crate::sort::lemma_sorted_view_members::<DiagnosticRow>(Seq::new(ds.len(), |k: int| diag_row_of(ds[k], files@[k])));
    }
    let (start, end) = page_bounds::<DiagRowView>(sorted.len(), req.offset, req.limit);
    let mut texts: Vec<String> = Vec::new();
    let mut j: usize = start;
    while j < end
        invariant
            start <= j <= end,
            end <= sorted.len(),
            sv == view_seq(sorted@),
            views(texts@) == sv.subrange(start as int, j as int).map_values(|r: DiagRowView| row_of(diag_fields(r))),
        decreases end - j,
    {
        let t = diag_row_text(&sorted[j]);
        let ghost before = views(texts@);
        texts.push(t);
        proof {
            assert(sv.subrange(start as int, j + 1) =~= sv.subrange(start as int, j as int).push(sv[j as int]));
            assert(views(texts@) =~= before.push(t@));
        }
        j += 1;
    }
    let tok = match load_cl100k() {
        Ok(tok) => tok,
        Err(e) => {
            let mut msg = String::from_str("Failed to initialize tiktoken tokenizer: ");
            msg.append(e.as_str());
            return Err(ToolError { kind: ToolErrorKind::Other, message: msg });
        },
    };
    let header = "severity|file|line|col|owner|source|code|message";
    let mut tail = String::from_str(",\"h\":");
    let hq = json_quote(header);
    tail.append(hq.as_str());
    tail.append("}");
    proof {
        reveal_strlit(",\"h\":");
        reveal_strlit("}");
        assert(tail@ =~= ",\"h\":"@ + json_quoted(diagnostic_header()) + "}"@);
    }
    let (text, truncated) = match budget_with(&tok, &texts, "{\"d\":", "{\"@\":{\"t\":true},\"d\":", tail.as_str(), req.max_tokens) {
        Ok(kept) => kept,
        Err(e) => {
            proof {
                assert(views(texts@) =~= shown_rows(ds, files@, req.offset as nat, opt_nat(req.limit)));
            }
            return Err(ToolError { kind: ToolErrorKind::Other, message: e });
        },
    };
    let mut out = String::from_str("{");
    if truncated {
        out.append("\"@\":{\"t\":true},");
    }
    out.append("\"d\":");
    let tq = json_quote(text.as_str());
    out.append(tq.as_str());
    out.append(",\"h\":");
    out.append(hq.as_str());
    out.append(",\"offset\":");
    push_decimal(&mut out, req.offset);
    out.append(",\"total\":");
    push_decimal(&mut out, total);
    out.append("}");
    proof {
        assert(views(texts@) =~= shown_rows(ds, files@, req.offset as nat, opt_nat(req.limit)));
        assert(out@ =~= diagnostics_json(text@, truncated, req.diagnostics.len() as nat, req.offset as nat));
        assert(diagnostics_answer(shown_rows(ds, files@, req.offset as nat, opt_nat(req.limit)),
            req.diagnostics.len() as nat, req.offset as nat, req.max_tokens as nat) == Some(out@));
    }
    Ok(out)
}

} // verus!
