//! Symbol edits: the line span of a symbol in a file's outline, and the
//! file text with that span replaced by a new body.

use vstd::prelude::*;
use vstd::string::{StringExecFns, StrSliceExecFns};
use crate::error::{ToolError, ToolErrorKind};
use crate::shape::{FileShape, FunctionInfo, MethodInfo, TypeInfo, ClassInfo};
use crate::lines::{lines_of, split_lines, trimmed, trim};
use crate::rows::{join_with, views, join_strings};
use crate::text::{has_suffix, str_eq, str_ends_with, decimal, push_decimal, first_at, lemma_first_at, lemma_first_at_extend};
use crate::json::{json_quoted, append_quoted};
use crate::tools::ApplySymbolEdit;

verus! {

/// A named line span of the outline.
pub struct NamedSpan {
    pub name: Seq<char>,
    pub line: nat,
    pub end_line: nat,
}

/// The spans of functions.
pub open spec fn function_spans(fs: Seq<FunctionInfo>) -> Seq<NamedSpan> {
    fs.map_values(|f: FunctionInfo| NamedSpan { name: f.name@, line: f.line as nat, end_line: f.end_line as nat })
}

/// The spans of methods.
pub open spec fn method_spans(ms: Seq<MethodInfo>) -> Seq<NamedSpan> {
    ms.map_values(|m: MethodInfo| NamedSpan { name: m.name@, line: m.line as nat, end_line: m.end_line as nat })
}

/// The spans of struct-like types.
pub open spec fn type_spans(ts: Seq<TypeInfo>) -> Seq<NamedSpan> {
    ts.map_values(|t: TypeInfo| NamedSpan { name: t.name@, line: t.line as nat, end_line: t.end_line as nat })
}

/// The spans of the first `n` classes: each class, then its methods.
pub open spec fn class_spans_upto(cs: Seq<ClassInfo>, n: int) -> Seq<NamedSpan>
    decreases n,
{
    if n <= 0 || n > cs.len() {
        seq![]
    } else {
        let c = cs[n - 1];
        class_spans_upto(cs, n - 1) + seq![NamedSpan { name: c.name@, line: c.line as nat, end_line: c.end_line as nat }]
            + function_spans(c.methods@)
    }
}

/// The method spans of the first `n` impl blocks.
pub open spec fn impl_spans_upto(shape: FileShape, n: int) -> Seq<NamedSpan>
    decreases n,
{
    if n <= 0 || n > shape.impl_blocks.len() {
        seq![]
    } else {
        impl_spans_upto(shape, n - 1) + method_spans(shape.impl_blocks@[n - 1].methods@)
    }
}

/// The method spans of the first `n` traits.
pub open spec fn trait_spans_upto(shape: FileShape, n: int) -> Seq<NamedSpan>
    decreases n,
{
    if n <= 0 || n > shape.traits.len() {
        seq![]
    } else {
        trait_spans_upto(shape, n - 1) + method_spans(shape.traits@[n - 1].methods@)
    }
}

/// Every span a symbol edit can target, in the order they are searched:
/// functions, structs, classes (each followed by its methods), impl-block
/// methods, trait methods.
pub open spec fn edit_spans(shape: FileShape) -> Seq<NamedSpan> {
    function_spans(shape.functions@) + type_spans(shape.structs@)
        + class_spans_upto(shape.classes@, shape.classes.len() as int)
        + impl_spans_upto(shape, shape.impl_blocks.len() as int)
        + trait_spans_upto(shape, shape.traits.len() as int)
}

/// The span of the first outline entry named `symbol`.
pub open spec fn symbol_span(shape: FileShape, symbol: Seq<char>) -> Option<(nat, nat)> {
    let s = edit_spans(shape);
    match first_at(s.len(), |k: int| s[k].name == symbol) {
        Some(k) => Some((s[k].line, s[k].end_line)),
        None => None,
    }
}

/// Scans `spans` for `symbol`, `found` being what the spans before gave.
pub open spec fn scan_spans(found: Option<(nat, nat)>, spans: Seq<NamedSpan>, symbol: Seq<char>) -> Option<(nat, nat)> {
    match found {
        Some(x) => Some(x),
        None => match first_at(spans.len(), |k: int| spans[k].name == symbol) {
            Some(k) => Some((spans[k].line, spans[k].end_line)),
            None => None,
        },
    }
}

/// Looking through `a + b` is looking through `a`, then `b`.
proof fn lemma_scan_concat(a: Seq<NamedSpan>, b: Seq<NamedSpan>, symbol: Seq<char>)
    ensures
        scan_spans(scan_spans(None, a, symbol), b, symbol) == scan_spans(None, a + b, symbol),
{
    let pa = |k: int| a[k].name == symbol;
    let pb = |k: int| b[k].name == symbol;
    let ab = a + b;
    let pab = |k: int| ab[k].name == symbol;
    lemma_first_at(a.len(), pa);
    lemma_first_at(b.len(), pb);
    lemma_first_at(ab.len(), pab);
    match first_at(a.len(), pa) {
        Some(k) => {
            assert(pab(k));
            match first_at(ab.len(), pab) {
                Some(j) => {
                    if j < k {
                        assert(pa(j));
                    }
                    assert(!(k < j));
                },
                None => {},
            }
        },
        None => {
            match first_at(b.len(), pb) {
                Some(k) => {
                    assert(pab(a.len() + k));
                    match first_at(ab.len(), pab) {
                        Some(j) => {
                            if j < a.len() {
                                assert(pa(j));
                            } else if j < a.len() + k {
                                assert(pb(j - a.len()));
                            }
                        },
                        None => {},
                    }
                },
                None => {
                    match first_at(ab.len(), pab) {
                        Some(j) => {
                            if j < a.len() {
                                assert(pa(j));
                            } else {
                                assert(pb(j - a.len()));
                            }
                        },
                        None => {},
                    }
                },
            }
        },
    }
}

/// The first function named `symbol`.
fn scan_functions(fs: &Vec<FunctionInfo>, symbol: &str) -> (r: Option<(usize, usize)>)
    ensures
        match scan_spans(None, function_spans(fs@), symbol@) {
            Some((a, b)) => r matches Some((x, y)) && x as nat == a && y as nat == b,
            None => r is None,
        },
{
    let ghost s = function_spans(fs@);
    let ghost p = |k: int| s[k].name == symbol@;
    let mut k: usize = 0;
    while k < fs.len()
        invariant
            k <= fs.len(),
            s == function_spans(fs@),
            p == (|k: int| s[k].name == symbol@),
            first_at(k as nat, p) is None,
        decreases fs.len() - k,
    {
        if str_eq(fs[k].name.as_str(), symbol) {
            proof {
                assert(p(k as int));
                lemma_first_at_extend((k + 1) as nat, fs.len() as nat, p);
            }
            return Some((fs[k].line, fs[k].end_line));
        }
        k += 1;
    }
    None
}

/// The first method named `symbol`.
fn scan_methods(ms: &Vec<MethodInfo>, symbol: &str) -> (r: Option<(usize, usize)>)
    ensures
        match scan_spans(None, method_spans(ms@), symbol@) {
            Some((a, b)) => r matches Some((x, y)) && x as nat == a && y as nat == b,
            None => r is None,
        },
{
    let ghost s = method_spans(ms@);
    let ghost p = |k: int| s[k].name == symbol@;
    let mut k: usize = 0;
    while k < ms.len()
        invariant
            k <= ms.len(),
            s == method_spans(ms@),
            p == (|k: int| s[k].name == symbol@),
            first_at(k as nat, p) is None,
        decreases ms.len() - k,
    {
        if str_eq(ms[k].name.as_str(), symbol) {
            proof {
                assert(p(k as int));
                lemma_first_at_extend((k + 1) as nat, ms.len() as nat, p);
            }
            return Some((ms[k].line, ms[k].end_line));
        }
        k += 1;
    }
    None
}

/// The first struct named `symbol`.
fn scan_types(ts: &Vec<TypeInfo>, symbol: &str) -> (r: Option<(usize, usize)>)
    ensures
        match scan_spans(None, type_spans(ts@), symbol@) {
            Some((a, b)) => r matches Some((x, y)) && x as nat == a && y as nat == b,
            None => r is None,
        },
{
    let ghost s = type_spans(ts@);
    let ghost p = |k: int| s[k].name == symbol@;
    let mut k: usize = 0;
    while k < ts.len()
        invariant
            k <= ts.len(),
            s == type_spans(ts@),
            p == (|k: int| s[k].name == symbol@),
            first_at(k as nat, p) is None,
        decreases ts.len() - k,
    {
        if str_eq(ts[k].name.as_str(), symbol) {
            proof {
                assert(p(k as int));
                lemma_first_at_extend((k + 1) as nat, ts.len() as nat, p);
            }
            return Some((ts[k].line, ts[k].end_line));
        }
        k += 1;
    }
    None
}

/// Plain numbers of an exec span.
pub open spec fn span_nats(r: Option<(usize, usize)>) -> Option<(nat, nat)> {
    match r {
        Some((a, b)) => Some((a as nat, b as nat)),
        None => None,
    }
}

/// The span of the first outline entry named `symbol`: functions first,
/// then structs, classes with their methods, impl-block methods and trait
/// methods.
pub fn find_span(shape: &FileShape, symbol: &str) -> (r: Option<(usize, usize)>)
    ensures
        span_nats(r) == symbol_span(*shape, symbol@),
{
    let ghost sym = symbol@;
    let ghost all = edit_spans(*shape);
    let ghost fs = function_spans(shape.functions@);
    let ghost ts = type_spans(shape.structs@);
    let ghost cs = class_spans_upto(shape.classes@, shape.classes.len() as int);
    let ghost is = impl_spans_upto(*shape, shape.impl_blocks.len() as int);
    let ghost trs = trait_spans_upto(*shape, shape.traits.len() as int);
    proof {
        assert(symbol_span(*shape, sym) == scan_spans(None, all, sym));
    }
    match scan_functions(&shape.functions, symbol) {
        Some(x) => {
            proof {
                lemma_scan_concat(fs, ts + cs + is + trs, sym);
                assert(fs + (ts + cs + is + trs) =~= all);
            }
            return Some(x);
        },
        None => {},
    }
    match scan_types(&shape.structs, symbol) {
        Some(x) => {
            proof {
                lemma_scan_concat(fs, ts, sym);
                lemma_scan_concat(fs + ts, cs + is + trs, sym);
                assert(fs + ts + (cs + is + trs) =~= all);
            }
            return Some(x);
        },
        None => {},
    }
    let ghost mut pre = fs + ts;
    proof {
        lemma_scan_concat(fs, ts, sym);
        assert(pre + class_spans_upto(shape.classes@, 0) =~= pre);
        lemma_class_split(shape.classes@, 0);
        assert(class_spans_upto(shape.classes@, 0) + class_rest(shape.classes@, 0) =~= class_rest(shape.classes@, 0));
        assert(all =~= pre + class_rest(shape.classes@, 0) + is + trs);
    }
    let mut i: usize = 0;
    while i < shape.classes.len()
        invariant
            i <= shape.classes.len(),
            pre == fs + ts + class_spans_upto(shape.classes@, i as int),
            scan_spans(None, pre, sym) is None,
            all == edit_spans(*shape),
            sym == symbol@,
            fs == function_spans(shape.functions@),
            ts == type_spans(shape.structs@),
            cs == class_spans_upto(shape.classes@, shape.classes.len() as int),
            is == impl_spans_upto(*shape, shape.impl_blocks.len() as int),
            trs == trait_spans_upto(*shape, shape.traits.len() as int),
            scan_spans(None, all, sym) == scan_spans(None, pre + class_rest(shape.classes@, i as int) + is + trs, sym),
        decreases shape.classes.len() - i,
    {
        let c = &shape.classes[i];
        let ghost own = seq![NamedSpan { name: c.name@, line: c.line as nat, end_line: c.end_line as nat }];
        let ghost ms = function_spans(c.methods@);
        let ghost rest = class_rest(shape.classes@, i + 1) + is + trs;
        proof {
            lemma_class_rest_step(shape.classes@, i as int);
            assert(pre + class_rest(shape.classes@, i as int) + is + trs =~= pre + (own + ms + rest));
        }
        if str_eq(c.name.as_str(), symbol) {
            proof {
                let p = |k: int| own[k].name == sym;
                assert(p(0));
                lemma_first_at(1, p);
                lemma_scan_concat(pre, own + ms + rest, sym);
                lemma_scan_concat(own, ms + rest, sym);
                assert(own + ms + rest =~= own + (ms + rest));
            }
            return Some((c.line, c.end_line));
        }
        match scan_functions(&c.methods, symbol) {
            Some(x) => {
                proof {
                    let p = |k: int| own[k].name == sym;
                    lemma_first_at(1, p);
                    lemma_scan_concat(pre, own + ms + rest, sym);
                    lemma_scan_concat(own, ms + rest, sym);
                    lemma_scan_concat(ms, rest, sym);
                    assert(own + ms + rest =~= own + (ms + rest));
                }
                return Some(x);
            },
            None => {},
        }
        proof {
            let p = |k: int| own[k].name == sym;
            lemma_first_at(1, p);
            lemma_scan_concat(pre, own, sym);
            lemma_scan_concat(pre + own, ms, sym);
            pre = pre + own + ms;
            assert(pre =~= fs + ts + class_spans_upto(shape.classes@, i + 1));
            assert(pre + class_rest(shape.classes@, i + 1) + is + trs =~= (fs + ts + class_spans_upto(shape.classes@, i as int)) + (own + ms + rest));
        }
        i += 1;
    }
    proof {
        assert(class_rest(shape.classes@, shape.classes.len() as int) =~= Seq::<NamedSpan>::empty());
        assert(pre =~= fs + ts + cs);
    }
    let mut j: usize = 0;
    proof {
        assert(impl_spans_upto(*shape, 0) =~= Seq::<NamedSpan>::empty());
    }
    while j < shape.impl_blocks.len()
        invariant
            j <= shape.impl_blocks.len(),
            all == edit_spans(*shape),
            sym == symbol@,
            pre == fs + ts + cs,
            fs == function_spans(shape.functions@),
            ts == type_spans(shape.structs@),
            cs == class_spans_upto(shape.classes@, shape.classes.len() as int),
            is == impl_spans_upto(*shape, shape.impl_blocks.len() as int),
            trs == trait_spans_upto(*shape, shape.traits.len() as int),
            scan_spans(None, pre + impl_spans_upto(*shape, j as int), sym) is None,
            scan_spans(None, all, sym) == scan_spans(None, pre + is + trs, sym),
        decreases shape.impl_blocks.len() - j,
    {
        let ghost before = pre + impl_spans_upto(*shape, j as int);
        let ghost ms = method_spans(shape.impl_blocks@[j as int].methods@);
        let ghost rest = impl_rest(*shape, j + 1) + trs;
        proof {
            lemma_impl_rest(*shape, j as int);
            assert(pre + is + trs =~= before + (ms + rest));
        }
        match scan_methods(&shape.impl_blocks[j].methods, symbol) {
            Some(x) => {
                proof {
                    lemma_scan_concat(before, ms + rest, sym);
                    lemma_scan_concat(ms, rest, sym);
                }
                return Some(x);
            },
            None => {},
        }
        proof {
            lemma_scan_concat(before, ms, sym);
            assert(before + ms =~= pre + impl_spans_upto(*shape, j + 1));
        }
        j += 1;
    }
    proof {
        assert(impl_spans_upto(*shape, shape.impl_blocks.len() as int) == is);
    }
    let mut k: usize = 0;
    proof {
        assert(trait_spans_upto(*shape, 0) =~= Seq::<NamedSpan>::empty());
        assert(pre + is + trait_spans_upto(*shape, 0) =~= pre + is);
    }
    while k < shape.traits.len()
        invariant
            k <= shape.traits.len(),
            all == edit_spans(*shape),
            sym == symbol@,
            pre == fs + ts + cs,
            is == impl_spans_upto(*shape, shape.impl_blocks.len() as int),
            trs == trait_spans_upto(*shape, shape.traits.len() as int),
            scan_spans(None, pre + is + trait_spans_upto(*shape, k as int), sym) is None,
            scan_spans(None, all, sym) == scan_spans(None, pre + is + trs, sym),
        decreases shape.traits.len() - k,
    {
        let ghost before = pre + is + trait_spans_upto(*shape, k as int);
        let ghost ms = method_spans(shape.traits@[k as int].methods@);
        let ghost rest = trait_rest(*shape, k + 1);
        proof {
            lemma_trait_rest(*shape, k as int);
            assert(pre + is + trs =~= before + (ms + rest));
        }
        match scan_methods(&shape.traits[k].methods, symbol) {
            Some(x) => {
                proof {
                    lemma_scan_concat(before, ms + rest, sym);
                    lemma_scan_concat(ms, rest, sym);
                }
                return Some(x);
            },
            None => {},
        }
        proof {
            lemma_scan_concat(before, ms, sym);
            assert(before + ms =~= pre + is + trait_spans_upto(*shape, k + 1));
        }
        k += 1;
    }
    proof {
        assert(trait_spans_upto(*shape, shape.traits.len() as int) == trs);
    }
    None
}

/// The spans of classes from `i` on.
pub open spec fn class_rest(cs: Seq<ClassInfo>, i: int) -> Seq<NamedSpan>
    decreases cs.len() - i,
{
    if i < 0 || i >= cs.len() {
        seq![]
    } else {
        seq![NamedSpan { name: cs[i].name@, line: cs[i].line as nat, end_line: cs[i].end_line as nat }]
            + function_spans(cs[i].methods@) + class_rest(cs, i + 1)
    }
}

/// The spans before class `i` and from it make up all class spans.
proof fn lemma_class_split(cs: Seq<ClassInfo>, i: int)
    requires
        0 <= i <= cs.len(),
    ensures
        class_spans_upto(cs, i) + class_rest(cs, i) == class_spans_upto(cs, cs.len() as int),
    decreases cs.len() - i,
{
    if i == cs.len() {
        assert(class_rest(cs, i) =~= Seq::<NamedSpan>::empty());
        assert(class_spans_upto(cs, i) + class_rest(cs, i) =~= class_spans_upto(cs, i));
    } else {
        lemma_class_split(cs, i + 1);
        assert(class_spans_upto(cs, i) + class_rest(cs, i) =~= class_spans_upto(cs, i + 1) + class_rest(cs, i + 1));
    }
}

/// One class step of `class_rest`, and how it meets the whole.
proof fn lemma_class_rest_step(cs: Seq<ClassInfo>, i: int)
    requires
        0 <= i < cs.len(),
    ensures
        class_rest(cs, i) == seq![NamedSpan { name: cs[i].name@, line: cs[i].line as nat, end_line: cs[i].end_line as nat }]
            + function_spans(cs[i].methods@) + class_rest(cs, i + 1),
{
}

/// The impl-block spans from block `j` on.
pub open spec fn impl_rest(shape: FileShape, j: int) -> Seq<NamedSpan>
    decreases shape.impl_blocks.len() - j,
{
    if j < 0 || j >= shape.impl_blocks.len() {
        seq![]
    } else {
        method_spans(shape.impl_blocks@[j].methods@) + impl_rest(shape, j + 1)
    }
}

/// Impl-block spans split at block `j`.
proof fn lemma_impl_split(shape: FileShape, j: int)
    requires
        0 <= j <= shape.impl_blocks.len(),
    ensures
        impl_spans_upto(shape, j) + impl_rest(shape, j) == impl_spans_upto(shape, shape.impl_blocks.len() as int),
    decreases shape.impl_blocks.len() - j,
{
    if j == shape.impl_blocks.len() {
        assert(impl_rest(shape, j) =~= Seq::<NamedSpan>::empty());
        assert(impl_spans_upto(shape, j) + impl_rest(shape, j) =~= impl_spans_upto(shape, j));
    } else {
        lemma_impl_split(shape, j + 1);
        assert(impl_spans_upto(shape, j) + impl_rest(shape, j) =~= impl_spans_upto(shape, j + 1) + impl_rest(shape, j + 1));
    }
}

/// Impl-block spans around block `j`.
proof fn lemma_impl_rest(shape: FileShape, j: int)
    requires
        0 <= j < shape.impl_blocks.len(),
    ensures
        impl_spans_upto(shape, shape.impl_blocks.len() as int)
            == impl_spans_upto(shape, j) + (method_spans(shape.impl_blocks@[j].methods@) + impl_rest(shape, j + 1)),
{
    lemma_impl_split(shape, j);
}

/// The trait spans from trait `k` on.
pub open spec fn trait_rest(shape: FileShape, k: int) -> Seq<NamedSpan>
    decreases shape.traits.len() - k,
{
    if k < 0 || k >= shape.traits.len() {
        seq![]
    } else {
        method_spans(shape.traits@[k].methods@) + trait_rest(shape, k + 1)
    }
}

/// Trait spans split at trait `k`.
proof fn lemma_trait_split(shape: FileShape, k: int)
    requires
        0 <= k <= shape.traits.len(),
    ensures
        trait_spans_upto(shape, k) + trait_rest(shape, k) == trait_spans_upto(shape, shape.traits.len() as int),
    decreases shape.traits.len() - k,
{
    if k == shape.traits.len() {
        assert(trait_rest(shape, k) =~= Seq::<NamedSpan>::empty());
        assert(trait_spans_upto(shape, k) + trait_rest(shape, k) =~= trait_spans_upto(shape, k));
    } else {
        lemma_trait_split(shape, k + 1);
        assert(trait_spans_upto(shape, k) + trait_rest(shape, k) =~= trait_spans_upto(shape, k + 1) + trait_rest(shape, k + 1));
    }
}

/// Trait spans around trait `k`.
proof fn lemma_trait_rest(shape: FileShape, k: int)
    requires
        0 <= k < shape.traits.len(),
    ensures
        trait_spans_upto(shape, shape.traits.len() as int)
            == trait_spans_upto(shape, k) + (method_spans(shape.traits@[k].methods@) + trait_rest(shape, k + 1)),
{
    lemma_trait_split(shape, k);
}

/// The lines with `start..end` replaced by the one entry `body`.
pub open spec fn spliced_lines(lines: Seq<Seq<char>>, start: int, end: int, body: Seq<char>) -> Seq<Seq<char>> {
    lines.take(start) + seq![body] + lines.skip(end)
}

/// The file text with the 1-based line span `line..=end_line` (clipped to
/// the file) replaced by `body`, a final newline kept, and how many lines
/// were replaced; none when the span starts past the file or is empty.
pub open spec fn splice_outcome(source: Seq<char>, line: nat, end_line: nat, body: Seq<char>) -> Option<(Seq<char>, nat)> {
    let ls = lines_of(source);
    let start: int = if line >= 1 { line - 1 } else { 0 };
    let end: int = if end_line <= ls.len() { end_line as int } else { ls.len() as int };
    if start >= ls.len() || start >= end {
        None
    } else {
        Some((join_with(spliced_lines(ls, start, end, body), seq!['\n'])
            + (if has_suffix(source, seq!['\n']) { seq!['\n'] } else { seq![] }), (end - start) as nat))
    }
}

/// A symbol edit ready to write: the new text and the lines it replaced.
pub struct EditPlan {
    pub updated: String,
    pub replaced: usize,
}

/// What a symbol edit on a file comes to: the error the request meets, or
/// the new text and the number of lines replaced.
pub open spec fn edit_outcome(symbol: Seq<char>, file_path: Seq<char>, body: Seq<char>, source: Seq<char>, shape: FileShape) -> Result<(Seq<char>, nat), (ToolErrorKind, Seq<char>)> {
    match symbol_span(shape, symbol) {
        None => Err((ToolErrorKind::NotFound, "Symbol '"@ + symbol + "' not found in "@ + file_path)),
        Some((line, end_line)) => match splice_outcome(source, line, end_line, body) {
            None => Err((ToolErrorKind::Other, "symbol span out of range"@)),
            Some(x) => Ok(x),
        },
    }
}

/// Checks that the new body is not blank (before the file is read).
pub fn check_new_body(args: &ApplySymbolEdit) -> (r: Result<(), ToolError>)
    ensures
        r is Ok <==> trimmed(args.new_body@).len() > 0,
        r matches Err(e) ==> e.kind == ToolErrorKind::InvalidInput && e.message@ == "'new_body' must not be empty"@,
{
    let t = trim(args.new_body.as_str());
    if t.as_str().unicode_len() == 0 {
        return Err(ToolError {
            kind: ToolErrorKind::InvalidInput,
            message: String::from_str("'new_body' must not be empty"),
        });
    }
    proof {
        if t@.len() == 0 {
            assert(t@ =~= Seq::<char>::empty());
        }
    }
    Ok(())
}

/// The file text with the symbol's span replaced by the new body.
pub fn plan_symbol_edit(args: &ApplySymbolEdit, source: &str, shape: &FileShape) -> (r: Result<EditPlan, ToolError>)
    ensures
        match edit_outcome(args.symbol_name@, args.file_path@, args.new_body@, source@, *shape) {
            Ok((text, n)) => r matches Ok(p) && p.updated@ == text && p.replaced as nat == n,
            Err((kind, message)) => r matches Err(e) && e.kind == kind && e.message@ == message,
        },
{
    let (line, end_line) = match find_span(shape, args.symbol_name.as_str()) {
        Some(x) => x,
        None => {
            let mut msg = String::from_str("Symbol '");
            msg.append(args.symbol_name.as_str());
            msg.append("' not found in ");
            msg.append(args.file_path.as_str());
            return Err(ToolError { kind: ToolErrorKind::NotFound, message: msg });
        },
    };
    let lines = split_lines(source);
    let ghost ls = views(lines@);
    let start: usize = if line >= 1 { line - 1 } else { 0 };
    let end: usize = if end_line <= lines.len() { end_line } else { lines.len() };
    if start >= lines.len() || start >= end {
        return Err(ToolError { kind: ToolErrorKind::Other, message: String::from_str("symbol span out of range") });
    }
    let mut parts: Vec<String> = Vec::new();
    let mut i: usize = 0;
    while i < start
        invariant
            i <= start,
            start < lines.len(),
            ls == views(lines@),
            views(parts@) == ls.take(i as int),
        decreases start - i,
    {
        let ghost before = parts@;
        parts.push(lines[i].clone());
        proof {
            assert(views(parts@) =~= views(before).push(lines@[i as int]@));
            assert(ls.take(i + 1) =~= ls.take(i as int).push(ls[i as int]));
        }
        i += 1;
    }
    let ghost before_body = parts@;
    parts.push(args.new_body.clone());
    proof {
        assert(views(parts@) =~= views(before_body).push(args.new_body@));
    }
    let mut j: usize = end;
    while j < lines.len()
        invariant
            end <= j <= lines.len(),
            ls == views(lines@),
            views(parts@) == ls.take(start as int) + seq![args.new_body@] + ls.subrange(end as int, j as int),
        decreases lines.len() - j,
    {
        let ghost before = parts@;
        parts.push(lines[j].clone());
        proof {
            assert(views(parts@) =~= views(before).push(lines@[j as int]@));
            assert(ls.subrange(end as int, j + 1) =~= ls.subrange(end as int, j as int).push(ls[j as int]));
        }
        j += 1;
    }
    proof {
        assert(ls.subrange(end as int, lines.len() as int) =~= ls.skip(end as int));
        reveal_strlit("\n");
        assert("\n"@ =~= seq!['\n']);
    }
    let mut updated = join_strings(&parts, "\n");
    if str_ends_with(source, "\n") {
        crate::text::push_char(&mut updated, '\n');
    }
    proof {
        let want = splice_outcome(source@, line as nat, end_line as nat, args.new_body@);
        assert(want is Some);
        let (text, n) = want->0;
        assert(updated@ =~= text);
    }
    Ok(EditPlan { updated, replaced: end - start })
}

/// The answer to a symbol edit.
pub open spec fn edit_json(rel: Seq<char>, symbol: Seq<char>, dry_run: bool, replaced: nat, parses: bool) -> Seq<char> {
    "{\"dry_run\":"@ + (if dry_run { "true"@ } else { "false"@ })
        + ",\"hint\":"@ + json_quoted("verify with parse_diff then affected_by_diff before tests"@)
        + ",\"p\":"@ + json_quoted(rel) + ",\"parses\":"@ + (if parses { "true"@ } else { "false"@ })
        + ",\"replaced_lines\":"@ + decimal(replaced) + ",\"sym\":"@ + json_quoted(symbol) + "}"@
}

/// Writes the answer to a symbol edit.
pub fn edit_answer(rel: &str, symbol: &str, dry_run: bool, replaced: usize, parses: bool) -> (r: String)
    ensures
        r@ == edit_json(rel@, symbol@, dry_run, replaced as nat, parses),
{
    let mut out = String::from_str("{\"dry_run\":");
    out.append(if dry_run { "true" } else { "false" });
    out.append(",\"hint\":");
    let hint = crate::hints::edit_hint();
    append_quoted(&mut out, hint.as_str());
    out.append(",\"p\":");
    append_quoted(&mut out, rel);
    out.append(",\"parses\":");
    out.append(if parses { "true" } else { "false" });
    out.append(",\"replaced_lines\":");
    push_decimal(&mut out, replaced);
    out.append(",\"sym\":");
    append_quoted(&mut out, symbol);
    out.append("}");
    proof {
        assert(out@ =~= edit_json(rel@, symbol@, dry_run, replaced as nat, parses));
    }
    out
}

} // verus!
