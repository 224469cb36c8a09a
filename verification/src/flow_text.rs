//! The text heuristics of argument flow: bare identifiers, the identifiers
//! an expression's base mentions, and the depth mark on assignment rows.

use vstd::prelude::*;
use vstd::string::StringExecFns;
use crate::lines::{trimmed, trim};
use crate::text::{chars_of, push_char, str_eq, first_match, find_chars, decimal, push_decimal, string_from_chars};

verus! {

/// ASCII letters, digits and `_`.
pub open spec fn ident_char(c: char) -> bool {
    ('a' <= c && c <= 'z') || ('A' <= c && c <= 'Z') || ('0' <= c && c <= '9') || c == '_'
}

/// Whether `c` is an ASCII letter, digit or `_`.
pub fn is_ident_char(c: char) -> (b: bool)
    ensures
        b == ident_char(c),
{
    ('a' <= c && c <= 'z') || ('A' <= c && c <= 'Z') || ('0' <= c && c <= '9') || c == '_'
}

/// An ASCII digit.
pub open spec fn ascii_digit(c: char) -> bool {
    '0' <= c && c <= '9'
}

/// The trimmed text is a non-empty run of identifier characters not
/// starting with a digit.
pub open spec fn bare_identifier(s: Seq<char>) -> bool {
    let t = trimmed(s);
    t.len() > 0 && (forall|i: int| 0 <= i < t.len() ==> ident_char(#[trigger] t[i])) && !ascii_digit(t[0])
}

/// Whether `s` is a bare identifier.
pub fn is_bare_identifier(s: &str) -> (b: bool)
    ensures
        b == bare_identifier(s@),
{
    let t = trim(s);
    let cs = chars_of(t.as_str());
    if cs.len() == 0 {
        return false;
    }
    let mut i: usize = 0;
    while i < cs.len()
        invariant
            i <= cs.len(),
            cs@ == trimmed(s@),
            forall|k: int| 0 <= k < i ==> ident_char(#[trigger] cs@[k]),
        decreases cs.len() - i,
    {
        if !is_ident_char(cs[i]) {
            return false;
        }
        i += 1;
    }
    !('0' <= cs[0] && cs[0] <= '9')
}

/// The part of `s` before the first `c` (all of it when there is none).
pub open spec fn before_char(s: Seq<char>, c: char) -> Seq<char>
    decreases s.len(),
{
    if s.len() == 0 {
        seq![]
    } else if s[0] == c {
        seq![]
    } else {
        seq![s[0]] + before_char(s.drop_first(), c)
    }
}

/// The part of `s` before the first `c`.
pub(crate) fn prefix_before(s: &str, c: char) -> (r: String)
    ensures
        r@ == before_char(s@, c),
{
    let cs = chars_of(s);
    let mut out = String::new();
    let mut i: usize = 0;
    proof {
        assert(cs@.skip(0) =~= cs@);
        assert(out@ =~= cs@.take(0));
    }
    while i < cs.len() && cs[i] != c
        invariant
            i <= cs.len(),
            cs@ == s@,
            out@ == cs@.take(i as int),
            before_char(s@, c) == out@ + before_char(cs@.skip(i as int), c),
        decreases cs.len() - i,
    {
        proof {
            assert(cs@.skip(i as int).drop_first() =~= cs@.skip(i + 1));
            assert(cs@.take(i + 1) =~= cs@.take(i as int).push(cs@[i as int]));
        }
        push_char(&mut out, cs[i]);
        i += 1;
    }
    proof {
        if i < cs.len() {
            assert(cs@.skip(i as int)[0] == c);
        } else {
            assert(cs@.skip(i as int) =~= Seq::<char>::empty());
        }
    }
    out
}

/// The pieces of `s` between separators (`str::split` with a character
/// predicate): separators at the ends give empty pieces.
pub open spec fn split_on(s: Seq<char>, sep: spec_fn(char) -> bool) -> Seq<Seq<char>>
    decreases s.len(),
{
    if s.len() == 0 {
        seq![seq![]]
    } else {
        let p = split_on(s.drop_last(), sep);
        if sep(s.last()) {
            p.push(seq![])
        } else {
            p.update(p.len() - 1, p.last().push(s.last()))
        }
    }
}

/// `split_on` always gives at least one piece.
pub proof fn lemma_split_nonempty(s: Seq<char>, sep: spec_fn(char) -> bool)
    ensures
        split_on(s, sep).len() >= 1,
    decreases s.len(),
{
    if s.len() > 0 {
        lemma_split_nonempty(s.drop_last(), sep);
    }
}

/// Words that never name a traced value.
pub open spec fn skip_word(t: Seq<char>) -> bool {
    t == "self"@ || t == "this"@ || t == "true"@ || t == "false"@ || t == "none"@ || t == "null"@
        || t == "nil"@ || t == "return"@ || t == "await"@ || t == "async"@
}

/// A token worth tracing: not empty, not a skipped word, not starting with a digit.
pub open spec fn traceable(t: Seq<char>) -> bool {
    t.len() > 0 && !skip_word(t) && !ascii_digit(t[0])
}

/// No token is traced that is empty, starts with an ASCII digit, or is one
/// of `self`, `this`, `true`, `false`, `none`, `null`, `nil`, `return`,
/// `await` or `async`; every other token is.
pub proof fn law_traceable_tokens(t: Seq<char>)
    ensures
        traceable(t) <==> t.len() > 0 && !('0' <= t[0] && t[0] <= '9') && t != "self"@ && t != "this"@
            && t != "true"@ && t != "false"@ && t != "none"@ && t != "null"@ && t != "nil"@ && t != "return"@
            && t != "await"@ && t != "async"@,
{
}

/// The traceable tokens of `toks`, each once, in first-seen order.
pub open spec fn keep_tokens(toks: Seq<Seq<char>>) -> Seq<Seq<char>>
    decreases toks.len(),
{
    if toks.len() == 0 {
        seq![]
    } else {
        let o = keep_tokens(toks.drop_last());
        let t = toks.last();
        if traceable(t) && !o.contains(t) { o.push(t) } else { o }
    }
}

/// The base of an expression: trimmed, up to the first `.`, trimmed, up to
/// the first `(`, trimmed.
pub open spec fn expr_base(expr: Seq<char>) -> Seq<char> {
    trimmed(before_char(trimmed(before_char(trimmed(expr), '.')), '('))
}

/// The identifiers an expression's base mentions (`request.plugins` gives
/// `request`; `a + b` gives `a` and `b`).
pub open spec fn rhs_ident_list(expr: Seq<char>) -> Seq<Seq<char>> {
    keep_tokens(split_on(expr_base(expr), |c: char| !ident_char(c)))
}

/// Whether `t` is a skipped word.
fn is_skip_word(t: &str) -> (b: bool)
    ensures
        b == skip_word(t@),
{
    str_eq(t, "self") || str_eq(t, "this") || str_eq(t, "true") || str_eq(t, "false") || str_eq(t, "none")
        || str_eq(t, "null") || str_eq(t, "nil") || str_eq(t, "return") || str_eq(t, "await") || str_eq(t, "async")
}

/// Whether `v` holds `t`.
fn holds(v: &Vec<String>, t: &str) -> (b: bool)
    ensures
        b == crate::rows::views(v@).contains(t@),
{
    let mut i: usize = 0;
    while i < v.len()
        invariant
            i <= v.len(),
            forall|k: int| 0 <= k < i ==> crate::rows::views(v@)[k] != t@,
        decreases v.len() - i,
    {
        if str_eq(v[i].as_str(), t) {
            proof {
                assert(crate::rows::views(v@)[i as int] == t@);
            }
            return true;
        }
        i += 1;
    }
    false
}

/// The identifiers an expression's base mentions.
pub fn rhs_idents(expr: &str) -> (r: Vec<String>)
    ensures
        crate::rows::views(r@) == rhs_ident_list(expr@),
{
    let t0 = trim(expr);
    let b0 = prefix_before(t0.as_str(), '.');
    let b1 = trim(b0.as_str());
    let b2 = prefix_before(b1.as_str(), '(');
    let base = trim(b2.as_str());
    let cs = chars_of(base.as_str());
    let ghost sep = |c: char| !ident_char(c);
    let mut out: Vec<String> = Vec::new();
    let mut cur = String::new();
    let mut i: usize = 0;
    proof {
        assert(cs@.take(0) =~= Seq::<char>::empty());
        assert(split_on(cs@.take(0), sep) == seq![Seq::<char>::empty()]);
        assert(crate::rows::views(out@) =~= keep_tokens(split_on(cs@.take(0), sep).drop_last()));
    }
    while i < cs.len()
        invariant
            i <= cs.len(),
            cs@ == expr_base(expr@),
            sep == (|c: char| !ident_char(c)),
            split_on(cs@.take(i as int), sep).len() >= 1,
            split_on(cs@.take(i as int), sep).last() == cur@,
            crate::rows::views(out@) == keep_tokens(split_on(cs@.take(i as int), sep).drop_last()),
        decreases cs.len() - i,
    {
        let c = cs[i];
        let ghost p = split_on(cs@.take(i as int), sep);
        proof {
            assert(cs@.take(i + 1).drop_last() =~= cs@.take(i as int));
            assert(cs@.take(i + 1).last() == c);
        }
        if !is_ident_char(c) {
            let ghost before = crate::rows::views(out@);
            let keep = keep_token(&out, cur.as_str());
            proof {
                assert(p.drop_last().push(p.last()) =~= p);
                assert(keep_tokens(p) == (if traceable(cur@) && !before.contains(cur@) { before.push(cur@) } else { before }));
                assert(split_on(cs@.take(i + 1), sep) == p.push(seq![]));
                assert(p.push(seq![]).drop_last() =~= p);
                assert(p.drop_last().push(p.last()) =~= p);
            }
            if keep {
                out.push(cur);
                proof {
                    assert(crate::rows::views(out@) =~= before.push(cur@));
                }
            }
            cur = String::new();
            proof {
                reveal_strlit("");
            }
        } else {
            push_char(&mut cur, c);
            proof {
                let q = p.update(p.len() - 1, p.last().push(c));
                assert(split_on(cs@.take(i + 1), sep) == q);
                assert(q.drop_last() =~= p.drop_last());
            }
        }
        i += 1;
    }
    let ghost before = crate::rows::views(out@);
    proof {
        assert(cs@.take(cs.len() as int) =~= cs@);
        let p = split_on(cs@, sep);
        assert(p.drop_last().push(p.last()) =~= p);
        assert(keep_tokens(p) == (if traceable(cur@) && !before.contains(cur@) { before.push(cur@) } else { before }));
    }
    let keep = keep_token(&out, cur.as_str());
    if keep {
        out.push(cur);
        proof {
            assert(crate::rows::views(out@) =~= before.push(cur@));
        }
    }
    out
}

/// Whether a finished token is kept: traceable and not yet listed.
fn keep_token(out: &Vec<String>, t: &str) -> (b: bool)
    ensures
        b == (traceable(t@) && !crate::rows::views(out@).contains(t@)),
{
    if t.is_empty() || is_skip_word(t) {
        return false;
    }
    let cc = chars_of(t);
    if '0' <= cc[0] && cc[0] <= '9' {
        return false;
    }
    !holds(out, t)
}

/// `row` with its first `|assign|` marked with the hop depth.
pub open spec fn depth_marked(row: Seq<char>, depth: nat) -> Seq<char> {
    match first_match(row, "|assign|"@) {
        Some(i) => row.take(i) + "|assign:"@ + decimal(depth) + "|"@ + row.skip(i + 8),
        None => row,
    }
}

/// Marks an assignment row with its hop depth.
pub fn with_depth(row: &str, depth: usize) -> (r: String)
    ensures
        r@ == depth_marked(row@, depth as nat),
{
    proof {
        reveal_strlit("|assign|");
    }
    let cs = chars_of(row);
    let pat = chars_of("|assign|");
    match find_chars(&cs, &pat) {
        Some(i) => {
            let mut out = String::new();
            let mut k: usize = 0;
            while k < i
                invariant
                    k <= i,
                    i + 8 <= cs.len(),
                    out@ == cs@.take(k as int),
                decreases i - k,
            {
                push_char(&mut out, cs[k]);
                proof {
                    assert(cs@.take(k + 1) =~= cs@.take(k as int).push(cs@[k as int]));
                }
                k += 1;
            }
            out.append("|assign:");
            push_decimal(&mut out, depth);
            out.append("|");
            let mut k: usize = i + 8;
            let ghost head = out@;
            while k < cs.len()
                invariant
                    i + 8 <= k <= cs.len(),
                    out@ == head + cs@.subrange(i + 8, k as int),
                decreases cs.len() - k,
            {
                push_char(&mut out, cs[k]);
                proof {
                    assert(cs@.subrange(i + 8, k + 1) =~= cs@.subrange(i + 8, k as int).push(cs@[k as int]));
                }
                k += 1;
            }
            proof {
                assert(cs@.subrange(i + 8, cs.len() as int) =~= cs@.skip(i + 8));
                assert(out@ =~= depth_marked(row@, depth as nat));
            }
            out
        },
        None => String::from_str(row),
    }
}

} // verus!
