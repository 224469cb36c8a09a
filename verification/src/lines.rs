//! Line splitting, whitespace and number reading as `str` does them.

use vstd::prelude::*;
use crate::text::{push_char, chars_of, string_from_chars};

verus! {

/// Unicode `White_Space`, the set `char::is_whitespace` tests.
pub open spec fn is_ws(c: char) -> bool {
    ('\u{9}' <= c && c <= '\u{d}') || c == ' ' || c == '\u{85}' || c == '\u{a0}' || c == '\u{1680}'
        || ('\u{2000}' <= c && c <= '\u{200a}') || c == '\u{2028}' || c == '\u{2029}' || c == '\u{202f}'
        || c == '\u{205f}' || c == '\u{3000}'
}

/// Whether `c` is whitespace.
pub fn is_whitespace(c: char) -> (b: bool)
    ensures
        b == is_ws(c),
{
    ('\u{9}' <= c && c <= '\u{d}') || c == ' ' || c == '\u{85}' || c == '\u{a0}' || c == '\u{1680}'
        || ('\u{2000}' <= c && c <= '\u{200a}') || c == '\u{2028}' || c == '\u{2029}' || c == '\u{202f}'
        || c == '\u{205f}' || c == '\u{3000}'
}

/// `s` without whitespace characters.
pub open spec fn strip_ws(s: Seq<char>) -> Seq<char>
    decreases s.len(),
{
    if s.len() == 0 {
        seq![]
    } else if is_ws(s.last()) {
        strip_ws(s.drop_last())
    } else {
        strip_ws(s.drop_last()).push(s.last())
    }
}

/// Removes every whitespace character.
pub fn remove_whitespace(s: &str) -> (r: String)
    ensures
        r@ == strip_ws(s@),
{
    let cs = chars_of(s);
    let mut out = String::new();
    let mut i: usize = 0;
    while i < cs.len()
        invariant
            i <= cs.len(),
            cs@ == s@,
            out@ == strip_ws(cs@.take(i as int)),
        decreases cs.len() - i,
    {
        let c = cs[i];
        proof {
            assert(cs@.take(i + 1).drop_last() =~= cs@.take(i as int));
            assert(cs@.take(i + 1).last() == c);
        }
        if !is_whitespace(c) {
            push_char(&mut out, c);
        }
        i += 1;
    }
    proof {
        assert(cs@.take(cs.len() as int) =~= cs@);
    }
    out
}

/// `s` without its leading whitespace (`str::trim_start`).
pub open spec fn trim_start(s: Seq<char>) -> Seq<char>
    decreases s.len(),
{
    if s.len() > 0 && is_ws(s[0]) {
        trim_start(s.drop_first())
    } else {
        s
    }
}

/// `s` without its trailing whitespace (`str::trim_end`).
pub open spec fn trim_end(s: Seq<char>) -> Seq<char>
    decreases s.len(),
{
    if s.len() > 0 && is_ws(s.last()) {
        trim_end(s.drop_last())
    } else {
        s
    }
}

/// `s` with leading and trailing whitespace removed (`str::trim`).
pub open spec fn trimmed(s: Seq<char>) -> Seq<char> {
    trim_end(trim_start(s))
}

/// Trims whitespace from both ends.
pub fn trim(s: &str) -> (r: String)
    ensures
        r@ == trimmed(s@),
{
    let cs = chars_of(s);
    let ghost v = cs@;
    let mut a: usize = 0;
    proof {
        assert(v.skip(0) =~= v);
    }
    while a < cs.len() && is_whitespace(cs[a])
        invariant
            a <= cs.len(),
            v == cs@,
            trim_start(v) == trim_start(v.skip(a as int)),
        decreases cs.len() - a,
    {
        proof {
            assert(v.skip(a as int).drop_first() =~= v.skip(a + 1));
            assert(v.skip(a as int)[0] == v[a as int]);
        }
        a += 1;
    }
    proof {
        if a < cs.len() {
            assert(v.skip(a as int)[0] == v[a as int]);
        } else {
            assert(v.skip(a as int) =~= Seq::<char>::empty());
        }
        assert(trim_start(v) == v.skip(a as int));
        assert(v.skip(a as int) =~= v.subrange(a as int, cs.len() as int));
    }
    let mut b: usize = cs.len();
    while b > a && is_whitespace(cs[b - 1])
        invariant
            a <= b <= cs.len(),
            v == cs@,
            trim_end(v.subrange(a as int, cs.len() as int)) == trim_end(v.subrange(a as int, b as int)),
        decreases b,
    {
        proof {
            assert(v.subrange(a as int, b as int).drop_last() =~= v.subrange(a as int, b - 1));
            assert(v.subrange(a as int, b as int).last() == v[b - 1]);
        }
        b -= 1;
    }
    proof {
        if b > a {
            assert(v.subrange(a as int, b as int).last() == v[b - 1]);
        } else {
            assert(v.subrange(a as int, b as int) =~= Seq::<char>::empty());
        }
    }
    let mut out = String::new();
    let mut i: usize = a;
    while i < b
        invariant
            a <= i <= b,
            b <= cs.len(),
            v == cs@,
            out@ == v.subrange(a as int, i as int),
        decreases b - i,
    {
        push_char(&mut out, cs[i]);
        proof {
            assert(v.subrange(a as int, i + 1) =~= v.subrange(a as int, i as int).push(v[i as int]));
        }
        i += 1;
    }
    out
}

/// `s` with a final `c` removed, if it ends in one.
pub open spec fn strip_last(s: Seq<char>, c: char) -> Seq<char> {
    if s.len() > 0 && s.last() == c { s.drop_last() } else { s }
}

/// The lines of `s` as `str::lines` gives them: split after each newline,
/// the newline dropped and then a carriage return before it; no empty line
/// after a final newline.
pub open spec fn lines_of(s: Seq<char>) -> Seq<Seq<char>>
    decreases s.len(),
{
    if s.len() == 0 {
        seq![]
    } else {
        match crate::text::first_at(s.len(), |k: int| s[k] == '\n') {
            Some(i) => if 0 <= i < s.len() {
                seq![strip_last(s.take(i), '\r')] + lines_of(s.skip(i + 1))
            } else {
                seq![]
            },
            None => seq![s],
        }
    }
}

/// The lines of `s`.
pub fn split_lines(s: &str) -> (r: Vec<String>)
    ensures
        crate::rows::views(r@) == lines_of(s@),
{
    let cs = chars_of(s);
    let ghost v = cs@;
    let mut out: Vec<String> = Vec::new();
    let mut start: usize = 0;
    let mut i: usize = 0;
    proof {
        assert(v.skip(0) =~= v);
    }
    while i < cs.len()
        invariant
            start <= i <= cs.len(),
            v == cs@,
            v == s@,
            forall|k: int| start <= k < i ==> v[k] != '\n',
            crate::rows::views(out@) + lines_of(v.skip(start as int)) == lines_of(v),
        decreases cs.len() - i,
    {
        if cs[i] == '\n' {
            let ghost rest = v.skip(start as int);
            let ghost p = |k: int| rest[k] == '\n';
            proof {
                assert(p((i - start) as int));
                assert forall|k: int| 0 <= k < i - start implies !#[trigger] p(k) by {
                    assert(rest[k] == v[start + k]);
                }
                crate::text::lemma_first_at(rest.len(), p);
                let f = crate::text::first_at(rest.len(), p);
                if let Some(j) = f {
                    assert(j == i - start);
                }
                assert(rest.take(i - start) =~= v.subrange(start as int, i as int));
                assert(rest.skip(i - start + 1) =~= v.skip(i + 1));
            }
            let mut line = String::new();
            let mut k: usize = start;
            let end = if i > start && cs[i - 1] == '\r' { i - 1 } else { i };
            while k < end
                invariant
                    start <= k <= end,
                    end <= i < cs.len(),
                    v == cs@,
                    line@ == v.subrange(start as int, k as int),
                decreases end - k,
            {
                push_char(&mut line, cs[k]);
                proof {
                    assert(v.subrange(start as int, k + 1) =~= v.subrange(start as int, k as int).push(v[k as int]));
                }
                k += 1;
            }
            let ghost before = crate::rows::views(out@);
            proof {
                assert(line@ =~= strip_last(v.subrange(start as int, i as int), '\r'));
            }
            out.push(line);
            proof {
                assert(crate::rows::views(out@) =~= before.push(line@));
                assert(crate::rows::views(out@) + lines_of(v.skip(i + 1)) =~= before + lines_of(rest));
            }
            start = i + 1;
        }
        i += 1;
    }
    let ghost rest = v.skip(start as int);
    if start < cs.len() {
        proof {
            let p = |k: int| rest[k] == '\n';
            crate::text::lemma_first_at(rest.len(), p);
            assert(rest =~= v.subrange(start as int, cs.len() as int));
        }
        let mut line = String::new();
        let mut k: usize = start;
        while k < cs.len()
            invariant
                start <= k <= cs.len(),
                v == cs@,
                line@ == v.subrange(start as int, k as int),
            decreases cs.len() - k,
        {
            push_char(&mut line, cs[k]);
            proof {
                assert(v.subrange(start as int, k + 1) =~= v.subrange(start as int, k as int).push(v[k as int]));
            }
            k += 1;
        }
        let ghost before = crate::rows::views(out@);
        out.push(line);
        proof {
            assert(crate::rows::views(out@) =~= before.push(line@));
            assert(lines_of(rest) =~= seq![rest]);
        }
    } else {
        proof {
            assert(rest =~= Seq::<char>::empty());
            assert(crate::rows::views(out@) + lines_of(rest) =~= crate::rows::views(out@));
        }
    }
    out
}

/// The value of a decimal digit character.
pub open spec fn digit_of(c: char) -> Option<nat> {
    if '0' <= c && c <= '9' { Some((c as u32 - 48) as nat) } else { None }
}

/// The number the digits of `s` spell, if all are digits.
pub open spec fn digits_value(s: Seq<char>) -> Option<nat>
    decreases s.len(),
{
    if s.len() == 0 {
        Some(0)
    } else {
        match (digits_value(s.drop_last()), digit_of(s.last())) {
            (Some(v), Some(d)) => Some(10 * v + d),
            _ => None,
        }
    }
}

/// What `str::parse::<usize>` gives: an optional `+` and at least one digit,
/// the value fitting in `usize`.
pub open spec fn parse_usize_spec(s: Seq<char>) -> Option<nat> {
    let body = if s.len() > 0 && s[0] == '+' { s.drop_first() } else { s };
    if body.len() == 0 {
        None
    } else {
        match digits_value(body) {
            Some(v) => if v <= usize::MAX { Some(v) } else { None },
            None => None,
        }
    }
}

/// Parses a decimal `usize`.
pub fn parse_usize(s: &str) -> (r: Option<usize>)
    ensures
        match parse_usize_spec(s@) {
            Some(v) => r == Some(v as usize),
            None => r is None,
        },
{
    let cs = chars_of(s);
    let ghost v = cs@;
    let start: usize = if cs.len() > 0 && cs[0] == '+' { 1 } else { 0 };
    let ghost body = if v.len() > 0 && v[0] == '+' { v.drop_first() } else { v };
    proof {
        assert(body =~= v.skip(start as int));
    }
    if start == cs.len() {
        return None;
    }
    let mut value: usize = 0;
    let mut i: usize = start;
    while i < cs.len()
        invariant
            start <= i <= cs.len(),
            v == cs@,
            v == s@,
            body == (if v.len() > 0 && v[0] == '+' { v.drop_first() } else { v }),
            body == v.skip(start as int),
            digits_value(body.take(i - start)) == Some(value as nat),
        decreases cs.len() - i,
    {
        let c = cs[i];
        proof {
            assert(body.take(i - start + 1).drop_last() =~= body.take(i - start));
            assert(body.take(i - start + 1).last() == c);
        }
        if !('0' <= c && c <= '9') {
            proof {
                assert(digit_of(c) is None);
                assert(digits_value(body.take(i - start + 1)) is None);
                lemma_digits_none_extends(body, (i - start + 1) as int);
            }
            return None;
        }
        let d = (c as u32 - 48) as usize;
        if value > (usize::MAX - d) / 10 {
            proof {
                assert(10 * value + d > usize::MAX) by (nonlinear_arith)
                    requires value > (usize::MAX - d) / 10, d <= 9;
                assert(digit_of(c) == Some(d as nat));
                assert(digits_value(body.take(i - start + 1)) == Some((10 * value + d) as nat));
                lemma_digits_grow(body, (i - start + 1) as int);
            }
            return None;
        }
        proof {
            assert(10 * value + d <= usize::MAX) by (nonlinear_arith)
                requires value <= (usize::MAX - d) / 10, d <= 9;
        }
        value = 10 * value + d;
        i += 1;
    }
    proof {
        assert(body.take(cs.len() - start) =~= body);
    }
    Some(value)
}

/// A non-digit in a prefix makes the whole sequence fail to read.
pub proof fn lemma_digits_none_extends(s: Seq<char>, n: int)
    requires
        0 <= n <= s.len(),
        digits_value(s.take(n)) is None,
    ensures
        digits_value(s) is None,
    decreases s.len() - n,
{
    if n < s.len() {
        assert(s.take(n + 1).drop_last() =~= s.take(n));
        lemma_digits_none_extends(s, n + 1);
    } else {
        assert(s.take(n) =~= s);
    }
}

/// Reading more digits never shrinks the value.
pub proof fn lemma_digits_grow(s: Seq<char>, n: int)
    requires
        0 <= n <= s.len(),
    ensures
        digits_value(s.take(n)) matches Some(a) ==> (digits_value(s) matches Some(b) ==> a <= b),
    decreases s.len() - n,
{
    if n < s.len() {
        assert(s.take(n + 1).drop_last() =~= s.take(n));
        lemma_digits_grow(s, n + 1);
        if digits_value(s.take(n + 1)) is None {
            lemma_digits_none_extends(s, n + 1);
        }
    } else {
        assert(s.take(n) =~= s);
    }
}

} // verus!
