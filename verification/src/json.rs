//! Compact JSON text for tool results: string literals as serde_json writes
//! them, and objects with their keys in sorted order.

use vstd::prelude::*;
use vstd::string::StringExecFns;
use crate::rows::{join_with, views};

verus! {

/// The lowercase hexadecimal digit for `n` (0 to 15).
pub open spec fn hex_digit(n: nat) -> char {
    if n < 10 {
        ((48 + n) as u8) as char
    } else {
        ((87 + n) as u8) as char
    }
}

/// How one character is written inside a JSON string literal: quote and
/// backslash escaped, the named control escapes, other control characters
/// as `\u00XX`, everything else as is.
pub open spec fn json_escape_char(c: char) -> Seq<char> {
    if c == '"' {
        seq!['\\', '"']
    } else if c == '\\' {
        seq!['\\', '\\']
    } else if c == '\x08' {
        seq!['\\', 'b']
    } else if c == '\t' {
        seq!['\\', 't']
    } else if c == '\n' {
        seq!['\\', 'n']
    } else if c == '\x0c' {
        seq!['\\', 'f']
    } else if c == '\r' {
        seq!['\\', 'r']
    } else if (c as u32) < 0x20 {
        seq!['\\', 'u', '0', '0', hex_digit((c as u32 / 16) as nat), hex_digit((c as u32 % 16) as nat)]
    } else {
        seq![c]
    }
}

/// The escaped contents of a string literal.
pub open spec fn json_escaped(s: Seq<char>) -> Seq<char>
    decreases s.len(),
{
    if s.len() == 0 {
        seq![]
    } else {
        json_escaped(s.drop_last()) + json_escape_char(s.last())
    }
}

/// `s` as a JSON string literal.
pub open spec fn json_quoted(s: Seq<char>) -> Seq<char> {
    seq!['"'] + json_escaped(s) + seq!['"']
}

/// Writes `s` as a JSON string literal.
///
/// Wraps `serde_json::to_string` on a `&str`; its source escapes with the
/// table stated in `json_escape_char` and cannot fail for a string.
#[verifier::external_body]
pub fn json_quote(s: &str) -> (r: String)
    ensures
        r@ == json_quoted(s@),
{
    match serde_json::to_string(s) {
        Ok(text) => text,
        Err(_) => String::new(),
    }
}

/// Appends `s` as a JSON string literal.
pub fn append_quoted(out: &mut String, s: &str)
    ensures
        final(out)@ == old(out)@ + json_quoted(s@),
{
    let q = json_quote(s);
    out.append(q.as_str());
}

/// A list of strings as a JSON array.
pub open spec fn json_string_array(items: Seq<Seq<char>>) -> Seq<char> {
    seq!['['] + join_with(items.map_values(|s: Seq<char>| json_quoted(s)), seq![',']) + seq![']']
}

/// Writes a list of strings as a JSON array.
pub fn string_array(items: &Vec<String>) -> (r: String)
    ensures
        r@ == json_string_array(views(items@)),
{
    let ghost qs = views(items@).map_values(|s: Seq<char>| json_quoted(s));
    let mut body = String::new();
    let mut i: usize = 0;
    proof {
        assert(qs.take(0) =~= Seq::<Seq<char>>::empty());
    }
    while i < items.len()
        invariant
            i <= items.len(),
            qs == views(items@).map_values(|s: Seq<char>| json_quoted(s)),
            body@ == join_with(qs.take(i as int), seq![',']),
        decreases items.len() - i,
    {
        let ghost before = body@;
        proof {
            assert(qs.take(i + 1).drop_last() =~= qs.take(i as int));
            assert(qs.take(i + 1).last() == json_quoted(items@[i as int]@));
        }
        if i > 0 {
            crate::text::push_char(&mut body, ',');
        }
        append_quoted(&mut body, items[i].as_str());
        proof {
            if i == 0 {
                assert(before =~= Seq::<char>::empty());
                assert(body@ =~= qs.take(1)[0]);
            } else {
                assert(body@ =~= join_with(qs.take(i as int), seq![',']) + seq![','] + qs.take(i + 1).last());
            }
        }
        i += 1;
    }
    proof {
        assert(qs.take(items.len() as int) =~= qs);
    }
    let mut out = String::new();
    crate::text::push_char(&mut out, '[');
    out.append(body.as_str());
    crate::text::push_char(&mut out, ']');
    proof {
        assert(out@ =~= json_string_array(views(items@)));
    }
    out
}

} // verus!
