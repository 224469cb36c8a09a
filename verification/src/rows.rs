//! The compact row encoding every tool answers in: fields joined by `|`,
//! with `\`, newline, carriage return and `|` escaped by a backslash.

use vstd::prelude::*;
use crate::text::{chars_of, push_char};
use vstd::string::StringExecFns;

verus! {

/// The escape sequence that stands for one character inside a field.
pub open spec fn escape_char(c: char) -> Seq<char> {
    if c == '\\' {
        seq!['\\', '\\']
    } else if c == '\n' {
        seq!['\\', 'n']
    } else if c == '\r' {
        seq!['\\', 'r']
    } else if c == '|' {
        seq!['\\', '|']
    } else {
        seq![c]
    }
}

/// A field with every special character escaped.
pub open spec fn escape_field(s: Seq<char>) -> Seq<char>
    decreases s.len(),
{
    if s.len() == 0 {
        seq![]
    } else {
        escape_field(s.drop_last()) + escape_char(s.last())
    }
}

/// The pieces of `parts` joined with `sep` between neighbours.
pub open spec fn join_with(parts: Seq<Seq<char>>, sep: Seq<char>) -> Seq<char>
    decreases parts.len(),
{
    if parts.len() == 0 {
        seq![]
    } else if parts.len() == 1 {
        parts[0]
    } else {
        join_with(parts.drop_last(), sep) + sep + parts.last()
    }
}

/// The escaped form of each field.
pub open spec fn escaped_fields(fields: Seq<Seq<char>>) -> Seq<Seq<char>> {
    fields.map_values(|f: Seq<char>| escape_field(f))
}

/// One row: the escaped fields joined by `|`.
pub open spec fn row_of(fields: Seq<Seq<char>>) -> Seq<char> {
    join_with(escaped_fields(fields), seq!['|'])
}

/// The state of a left-to-right scan of a row.
pub struct RowScan {
    pub fields: Seq<Seq<char>>,
    pub current: Seq<char>,
    pub escaped: bool,
}

/// The scan state before the first character.
pub open spec fn scan_start() -> RowScan {
    RowScan { fields: seq![], current: seq![], escaped: false }
}

/// What an escaped character stands for; an unknown escape keeps its backslash.
pub open spec fn unescape_char(ch: char) -> Seq<char> {
    if ch == 'n' {
        seq!['\n']
    } else if ch == 'r' {
        seq!['\r']
    } else if ch == '|' {
        seq!['|']
    } else if ch == '\\' {
        seq!['\\']
    } else {
        seq!['\\', ch]
    }
}

/// One step of the scan.
pub open spec fn scan_step(st: RowScan, ch: char) -> RowScan {
    if st.escaped {
        RowScan { fields: st.fields, current: st.current + unescape_char(ch), escaped: false }
    } else if ch == '\\' {
        RowScan { fields: st.fields, current: st.current, escaped: true }
    } else if ch == '|' {
        RowScan { fields: st.fields.push(st.current), current: seq![], escaped: false }
    } else {
        RowScan { fields: st.fields, current: st.current.push(ch), escaped: false }
    }
}

/// The scan state after reading all of `s`, starting from `st`.
pub open spec fn scan_from(st: RowScan, s: Seq<char>) -> RowScan
    decreases s.len(),
{
    if s.len() == 0 {
        st
    } else {
        scan_step(scan_from(st, s.drop_last()), s.last())
    }
}

/// The fields a row decodes to; a dangling backslash is kept literally.
pub open spec fn parsed_fields(s: Seq<char>) -> Seq<Seq<char>> {
    let st = scan_from(scan_start(), s);
    let last = if st.escaped {
        st.current.push('\\')
    } else {
        st.current
    };
    st.fields.push(last)
}

/// Scanning a concatenation is scanning its parts in turn.
pub proof fn lemma_scan_concat(st: RowScan, a: Seq<char>, b: Seq<char>)
    ensures
        scan_from(st, a + b) == scan_from(scan_from(st, a), b),
    decreases b.len(),
{
    if b.len() == 0 {
        assert(a + b =~= a);
    } else {
        lemma_scan_concat(st, a, b.drop_last());
        assert((a + b).drop_last() =~= a + b.drop_last());
        assert((a + b).last() == b.last());
    }
}

/// Scanning an escaped field appends the field itself to the current one.
pub proof fn lemma_scan_escaped(st: RowScan, f: Seq<char>)
    requires
        !st.escaped,
    ensures
        scan_from(st, escape_field(f)) == (RowScan {
            fields: st.fields,
            current: st.current + f,
            escaped: false,
        }),
    decreases f.len(),
{
    if f.len() == 0 {
        assert(st.current + f =~= st.current);
    } else {
        let init = f.drop_last();
        let c = f.last();
        lemma_scan_escaped(st, init);
        lemma_scan_concat(st, escape_field(init), escape_char(c));
        let mid = scan_from(st, escape_field(init));
        let e = escape_char(c);
        assert(e.len() >= 1);
        let e1 = e.drop_last();
        if c == '\\' || c == '\n' || c == '\r' || c == '|' {
            assert(e1 =~= seq!['\\']);
            assert(e1.drop_last() =~= Seq::<char>::empty());
            assert(scan_from(mid, e1.drop_last()) == mid);
            assert(scan_from(mid, e1) == scan_step(mid, '\\'));
            assert(unescape_char(e.last()) =~= seq![c]);
        } else {
            assert(e1 =~= Seq::<char>::empty());
            assert(scan_from(mid, e1) == mid);
        }
        assert(scan_from(mid, e) == scan_step(scan_from(mid, e1), e.last()));
        assert(st.current + f =~= (st.current + init).push(c));
        assert((st.current + init) + seq![c] =~= (st.current + init).push(c));
    }
}

/// Scanning the row of `fields` leaves every field but the last completed and
/// the last one current.
pub proof fn lemma_scan_row(fields: Seq<Seq<char>>)
    requires
        fields.len() >= 1,
    ensures
        scan_from(scan_start(), row_of(fields)) == (RowScan {
            fields: fields.drop_last(),
            current: fields.last(),
            escaped: false,
        }),
    decreases fields.len(),
{
    let start = scan_start();
    if fields.len() == 1 {
        assert(escaped_fields(fields)[0] == escape_field(fields[0]));
        lemma_scan_escaped(start, fields[0]);
        assert(start.current + fields[0] =~= fields[0]);
        assert(fields.drop_last() =~= Seq::<Seq<char>>::empty());
    } else {
        let init = fields.drop_last();
        lemma_scan_row(init);
        assert(escaped_fields(fields).drop_last() =~= escaped_fields(init));
        assert(escaped_fields(fields).last() == escape_field(fields.last()));
        let head = row_of(init) + seq!['|'];
        assert(row_of(fields) == head + escape_field(fields.last()));
        lemma_scan_concat(start, head, escape_field(fields.last()));
        lemma_scan_concat(start, row_of(init), seq!['|']);
        assert(seq!['|'].drop_last() =~= Seq::<char>::empty());
        let after_bar = scan_from(start, head);
        let before_bar = scan_from(start, row_of(init));
        assert(scan_from(before_bar, seq!['|']) == scan_step(scan_from(before_bar, Seq::<char>::empty()), '|'));
        assert(after_bar == (RowScan { fields: init, current: seq![], escaped: false })) by {
            assert(init.drop_last().push(init.last()) =~= init);
        }
        lemma_scan_escaped(after_bar, fields.last());
        assert(Seq::<char>::empty() + fields.last() =~= fields.last());
    }
}

/// Decoding a row gives back the fields it was built from.
///
/// Law: for every non-empty list of fields, `parse_compact_row(format_row(fields))`
/// returns exactly `fields` (an empty list encodes as one empty field).
pub proof fn law_row_roundtrip(fields: Seq<Seq<char>>)
    requires
        fields.len() >= 1,
    ensures
        parsed_fields(row_of(fields)) == fields,
{
    lemma_scan_row(fields);
    assert(fields.drop_last().push(fields.last()) =~= fields);
}

/// Appends the escaped form of `field` to `out`.
fn push_escaped(out: &mut String, field: &str)
    ensures
        final(out)@ == old(out)@ + escape_field(field@),
{
    let cs = chars_of(field);
    let mut i: usize = 0;
    while i < cs.len()
        invariant
            i <= cs.len(),
            cs@ == field@,
            out@ == old(out)@ + escape_field(cs@.take(i as int)),
        decreases cs.len() - i,
    {
        let c = cs[i];
        if c == '\\' || c == '\n' || c == '\r' || c == '|' {
            push_char(out, '\\');
            if c == '\\' {
                push_char(out, '\\');
            } else if c == '\n' {
                push_char(out, 'n');
            } else if c == '\r' {
                push_char(out, 'r');
            } else {
                push_char(out, '|');
            }
        } else {
            push_char(out, c);
        }
        proof {
            assert(cs@.take(i + 1).drop_last() =~= cs@.take(i as int));
            assert(cs@.take(i + 1).last() == c);
        }
        i += 1;
        proof {
            assert(out@ =~= old(out)@ + escape_field(cs@.take(i as int)));
        }
    }
    proof {
        assert(cs@.take(cs.len() as int) =~= cs@);
    }
}

/// The views of a list of strings.
pub open spec fn views(v: Seq<String>) -> Seq<Seq<char>> {
    v.map_values(|s: String| s@)
}

/// Encodes `fields` as one compact row.
pub fn format_row(fields: &Vec<String>) -> (row: String)
    ensures
        row@ == row_of(views(fields@)),
{
    let mut out = String::new();
    let mut i: usize = 0;
    while i < fields.len()
        invariant
            i <= fields.len(),
            out@ == row_of(views(fields@.take(i as int))),
        decreases fields.len() - i,
    {
        let ghost before = out@;
        proof {
            let vs = views(fields@.take(i + 1));
            assert(vs.drop_last() =~= views(fields@.take(i as int)));
            assert(escaped_fields(vs).drop_last() =~= escaped_fields(views(fields@.take(i as int))));
            assert(escaped_fields(vs).last() == escape_field(fields@[i as int]@));
            assert(escaped_fields(vs).len() == i + 1);
        }
        if i > 0 {
            push_char(&mut out, '|');
        }
        push_escaped(&mut out, fields[i].as_str());
        proof {
            let vs = views(fields@.take(i + 1));
            if i == 0 {
                assert(before =~= Seq::<char>::empty());
                assert(out@ =~= escaped_fields(vs)[0]);
            } else {
                assert(out@ =~= before + seq!['|'] + escape_field(fields@[i as int]@));
            }
        }
        i += 1;
    }
    proof {
        assert(fields@.take(fields.len() as int) =~= fields@);
    }
    out
}

/// Splits a compact row back into its fields, undoing the escapes.
pub fn parse_compact_row(row: &str) -> (fields: Vec<String>)
    ensures
        views(fields@) == parsed_fields(row@),
{
    let cs = chars_of(row);
    let mut fields: Vec<String> = Vec::new();
    let mut current = String::new();
    let mut escaped = false;
    let mut i: usize = 0;
    proof {
        assert(cs@.take(0) =~= Seq::<char>::empty());
        assert(views(fields@) =~= Seq::<Seq<char>>::empty());
        assert(current@ =~= Seq::<char>::empty());
    }
    while i < cs.len()
        invariant
            i <= cs.len(),
            cs@ == row@,
            scan_from(scan_start(), cs@.take(i as int)) == (RowScan {
                fields: views(fields@),
                current: current@,
                escaped: escaped,
            }),
        decreases cs.len() - i,
    {
        let ch = cs[i];
        proof {
            assert(cs@.take(i + 1).drop_last() =~= cs@.take(i as int));
            assert(cs@.take(i + 1).last() == ch);
        }
        if escaped {
            if ch == 'n' {
                push_char(&mut current, '\n');
            } else if ch == 'r' {
                push_char(&mut current, '\r');
            } else if ch == '|' {
                push_char(&mut current, '|');
            } else if ch == '\\' {
                push_char(&mut current, '\\');
            } else {
                push_char(&mut current, '\\');
                push_char(&mut current, ch);
            }
            escaped = false;
        } else if ch == '\\' {
            escaped = true;
        } else if ch == '|' {
            fields.push(current);
            current = String::new();
            proof {
                assert(views(fields@) =~= views(fields@.drop_last()).push(fields@.last()@));
            }
        } else {
            push_char(&mut current, ch);
        }
        i += 1;
        proof {
            let st = scan_from(scan_start(), cs@.take(i as int));
            assert(st.fields =~= views(fields@));
            assert(st.current =~= current@);
        }
    }
    if escaped {
        push_char(&mut current, '\\');
    }
    fields.push(current);
    proof {
        assert(cs@.take(cs.len() as int) =~= cs@);
        assert(views(fields@) =~= parsed_fields(row@));
    }
    fields
}


/// The strings of `parts` joined with `sep` between neighbours (what
/// `join` on a slice of strings gives).
pub fn join_strings(parts: &Vec<String>, sep: &str) -> (r: String)
    ensures
        r@ == join_with(views(parts@), sep@),
{
    let mut out = String::new();
    let mut i: usize = 0;
    while i < parts.len()
        invariant
            i <= parts.len(),
            out@ == join_with(views(parts@.take(i as int)), sep@),
        decreases parts.len() - i,
    {
        let ghost before = out@;
        proof {
            let vs = views(parts@.take(i + 1));
            assert(vs.drop_last() =~= views(parts@.take(i as int)));
            assert(vs.last() == parts@[i as int]@);
        }
        if i > 0 {
            out.append(sep);
        }
        out.append(parts[i].as_str());
        proof {
            let vs = views(parts@.take(i + 1));
            if i == 0 {
                assert(before =~= Seq::<char>::empty());
                assert(out@ =~= vs[0]);
            }
        }
        i += 1;
    }
    proof {
        assert(parts@.take(parts.len() as int) =~= parts@);
    }
    out
}

} // verus!
