//! The `type_map` listing: type declarations ordered by how often they are
//! used (or by place), filtered by name, paged, and written as rows.

use vstd::prelude::*;
use crate::text::{contains_seq, decimal, decimal_string, seq_lt, str_three_way, str_contains};
use crate::rows::{row_of, views, format_row};
use crate::sort::{ViewOrdered, sorted_view, sort_by_view, view_seq};
use crate::paths::{path_order, compare_paths};
use crate::graph_rows::{page, opt_nat, page_bounds};

verus! {

/// The kinds of type declaration the extractor reports.
#[derive(PartialEq, Eq, Structural, Clone, Copy, Debug)]
pub enum TypeKind {
    Interface,
    Class,
    Struct,
    Enum,
    Trait,
    Protocol,
    TypeAlias,
    Record,
    TypedDict,
    NamedTuple,
}

/// The name a kind is shown by.
pub open spec fn kind_text(k: TypeKind) -> Seq<char> {
    match k {
        TypeKind::Interface => "interface"@,
        TypeKind::Class => "class"@,
        TypeKind::Struct => "struct"@,
        TypeKind::Enum => "enum"@,
        TypeKind::Trait => "trait"@,
        TypeKind::Protocol => "protocol"@,
        TypeKind::TypeAlias => "type_alias"@,
        TypeKind::Record => "record"@,
        TypeKind::TypedDict => "typed_dict"@,
        TypeKind::NamedTuple => "named_tuple"@,
    }
}

/// The name a kind is shown by.
pub fn type_kind_str(k: TypeKind) -> (r: &'static str)
    ensures
        r@ == kind_text(k),
{
    proof {
        reveal_strlit("interface");
        reveal_strlit("class");
        reveal_strlit("struct");
        reveal_strlit("enum");
        reveal_strlit("trait");
        reveal_strlit("protocol");
        reveal_strlit("type_alias");
        reveal_strlit("record");
        reveal_strlit("typed_dict");
        reveal_strlit("named_tuple");
    }
    match k {
        TypeKind::Interface => "interface",
        TypeKind::Class => "class",
        TypeKind::Struct => "struct",
        TypeKind::Enum => "enum",
        TypeKind::Trait => "trait",
        TypeKind::Protocol => "protocol",
        TypeKind::TypeAlias => "type_alias",
        TypeKind::Record => "record",
        TypeKind::TypedDict => "typed_dict",
        TypeKind::NamedTuple => "named_tuple",
    }
}

/// A pattern is a file glob (not a name filter) when it holds any of
/// `*`, `?`, `[`, `{` or `/`.
pub open spec fn glob_like(p: Seq<char>) -> bool {
    p.contains('*') || p.contains('?') || p.contains('[') || p.contains('{') || p.contains('/')
}

/// Whether `s` holds the character `c`.
fn has_char(s: &str, c: char) -> (b: bool)
    ensures
        b == s@.contains(c),
{
    let cs = crate::text::chars_of(s);
    let mut i: usize = 0;
    while i < cs.len()
        invariant
            i <= cs.len(),
            cs@ == s@,
            forall|k: int| 0 <= k < i ==> cs@[k] != c,
        decreases cs.len() - i,
    {
        if cs[i] == c {
            return true;
        }
        i += 1;
    }
    false
}

/// Whether a `pattern` argument is a file glob.
pub fn looks_like_glob(pattern: &str) -> (b: bool)
    ensures
        b == glob_like(pattern@),
{
    has_char(pattern, '*') || has_char(pattern, '?') || has_char(pattern, '[') || has_char(pattern, '{')
        || has_char(pattern, '/')
}

/// A type declaration found in the project.
pub struct TypeDefinition {
    pub name: String,
    pub kind: TypeKind,
    /// The file as found, and as shown in rows.
    pub file: String,
    pub rel: String,
    pub line: usize,
    pub usage_count: usize,
}

/// A type declaration as plain values.
pub struct TypeView {
    pub name: Seq<char>,
    pub kind: TypeKind,
    pub file: Seq<char>,
    pub rel: Seq<char>,
    pub line: nat,
    pub usage_count: nat,
}

impl View for TypeDefinition {
    type V = TypeView;

    open spec fn view(&self) -> TypeView {
        TypeView {
            name: self.name@,
            kind: self.kind,
            file: self.file@,
            rel: self.rel@,
            line: self.line as nat,
            usage_count: self.usage_count as nat,
        }
    }
}

/// The row of a type: name, kind, file, line and usage count.
pub open spec fn type_fields(t: TypeView) -> Seq<Seq<char>> {
    seq![t.name, kind_text(t.kind), t.rel, decimal(t.line), decimal(t.usage_count)]
}

/// The row of one type.
pub fn type_to_row(t: &TypeDefinition) -> (r: String)
    ensures
        r@ == row_of(type_fields(t@)),
{
    let mut fields: Vec<String> = Vec::new();
    fields.push(t.name.clone());
    fields.push(String::from_str(type_kind_str(t.kind)));
    fields.push(t.rel.clone());
    fields.push(decimal_string(t.line));
    fields.push(decimal_string(t.usage_count));
    proof {
        assert(views(fields@) =~= type_fields(t@));
    }
    format_row(&fields)
}

/// A type under the order a listing asks for.
pub struct TypeKey {
    pub by_usage: bool,
    pub t: TypeDefinition,
}

impl View for TypeKey {
    type V = (bool, TypeView);

    open spec fn view(&self) -> (bool, TypeView) {
        (self.by_usage, self.t@)
    }
}

impl ViewOrdered for TypeKey {
    /// By usage count (most first), name, file and line; or, when usages
    /// are not counted, by file and line.
    open spec fn view_before(a: (bool, TypeView), b: (bool, TypeView)) -> bool {
        let (x, y) = (a.1, b.1);
        if a.0 {
            if x.usage_count != y.usage_count {
                x.usage_count > y.usage_count
            } else if x.name != y.name {
                seq_lt(x.name, y.name)
            } else if path_order(x.file, y.file) != 0 {
                path_order(x.file, y.file) < 0
            } else {
                x.line < y.line
            }
        } else if path_order(x.file, y.file) != 0 {
            path_order(x.file, y.file) < 0
        } else {
            x.line < y.line
        }
    }

    fn is_before(&self, other: &Self) -> (r: bool) {
        proof {
            crate::text::lemma_seq_lt_total(self.t.name@, other.t.name@);
        }
        let (x, y) = (&self.t, &other.t);
        if self.by_usage {
            if x.usage_count != y.usage_count {
                return x.usage_count > y.usage_count;
            }
            let n = str_three_way(x.name.as_str(), y.name.as_str());
            if n != 0 {
                return n < 0;
            }
        }
        let f = compare_paths(x.file.as_str(), y.file.as_str());
        if f != 0 {
            return f < 0;
        }
        x.line < y.line
    }
}

/// The types in listing order.
pub open spec fn sorted_types(types: Seq<TypeView>, by_usage: bool) -> Seq<TypeView> {
    sorted_view::<TypeKey>(types.map_values(|t: TypeView| (by_usage, t))).map_values(|k: (bool, TypeView)| k.1)
}

/// The types whose name holds `filter`.
pub open spec fn named_like(types: Seq<TypeView>, filter: Seq<char>) -> Seq<TypeView>
    decreases types.len(),
{
    if types.len() == 0 {
        seq![]
    } else {
        named_like(types.drop_last(), filter) + if contains_seq(types.last().name, filter) {
            seq![types.last()]
        } else {
            seq![]
        }
    }
}

/// The listing before paging: sorted, then filtered by name when asked.
pub open spec fn listed_types(types: Seq<TypeView>, by_usage: bool, filter: Option<Seq<char>>) -> Seq<TypeView> {
    let s = sorted_types(types, by_usage);
    match filter {
        Some(f) => named_like(s, f),
        None => s,
    }
}

/// The listing: the page of types asked for, and how many there were
/// before paging.
pub fn select_types(types: Vec<TypeDefinition>, by_usage: bool, filter: Option<&str>, offset: usize, limit: Option<usize>) -> (r: (Vec<TypeDefinition>, usize))
    ensures
        ({
            let all = listed_types(view_seq(types@), by_usage, match filter { Some(f) => Some(f@), None => None });
            &&& view_seq(r.0@) == page(all, offset as nat, opt_nat(limit))
            &&& r.1 as nat == all.len()
        }),
{
    let ghost tv = view_seq(types@);
    let mut rest = types;
    let mut keys: Vec<TypeKey> = Vec::new();
    let mut i: usize = 0;
    let n = rest.len();
    proof {
        assert(rest@ =~= types@.skip(0));
        assert(view_seq(keys@) =~= tv.take(0).map_values(|t: TypeView| (by_usage, t)));
    }
    while rest.len() > 0
        invariant
            i <= n,
            n == types.len(),
            tv == view_seq(types@),
            rest@ == types@.skip(i as int),
            view_seq(keys@) == tv.take(i as int).map_values(|t: TypeView| (by_usage, t)),
        decreases rest.len(),
    {
        let t = rest.remove(0);
        let ghost before = keys@;
        keys.push(TypeKey { by_usage, t });
        proof {
            assert(t == types@[i as int]);
            assert(view_seq(keys@) =~= view_seq(before).push((by_usage, t@)));
            assert(tv.take(i + 1).map_values(|t: TypeView| (by_usage, t)) =~= tv.take(i as int).map_values(|t: TypeView| (by_usage, t)).push((by_usage, tv[i as int])));
        }
        i += 1;
        proof {
            assert(rest@ =~= types@.skip(i as int));
        }
    }
    proof {
        assert(tv.take(i as int) =~= tv);
    }
    let mut sorted = sort_by_view(keys);
    let ghost sv = view_seq(sorted@);
    let ghost want = listed_types(tv, by_usage, match filter { Some(f) => Some(f@), None => None });
    let mut kept: Vec<TypeDefinition> = Vec::new();
    let m = sorted.len();
    let mut j: usize = 0;
    proof {
        assert(sorted@ =~= sorted@.skip(0));
        assert(sv.take(0).map_values(|k: (bool, TypeView)| k.1) =~= Seq::<TypeView>::empty());
        assert(named_like(Seq::<TypeView>::empty(), seq![]) =~= Seq::<TypeView>::empty());
    }
    let ghost so = sorted@;
    while sorted.len() > 0
        invariant
            j <= m,
            m == so.len(),
            sv == view_seq(so),
            sorted@ == so.skip(j as int),
            view_seq(kept@) == (match filter {
                Some(f) => named_like(sv.take(j as int).map_values(|k: (bool, TypeView)| k.1), f@),
                None => sv.take(j as int).map_values(|k: (bool, TypeView)| k.1),
            }),
        decreases sorted.len(),
    {
        let k = sorted.remove(0);
        let ghost pre = sv.take(j as int).map_values(|k: (bool, TypeView)| k.1);
        let ghost now = sv.take(j + 1).map_values(|k: (bool, TypeView)| k.1);
        proof {
            assert(k == so[j as int]);
            assert(now.drop_last() =~= pre);
            assert(now.last() == k.t@);
        }
        let keep = match filter {
            Some(f) => str_contains(k.t.name.as_str(), f),
            None => true,
        };
        let ghost before = kept@;
        if keep {
            kept.push(k.t);
            proof {
                assert(view_seq(kept@) =~= view_seq(before).push(now.last()));
            }
        }
        proof {
            match filter {
                Some(f) => {
                    assert(named_like(now, f@) == named_like(pre, f@) + if contains_seq(now.last().name, f@) {
                        seq![now.last()]
                    } else {
                        seq![]
                    });
                    if !keep {
                        assert(named_like(now, f@) =~= named_like(pre, f@));
                    }
                },
                None => {},
            }
        }
        j += 1;
        proof {
            assert(sorted@ =~= so.skip(j as int));
        }
    }
    proof {
        assert(sv.take(j as int) =~= sv);
    }
    let total = kept.len();
    let (lo, hi) = page_bounds::<TypeView>(total, offset, limit);
    let mut out: Vec<TypeDefinition> = Vec::new();
    let mut idx: usize = 0;
    let ghost kv = view_seq(kept@);
    let ghost ko = kept@;
    proof {
        assert(view_seq(out@) =~= kv.subrange(lo as int, lo as int));
    }
    while kept.len() > 0
        invariant
            idx <= total,
            total == ko.len(),
            kv == view_seq(ko),
            kept@ == ko.skip(idx as int),
            lo <= hi <= total,
            view_seq(out@) == kv.subrange(lo as int, if idx < lo { lo as int } else if idx > hi { hi as int } else { idx as int }),
        decreases kept.len(),
    {
        let t = kept.remove(0);
        proof {
            assert(t == ko[idx as int]);
        }
        if lo <= idx && idx < hi {
            let ghost before = out@;
            out.push(t);
            proof {
                assert(view_seq(out@) =~= view_seq(before).push(kv[idx as int]));
                assert(kv.subrange(lo as int, idx + 1) =~= kv.subrange(lo as int, idx as int).push(kv[idx as int]));
            }
        }
        idx += 1;
        proof {
            assert(kept@ =~= ko.skip(idx as int));
        }
    }
    (out, total)
}

} // verus!
