//! The `module_map` listing: one row per file naming its module (the
//! file's directory), the top-level names it declares, and the file.

use vstd::prelude::*;
use vstd::string::StringExecFns;
use crate::error::{ToolError, ToolErrorKind};
use crate::shape::{FileShape, FunctionInfo, TypeInfo, ClassInfo, InterfaceInfo, TraitInfo};
use crate::rows::{row_of, views, format_row, join_with, join_strings};
use crate::sort::{sorted_view, sort_by_view, dedup_runs, dedup_strings};
use crate::suggest::take_at_most;
use crate::paths::{path_parent_of, path_parent};
use crate::graph_rows::{page, opt_nat, page_bounds};
use crate::budget::{Cl100k, budget_choice, budget_with, load_cl100k, join_prefix, joined};
use crate::json::{json_quoted, append_quoted};
use crate::text::{decimal, push_decimal};
use crate::tools::ModuleMap;

verus! {

/// A file of the project with its outline (`None` when its language is
/// unknown or it could not be read or parsed), and its path as shown.
pub struct ModuleFile {
    pub rel: String,
    pub shape: Option<FileShape>,
}

/// The names a file declares at top level: functions, structs, classes,
/// interfaces and traits.
pub open spec fn declared_names(shape: FileShape) -> Seq<Seq<char>> {
    shape.functions@.map_values(|f: FunctionInfo| f.name@)
        + shape.structs@.map_values(|t: TypeInfo| t.name@)
        + shape.classes@.map_values(|c: ClassInfo| c.name@)
        + shape.interfaces@.map_values(|i: InterfaceInfo| i.name@)
        + shape.traits@.map_values(|t: TraitInfo| t.name@)
}

/// The exports shown for a file: its names sorted, without repeats, at
/// most twelve.
pub open spec fn exports_of(shape: FileShape) -> Seq<Seq<char>> {
    take_at_most(dedup_runs(sorted_view::<String>(declared_names(shape))), 12)
}

/// The module of a file: its directory, `.` when it has none.
pub open spec fn module_of(rel: Seq<char>) -> Seq<char> {
    match path_parent_of(rel) {
        Some(p) => if p.len() == 0 { "."@ } else { p },
        None => "."@,
    }
}

/// The row of a file, if it declares anything.
pub open spec fn module_row(f: ModuleFile) -> Option<Seq<char>> {
    match f.shape {
        Some(shape) => {
            let ex = exports_of(shape);
            if ex.len() == 0 {
                None
            } else {
                Some(row_of(seq![module_of(f.rel@), join_with(ex, ", "@), f.rel@]))
            }
        },
        None => None,
    }
}

/// The rows of the first `n` files, in file order.
pub open spec fn module_rows(files: Seq<ModuleFile>, n: int) -> Seq<Seq<char>>
    decreases n,
{
    if n <= 0 || n > files.len() {
        seq![]
    } else {
        module_rows(files, n - 1) + match module_row(files[n - 1]) {
            Some(r) => seq![r],
            None => seq![],
        }
    }
}

/// What the budget measures before the rows.
pub open spec fn modules_pre() -> Seq<char> {
    "{\"h\":\"module|exports|file\",\"modules\":"@
}

/// The answer: header, hint, rows, paging, keys in order.
pub open spec fn modules_json(rows: Seq<char>, truncated: bool, total: nat, offset: nat) -> Seq<char> {
    "{"@ + (if truncated { "\"@\":{\"t\":true},"@ } else { seq![] })
        + "\"h\":\"module|exports|file\",\"hint\":\"internal vs public is heuristic; visibility rules vary by language\",\"modules\":"@
        + json_quoted(rows) + ",\"offset\":"@ + decimal(offset) + ",\"total\":"@ + decimal(total) + "}"@
}

/// The names a file declares, in outline order.
fn names_of(shape: &FileShape) -> (r: Vec<String>)
    ensures
        views(r@) == declared_names(*shape),
{
    let mut out: Vec<String> = Vec::new();
    let mut i: usize = 0;
    while i < shape.functions.len()
        invariant
            i <= shape.functions.len(),
            views(out@) == shape.functions@.take(i as int).map_values(|f: FunctionInfo| f.name@),
        decreases shape.functions.len() - i,
    {
        let ghost before = out@;
        out.push(shape.functions[i].name.clone());
        proof {
            assert(views(out@) =~= views(before).push(shape.functions@[i as int].name@));
            assert(shape.functions@.take(i + 1).map_values(|f: FunctionInfo| f.name@)
                =~= shape.functions@.take(i as int).map_values(|f: FunctionInfo| f.name@).push(shape.functions@[i as int].name@));
        }
        i += 1;
    }
    proof {
        assert(shape.functions@.take(i as int) =~= shape.functions@);
    }
    let ghost a = views(out@);
    let mut j: usize = 0;
    while j < shape.structs.len()
        invariant
            j <= shape.structs.len(),
            views(out@) == a + shape.structs@.take(j as int).map_values(|t: TypeInfo| t.name@),
        decreases shape.structs.len() - j,
    {
        let ghost before = out@;
        out.push(shape.structs[j].name.clone());
        proof {
            assert(views(out@) =~= views(before).push(shape.structs@[j as int].name@));
            assert(shape.structs@.take(j + 1).map_values(|t: TypeInfo| t.name@)
                =~= shape.structs@.take(j as int).map_values(|t: TypeInfo| t.name@).push(shape.structs@[j as int].name@));
        }
        j += 1;
    }
    proof {
        assert(shape.structs@.take(j as int) =~= shape.structs@);
    }
    let ghost b = views(out@);
    let mut k: usize = 0;
    while k < shape.classes.len()
        invariant
            k <= shape.classes.len(),
            views(out@) == b + shape.classes@.take(k as int).map_values(|c: ClassInfo| c.name@),
        decreases shape.classes.len() - k,
    {
        let ghost before = out@;
        out.push(shape.classes[k].name.clone());
        proof {
            assert(views(out@) =~= views(before).push(shape.classes@[k as int].name@));
            assert(shape.classes@.take(k + 1).map_values(|c: ClassInfo| c.name@)
                =~= shape.classes@.take(k as int).map_values(|c: ClassInfo| c.name@).push(shape.classes@[k as int].name@));
        }
        k += 1;
    }
    proof {
        assert(shape.classes@.take(k as int) =~= shape.classes@);
    }
    let ghost c = views(out@);
    let mut m: usize = 0;
    while m < shape.interfaces.len()
        invariant
            m <= shape.interfaces.len(),
            views(out@) == c + shape.interfaces@.take(m as int).map_values(|i: InterfaceInfo| i.name@),
        decreases shape.interfaces.len() - m,
    {
        let ghost before = out@;
        out.push(shape.interfaces[m].name.clone());
        proof {
            assert(views(out@) =~= views(before).push(shape.interfaces@[m as int].name@));
            assert(shape.interfaces@.take(m + 1).map_values(|i: InterfaceInfo| i.name@)
                =~= shape.interfaces@.take(m as int).map_values(|i: InterfaceInfo| i.name@).push(shape.interfaces@[m as int].name@));
        }
        m += 1;
    }
    proof {
        assert(shape.interfaces@.take(m as int) =~= shape.interfaces@);
    }
    let ghost d = views(out@);
    let mut t: usize = 0;
    while t < shape.traits.len()
        invariant
            t <= shape.traits.len(),
            views(out@) == d + shape.traits@.take(t as int).map_values(|x: TraitInfo| x.name@),
        decreases shape.traits.len() - t,
    {
        let ghost before = out@;
        out.push(shape.traits[t].name.clone());
        proof {
            assert(views(out@) =~= views(before).push(shape.traits@[t as int].name@));
            assert(shape.traits@.take(t + 1).map_values(|x: TraitInfo| x.name@)
                =~= shape.traits@.take(t as int).map_values(|x: TraitInfo| x.name@).push(shape.traits@[t as int].name@));
        }
        t += 1;
    }
    proof {
        assert(shape.traits@.take(t as int) =~= shape.traits@);
        assert(views(out@) =~= declared_names(*shape));
    }
    out
}

/// The module of a file.
fn module_name(rel: &str) -> (r: String)
    ensures
        r@ == module_of(rel@),
{
    proof {
        reveal_strlit(".");
    }
    match path_parent(rel) {
        Some(p) => {
            if p.as_str().unicode_len() == 0 {
                String::from_str(".")
            } else {
                p
            }
        },
        None => String::from_str("."),
    }
}

/// The row of one file, if it declares anything.
fn row_for(f: &ModuleFile) -> (r: Option<String>)
    ensures
        match module_row(*f) {
            Some(x) => r matches Some(s) && s@ == x,
            None => r is None,
        },
{
    let shape = match &f.shape {
        Some(s) => s,
        None => {
            return None;
        },
    };
    let names = names_of(shape);
    let sorted = sort_by_view(names);
    let unique = dedup_strings(&sorted);
    if unique.len() == 0 {
        return None;
    }
    let mut shown: Vec<String> = Vec::new();
    let mut i: usize = 0;
    let cap: usize = if unique.len() < 12 { unique.len() } else { 12 };
    while i < cap
        invariant
            i <= cap,
            cap <= unique.len(),
            views(shown@) == views(unique@).take(i as int),
        decreases cap - i,
    {
        let ghost before = shown@;
        shown.push(unique[i].clone());
        proof {
            assert(views(shown@) =~= views(before).push(unique@[i as int]@));
            assert(views(unique@).take(i + 1) =~= views(unique@).take(i as int).push(views(unique@)[i as int]));
        }
        i += 1;
    }
    proof {
        let ex = exports_of(*shape);
        assert(crate::sort::view_seq(sorted@) == views(sorted@)) by {
            assert(crate::sort::view_seq(sorted@) =~= views(sorted@));
        }
        assert(views(shown@) =~= ex);
        reveal_strlit(", ");
    }
    let mut fields: Vec<String> = Vec::new();
    fields.push(module_name(f.rel.as_str()));
    fields.push(join_strings(&shown, ", "));
    fields.push(f.rel.clone());
    proof {
        assert(views(fields@) =~= seq![module_of(f.rel@), join_with(exports_of(*shape), ", "@), f.rel@]);
    }
    Some(format_row(&fields))
}

/// The rows of every file that declares something, in file order.
fn rows_for(files: &Vec<ModuleFile>) -> (r: Vec<String>)
    ensures
        views(r@) == module_rows(files@, files.len() as int),
{
    let mut out: Vec<String> = Vec::new();
    let mut i: usize = 0;
    proof {
        assert(views(out@) =~= module_rows(files@, 0));
    }
    while i < files.len()
        invariant
            i <= files.len(),
            views(out@) == module_rows(files@, i as int),
        decreases files.len() - i,
    {
        let ghost before = out@;
        match row_for(&files[i]) {
            Some(r) => {
                out.push(r);
                proof {
                    assert(views(out@) =~= views(before).push(module_row(files@[i as int])->0));
                }
            },
            None => {},
        }
        proof {
            assert(views(out@) =~= module_rows(files@, i + 1));
        }
        i += 1;
    }
    out
}

/// The rows a request lists: every row sorted, then the page asked for.
pub open spec fn listed_modules(args: ModuleMap, files: Seq<ModuleFile>) -> Seq<Seq<char>> {
    page(sorted_view::<String>(module_rows(files, files.len() as int)),
        match args.offset { Some(o) => o as nat, None => 0 },
        match args.limit { Some(l) => Some(l as nat), None => None })
}

/// The `module_map` answer over the files found under the path: the rows
/// sorted, paged, and trimmed to the token budget when one is given.
pub fn module_map_answer(args: &ModuleMap, files: &Vec<ModuleFile>) -> (r: Result<String, ToolError>)
    ensures
        ({
            let all = sorted_view::<String>(module_rows(files@, files.len() as int));
            let rows = listed_modules(*args, files@);
            let offset: nat = match args.offset { Some(o) => o as nat, None => 0 };
            match args.max_tokens {
                None => r matches Ok(t) && t@ == modules_json(joined(rows, rows.len()), false, all.len(), offset),
                Some(m) => match budget_choice(rows, modules_pre(), modules_pre(), "}"@, m as nat) {
                    Some(kept) => r matches Ok(t) && t@ == modules_json(kept.0, kept.1, all.len(), offset),
                    None => r matches Err(e) && e.kind == ToolErrorKind::Other,
                },
            }
        }),
{
    let rows = rows_for(files);
    let sorted = sort_by_view(rows);
    proof {
        assert(crate::sort::view_seq(sorted@) =~= views(sorted@));
    }
    let total = sorted.len();
    let offset: usize = match args.offset { Some(o) => o as usize, None => 0 };
    let limit: Option<usize> = match args.limit { Some(l) => Some(l as usize), None => None };
    let (lo, hi) = page_bounds::<Seq<char>>(total, offset, limit);
    let mut shown: Vec<String> = Vec::new();
    let mut i: usize = lo;
    while i < hi
        invariant
            lo <= i <= hi,
            hi <= sorted.len(),
            views(shown@) == views(sorted@).subrange(lo as int, i as int),
        decreases hi - i,
    {
        let ghost before = shown@;
        shown.push(sorted[i].clone());
        proof {
            assert(views(shown@) =~= views(before).push(sorted@[i as int]@));
            assert(views(sorted@).subrange(lo as int, i + 1) =~= views(sorted@).subrange(lo as int, i as int).push(views(sorted@)[i as int]));
        }
        i += 1;
    }
    proof {
        assert(page(views(sorted@), offset as nat, opt_nat(limit)) == views(sorted@).subrange(lo as int, hi as int));
    }
    let (text, truncated) = match args.max_tokens {
        None => (join_prefix(&shown, shown.len()), false),
        Some(m) => {
            let tok = match load_cl100k() {
                Ok(t) => t,
                Err(e) => {
                    let mut msg = String::from_str("tokenizer: ");
                    msg.append(e.as_str());
                    proof {
                        reveal_strlit("tokenizer: ");
                        assert(msg@.take(11) =~= "tokenizer: "@);
                    }
                    return Err(ToolError { kind: ToolErrorKind::Other, message: msg });
                },
            };
            match budget_with(&tok, &shown, "{\"h\":\"module|exports|file\",\"modules\":", "{\"h\":\"module|exports|file\",\"modules\":", "}", m as usize) {
                Ok(kept) => kept,
                Err(e) => return Err(ToolError { kind: ToolErrorKind::Other, message: e }),
            }
        },
    };
    let mut out = String::from_str("{");
    if truncated {
        out.append("\"@\":{\"t\":true},");
    }
    out.append("\"h\":\"module|exports|file\",\"hint\":\"internal vs public is heuristic; visibility rules vary by language\",\"modules\":");
    append_quoted(&mut out, text.as_str());
    out.append(",\"offset\":");
    push_decimal(&mut out, offset);
    out.append(",\"total\":");
    push_decimal(&mut out, total);
    out.append("}");
    proof {
        assert(out@ =~= modules_json(text@, truncated, total as nat, offset as nat));
    }
    Ok(out)
}

} // verus!
