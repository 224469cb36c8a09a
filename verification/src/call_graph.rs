//! Best-effort call graph over project-local definitions: target lookup,
//! name resolution, caller attribution and bounded breadth-first traversal.

use vstd::prelude::*;
use vstd::string::StringExecFns;
use crate::error::{ToolError, ToolErrorKind};
use crate::shape::{FileShape, FunctionInfo, MethodInfo};
use crate::text::{first_at, lemma_first_at, lemma_first_at_extend, str_eq};

verus! {

/// Whether two path strings name the same path, as `Path` equality decides
/// (component by component, so `a//b` and `a/b` are equal).
pub uninterp spec fn path_eq(a: Seq<char>, b: Seq<char>) -> bool;

/// Compares two paths.
///
/// Wraps `PartialEq for Path`; the answer depends on the two path texts
/// alone, so the contract names it `path_eq`. `Path` is `Eq`, so a path
/// text equals itself.
#[verifier::external_body]
pub fn same_path(a: &str, b: &str) -> (r: bool)
    ensures
        r == path_eq(a@, b@),
        a@ == b@ ==> r,
{
    std::path::Path::new(a) == std::path::Path::new(b)
}

/// A function or method definition the graph is built over.
pub struct SymbolDef {
    pub name: String,
    /// The file as found on disk.
    pub file: String,
    /// The file as reported in rows (repo-relative).
    pub rel_file: String,
    pub line: usize,
    pub end_line: usize,
    /// The enclosing class, impl type or interface; empty for free functions.
    pub scope: String,
}

/// The plain values of a definition.
pub struct DefView {
    pub name: Seq<char>,
    pub file: Seq<char>,
    pub rel_file: Seq<char>,
    pub line: nat,
    pub end_line: nat,
    pub scope: Seq<char>,
}

impl View for SymbolDef {
    type V = DefView;

    open spec fn view(&self) -> DefView {
        DefView {
            name: self.name@,
            file: self.file@,
            rel_file: self.rel_file@,
            line: self.line as nat,
            end_line: self.end_line as nat,
            scope: self.scope@,
        }
    }
}

/// The views of a list of definitions.
pub open spec fn def_views(s: Seq<SymbolDef>) -> Seq<DefView> {
    s.map_values(|d: SymbolDef| d@)
}

/// A copy of a definition.
pub fn clone_def(d: &SymbolDef) -> (r: SymbolDef)
    ensures
        r@ == d@,
{
    SymbolDef {
        name: d.name.clone(),
        file: d.file.clone(),
        rel_file: d.rel_file.clone(),
        line: d.line,
        end_line: d.end_line,
        scope: d.scope.clone(),
    }
}

/// The definition a function of a file stands for, under `scope`.
pub open spec fn function_def(file: Seq<char>, rel: Seq<char>, f: FunctionInfo, scope: Seq<char>) -> DefView {
    DefView { name: f.name@, file, rel_file: rel, line: f.line as nat, end_line: f.end_line as nat, scope }
}

/// The definition a method of a file stands for, under `scope`.
pub open spec fn method_def(file: Seq<char>, rel: Seq<char>, m: MethodInfo, scope: Seq<char>) -> DefView {
    DefView { name: m.name@, file, rel_file: rel, line: m.line as nat, end_line: m.end_line as nat, scope }
}

/// Definition for a function (or a class or interface method).
fn def_from_function(file: &str, rel: &str, function: &FunctionInfo, scope: &str) -> (d: SymbolDef)
    ensures
        d@ == function_def(file@, rel@, *function, scope@),
{
    SymbolDef {
        name: function.name.clone(),
        file: String::from_str(file),
        rel_file: String::from_str(rel),
        line: function.line,
        end_line: function.end_line,
        scope: String::from_str(scope),
    }
}

/// Definition for a method of an impl block or trait.
fn def_from_method(file: &str, rel: &str, method: &MethodInfo, scope: &str) -> (d: SymbolDef)
    ensures
        d@ == method_def(file@, rel@, *method, scope@),
{
    SymbolDef {
        name: method.name.clone(),
        file: String::from_str(file),
        rel_file: String::from_str(rel),
        line: method.line,
        end_line: method.end_line,
        scope: String::from_str(scope),
    }
}

/// The definitions of functions listed in `fs`, all under `scope`.
pub open spec fn functions_defs(file: Seq<char>, rel: Seq<char>, fs: Seq<FunctionInfo>, scope: Seq<char>) -> Seq<DefView> {
    fs.map_values(|f: FunctionInfo| function_def(file, rel, f, scope))
}

/// The definitions of methods listed in `ms`, all under `scope`.
pub open spec fn methods_defs(file: Seq<char>, rel: Seq<char>, ms: Seq<MethodInfo>, scope: Seq<char>) -> Seq<DefView> {
    ms.map_values(|m: MethodInfo| method_def(file, rel, m, scope))
}

/// Every definition a file outline yields, in the order the outline lists
/// them: free functions, class methods, impl methods, interface methods.
pub open spec fn shape_defs(file: Seq<char>, rel: Seq<char>, shape: FileShape) -> Seq<DefView> {
    functions_defs(file, rel, shape.functions@, Seq::empty())
        + shape.classes@.map_values(|c: crate::shape::ClassInfo| functions_defs(file, rel, c.methods@, c.name@)).flatten_alt()
        + shape.impl_blocks@.map_values(|b: crate::shape::ImplBlockInfo| methods_defs(file, rel, b.methods@, b.target_type@)).flatten_alt()
        + shape.interfaces@.map_values(|i: crate::shape::InterfaceInfo| functions_defs(file, rel, i.methods@, i.name@)).flatten_alt()
}

/// Appends the definitions of `fs` under `scope`.
fn push_function_defs(out: &mut Vec<SymbolDef>, file: &str, rel: &str, fs: &Vec<FunctionInfo>, scope: &str)
    ensures
        def_views(final(out)@) == def_views(old(out)@) + functions_defs(file@, rel@, fs@, scope@),
{
    let ghost start = def_views(out@);
    let mut i: usize = 0;
    while i < fs.len()
        invariant
            i <= fs.len(),
            def_views(out@) == start + functions_defs(file@, rel@, fs@.take(i as int), scope@),
        decreases fs.len() - i,
    {
        let d = def_from_function(file, rel, &fs[i], scope);
        let ghost before = out@;
        out.push(d);
        proof {
            assert(def_views(out@) =~= def_views(before).push(d@));
            assert(fs@.take(i + 1) =~= fs@.take(i as int).push(fs@[i as int]));
        }
        i += 1;
        proof {
            assert(def_views(out@) =~= start + functions_defs(file@, rel@, fs@.take(i as int), scope@));
        }
    }
    proof {
        assert(fs@.take(fs.len() as int) =~= fs@);
    }
}

/// Appends the definitions of `ms` under `scope`.
fn push_method_defs(out: &mut Vec<SymbolDef>, file: &str, rel: &str, ms: &Vec<MethodInfo>, scope: &str)
    ensures
        def_views(final(out)@) == def_views(old(out)@) + methods_defs(file@, rel@, ms@, scope@),
{
    let ghost start = def_views(out@);
    let mut i: usize = 0;
    while i < ms.len()
        invariant
            i <= ms.len(),
            def_views(out@) == start + methods_defs(file@, rel@, ms@.take(i as int), scope@),
        decreases ms.len() - i,
    {
        let d = def_from_method(file, rel, &ms[i], scope);
        let ghost before = out@;
        out.push(d);
        proof {
            assert(def_views(out@) =~= def_views(before).push(d@));
            assert(ms@.take(i + 1) =~= ms@.take(i as int).push(ms@[i as int]));
        }
        i += 1;
        proof {
            assert(def_views(out@) =~= start + methods_defs(file@, rel@, ms@.take(i as int), scope@));
        }
    }
    proof {
        assert(ms@.take(ms.len() as int) =~= ms@);
    }
}

/// All definitions of one file outline.
pub fn definitions_from_shape(file: &str, rel: &str, shape: &FileShape) -> (defs: Vec<SymbolDef>)
    ensures
        def_views(defs@) == shape_defs(file@, rel@, *shape),
{
    let mut out: Vec<SymbolDef> = Vec::new();
    push_function_defs(&mut out, file, rel, &shape.functions, "");
    proof {
        reveal_strlit("");
        assert(""@ =~= Seq::<char>::empty());
    }
    let ghost after_functions = def_views(out@);
    let mut i: usize = 0;
    while i < shape.classes.len()
        invariant
            i <= shape.classes.len(),
            def_views(out@) == after_functions + shape.classes@.take(i as int).map_values(
                |c: crate::shape::ClassInfo| functions_defs(file@, rel@, c.methods@, c.name@)).flatten_alt(),
        decreases shape.classes.len() - i,
    {
        let c = &shape.classes[i];
        push_function_defs(&mut out, file, rel, &c.methods, c.name.as_str());
        proof {
            let f = |c: crate::shape::ClassInfo| functions_defs(file@, rel@, c.methods@, c.name@);
            assert(shape.classes@.take(i + 1).map_values(f).drop_last() =~= shape.classes@.take(i as int).map_values(f));
        }
        i += 1;
    }
    proof {
        assert(shape.classes@.take(shape.classes.len() as int) =~= shape.classes@);
    }
    let ghost after_classes = def_views(out@);
    let mut i: usize = 0;
    while i < shape.impl_blocks.len()
        invariant
            i <= shape.impl_blocks.len(),
            def_views(out@) == after_classes + shape.impl_blocks@.take(i as int).map_values(
                |b: crate::shape::ImplBlockInfo| methods_defs(file@, rel@, b.methods@, b.target_type@)).flatten_alt(),
        decreases shape.impl_blocks.len() - i,
    {
        let b = &shape.impl_blocks[i];
        push_method_defs(&mut out, file, rel, &b.methods, b.target_type.as_str());
        proof {
            let f = |b: crate::shape::ImplBlockInfo| methods_defs(file@, rel@, b.methods@, b.target_type@);
            assert(shape.impl_blocks@.take(i + 1).map_values(f).drop_last() =~= shape.impl_blocks@.take(i as int).map_values(f));
        }
        i += 1;
    }
    proof {
        assert(shape.impl_blocks@.take(shape.impl_blocks.len() as int) =~= shape.impl_blocks@);
    }
    let ghost after_impls = def_views(out@);
    let mut i: usize = 0;
    while i < shape.interfaces.len()
        invariant
            i <= shape.interfaces.len(),
            def_views(out@) == after_impls + shape.interfaces@.take(i as int).map_values(
                |t: crate::shape::InterfaceInfo| functions_defs(file@, rel@, t.methods@, t.name@)).flatten_alt(),
        decreases shape.interfaces.len() - i,
    {
        let t = &shape.interfaces[i];
        push_function_defs(&mut out, file, rel, &t.methods, t.name.as_str());
        proof {
            let f = |t: crate::shape::InterfaceInfo| functions_defs(file@, rel@, t.methods@, t.name@);
            assert(shape.interfaces@.take(i + 1).map_values(f).drop_last() =~= shape.interfaces@.take(i as int).map_values(f));
        }
        i += 1;
    }
    proof {
        assert(shape.interfaces@.take(shape.interfaces.len() as int) =~= shape.interfaces@);
    }
    out
}


/// Index of the definition `find_target_definition` picks: the first named
/// `symbol` whose canonical file is `target`, else the first named `symbol`.
pub open spec fn target_index(defs: Seq<DefView>, canonical: Seq<Seq<char>>, target: Seq<char>, symbol: Seq<char>) -> Option<int> {
    match first_at(defs.len(), named_in(defs, canonical, target, symbol)) {
        Some(i) => Some(i),
        None => first_at(defs.len(), named(defs, symbol)),
    }
}

/// Definition `i` is named `name`.
pub open spec fn named(defs: Seq<DefView>, name: Seq<char>) -> spec_fn(int) -> bool {
    |i: int| defs[i].name == name
}

/// Definition `i` is named `name` and `files[i]` is `file`.
pub open spec fn named_in(defs: Seq<DefView>, files: Seq<Seq<char>>, file: Seq<char>, name: Seq<char>) -> spec_fn(int) -> bool {
    |i: int| defs[i].name == name && path_eq(files[i], file)
}

/// The files of a list of definitions.
pub open spec fn def_files(defs: Seq<DefView>) -> Seq<Seq<char>> {
    defs.map_values(|d: DefView| d.file)
}

/// Index of the definition of `symbol` to start from: preferably one in the target
/// file. `canonical[i]` is the canonical path of `definitions[i].file`, and
/// `target` that of the requested file.
pub fn find_target_index(
    definitions: &Vec<SymbolDef>,
    canonical: &Vec<String>,
    target: &str,
    symbol: &str,
) -> (r: Option<usize>)
    requires
        canonical@.len() == definitions@.len(),
    ensures
        match target_index(def_views(definitions@), crate::rows::views(canonical@), target@, symbol@) {
            Some(i) => r == Some(i as usize),
            None => r is None,
        },
{
    let ghost dv = def_views(definitions@);
    let ghost cv = crate::rows::views(canonical@);
    let ghost p1 = named_in(dv, cv, target@, symbol@);
    let ghost p2 = named(dv, symbol@);
    let mut i: usize = 0;
    while i < definitions.len()
        invariant
            i <= definitions.len(),
            canonical@.len() == definitions@.len(),
            dv == def_views(definitions@),
            cv == crate::rows::views(canonical@),
            p1 == named_in(dv, cv, target@, symbol@),
            first_at(i as nat, p1) is None,
        decreases definitions.len() - i,
    {
        let d = &definitions[i];
        if str_eq(d.name.as_str(), symbol) && same_path(canonical[i].as_str(), target) {
            proof {
                assert(p1(i as int));
                lemma_first_at_extend((i + 1) as nat, dv.len(), p1);
            }
            return Some(i);
        }
        i += 1;
    }
    let mut i: usize = 0;
    while i < definitions.len()
        invariant
            i <= definitions.len(),
            dv == def_views(definitions@),
            cv == crate::rows::views(canonical@),
            p1 == named_in(dv, cv, target@, symbol@),
            p2 == named(dv, symbol@),
            first_at(i as nat, p2) is None,
            first_at(dv.len(), p1) is None,
        decreases definitions.len() - i,
    {
        let d = &definitions[i];
        if str_eq(d.name.as_str(), symbol) {
            proof {
                assert(p2(i as int));
                lemma_first_at_extend((i + 1) as nat, dv.len(), p2);
            }
            return Some(i);
        }
        i += 1;
    }
    None
}

/// The definition of `symbol` to start from: preferably one in the target
/// file. `canonical[i]` is the canonical path of `definitions[i].file`, and
/// `target` that of the requested file.
pub fn find_target_definition(
    definitions: &Vec<SymbolDef>,
    canonical: &Vec<String>,
    target: &str,
    symbol: &str,
) -> (r: Option<SymbolDef>)
    requires
        canonical@.len() == definitions@.len(),
    ensures
        match target_index(def_views(definitions@), crate::rows::views(canonical@), target@, symbol@) {
            Some(i) => r matches Some(d) && d@ == definitions@[i]@,
            None => r is None,
        },
{
    let found = find_target_index(definitions, canonical, target, symbol);
    proof {
        let dv = def_views(definitions@);
        let cv = crate::rows::views(canonical@);
        lemma_first_at(dv.len(), named_in(dv, cv, target@, symbol@));
        lemma_first_at(dv.len(), named(dv, symbol@));
    }
    match found {
        Some(i) => {
            proof {
                let k = target_index(def_views(definitions@), crate::rows::views(canonical@), target@, symbol@)->0;
                assert(0 <= k < definitions.len());
            }
            Some(clone_def(&definitions[i]))
        },
        None => None,
    }
}

/// Index of the definition a call to `name` from `current_file` resolves to:
/// the first of that name in the same file, else the first of that name.
pub open spec fn resolve_index(defs: Seq<DefView>, name: Seq<char>, current_file: Seq<char>) -> Option<int> {
    match first_at(defs.len(), named_in(defs, def_files(defs), current_file, name)) {
        Some(i) => Some(i),
        None => first_at(defs.len(), named(defs, name)),
    }
}

/// Resolves a called name to a definition, preferring the caller's file.
pub fn resolve_index_of(definitions: &Vec<SymbolDef>, name: &str, current_file: &str) -> (r: Option<usize>)
    ensures
        match resolve_index(def_views(definitions@), name@, current_file@) {
            Some(i) => r == Some(i as usize),
            None => r is None,
        },
{
    let ghost dv = def_views(definitions@);
    let ghost p1 = named_in(dv, def_files(dv), current_file@, name@);
    let ghost p2 = named(dv, name@);
    let mut i: usize = 0;
    while i < definitions.len()
        invariant
            i <= definitions.len(),
            dv == def_views(definitions@),
            p1 == named_in(dv, def_files(dv), current_file@, name@),
            first_at(i as nat, p1) is None,
        decreases definitions.len() - i,
    {
        let d = &definitions[i];
        if str_eq(d.name.as_str(), name) && same_path(d.file.as_str(), current_file) {
            proof {
                assert(def_files(dv)[i as int] == d.file@);
                assert(p1(i as int));
                lemma_first_at_extend((i + 1) as nat, dv.len(), p1);
            }
            return Some(i);
        }
        i += 1;
    }
    let mut i: usize = 0;
    while i < definitions.len()
        invariant
            i <= definitions.len(),
            dv == def_views(definitions@),
            p1 == named_in(dv, def_files(dv), current_file@, name@),
            p2 == named(dv, name@),
            first_at(i as nat, p2) is None,
            first_at(dv.len(), p1) is None,
        decreases definitions.len() - i,
    {
        if str_eq(definitions[i].name.as_str(), name) {
            proof {
                assert(p2(i as int));
                lemma_first_at_extend((i + 1) as nat, dv.len(), p2);
            }
            return Some(i);
        }
        i += 1;
    }
    None
}

/// The definition a call to `name` from `current_file` resolves to.
pub fn resolve_definition(definitions: &Vec<SymbolDef>, name: &str, current_file: &str) -> (r: Option<SymbolDef>)
    ensures
        match resolve_index(def_views(definitions@), name@, current_file@) {
            Some(i) => r matches Some(d) && d@ == definitions@[i]@,
            None => r is None,
        },
{
    let found = resolve_index_of(definitions, name, current_file);
    proof {
        let dv = def_views(definitions@);
        lemma_first_at(dv.len(), named_in(dv, def_files(dv), current_file@, name@));
        lemma_first_at(dv.len(), named(dv, name@));
        assert(resolve_index(dv, name@, current_file@) matches Some(k) ==> 0 <= k < definitions@.len());
    }
    match found {
        Some(i) => {
            let d = clone_def(&definitions[i]);
            proof {
                let k = resolve_index(def_views(definitions@), name@, current_file@)->0;
                assert(0 <= k < definitions.len());
            }
            Some(d)
        },
        None => None,
    }
}

/// Index of the definition in `file` whose span contains `line` and starts
/// latest (the last such on ties).
pub open spec fn containing_index(defs: Seq<DefView>, file: Seq<char>, line: nat) -> Option<int>
    decreases defs.len(),
{
    if defs.len() == 0 {
        None
    } else {
        let rest = containing_index(defs.drop_last(), file, line);
        let d = defs.last();
        if path_eq(d.file, file) && d.line <= line && line <= d.end_line && (match rest {
            Some(r) => defs[r].line <= d.line,
            None => true,
        }) {
            Some(defs.len() - 1)
        } else {
            rest
        }
    }
}

/// `containing_index` points into the list.
pub proof fn lemma_containing_index_range(defs: Seq<DefView>, file: Seq<char>, line: nat)
    ensures
        containing_index(defs, file, line) matches Some(i) ==> 0 <= i < defs.len(),
    decreases defs.len(),
{
    if defs.len() > 0 {
        lemma_containing_index_range(defs.drop_last(), file, line);
    }
}

/// The innermost definition of `file` around `line` (the enclosing caller).
pub fn definition_containing_line(definitions: &Vec<SymbolDef>, file: &str, line: usize) -> (r: Option<usize>)
    ensures
        match containing_index(def_views(definitions@), file@, line as nat) {
            Some(i) => r == Some(i as usize),
            None => r is None,
        },
{
    let mut best: Option<usize> = None;
    let mut i: usize = 0;
    while i < definitions.len()
        invariant
            i <= definitions.len(),
            match containing_index(def_views(definitions@.take(i as int)), file@, line as nat) {
                Some(k) => best == Some(k as usize),
                None => best is None,
            },
            best matches Some(b) ==> b < i,
        decreases definitions.len() - i,
    {
        let d = &definitions[i];
        proof {
            let dv = def_views(definitions@.take(i + 1));
            assert(dv.drop_last() =~= def_views(definitions@.take(i as int)));
            assert(dv.last() == d@);
            lemma_containing_index_range(def_views(definitions@.take(i as int)), file@, line as nat);
            if let Some(b) = best {
                assert(dv[b as int] == def_views(definitions@.take(i as int))[b as int]);
            }
        }
        if same_path(d.file.as_str(), file) && d.line <= line && line <= d.end_line {
            let better = match best {
                Some(b) => definitions[b].line <= d.line,
                None => true,
            };
            if better {
                best = Some(i);
            }
        }
        i += 1;
    }
    proof {
        assert(definitions@.take(definitions.len() as int) =~= definitions@);
    }
    best
}

/// Which way the graph is walked.
#[derive(PartialEq, Eq, Structural, Clone, Copy, Debug)]
pub enum Direction {
    Callers,
    Callees,
    Both,
}

/// The direction a `direction` argument names, if any.
pub open spec fn direction_named(value: Seq<char>) -> Option<Direction> {
    if value == "callers"@ {
        Some(Direction::Callers)
    } else if value == "callees"@ {
        Some(Direction::Callees)
    } else if value == "both"@ {
        Some(Direction::Both)
    } else {
        None
    }
}

/// A `direction` argument names callers, callees or both by exactly those
/// words; every other value names none.
pub proof fn law_direction_words(value: Seq<char>)
    ensures
        direction_named("callers"@) == Some(Direction::Callers),
        direction_named("callees"@) == Some(Direction::Callees),
        direction_named("both"@) == Some(Direction::Both),
        value != "callers"@ && value != "callees"@ && value != "both"@ ==> direction_named(value) is None,
{
    reveal_strlit("callers");
    reveal_strlit("callees");
    reveal_strlit("both");
    assert("callees"@[5] != "callers"@[5]);
    assert("both"@.len() != "callers"@.len() && "both"@.len() != "callees"@.len());
}

/// Reads the `direction` argument.
pub fn parse_direction(value: &str) -> (r: Result<Direction, ToolError>)
    ensures
        match direction_named(value@) {
            Some(d) => r == Ok::<Direction, ToolError>(d),
            None => r matches Err(e) && e.kind == ToolErrorKind::InvalidInput
                && e.message@ == "Invalid direction '"@ + value@ + "', expected callers, callees, or both"@,
        },
{
    if str_eq(value, "callers") {
        Ok(Direction::Callers)
    } else if str_eq(value, "callees") {
        Ok(Direction::Callees)
    } else if str_eq(value, "both") {
        Ok(Direction::Both)
    } else {
        let mut msg = String::from_str("Invalid direction '");
        msg.append(value);
        msg.append("', expected callers, callees, or both");
        Err(ToolError { kind: ToolErrorKind::InvalidInput, message: msg })
    }
}

} // verus!
