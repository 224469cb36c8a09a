//! The persistent symbol index: definitions per file, reused while a file's
//! modification time and size are unchanged, refreshed otherwise, and
//! dropped for files that no longer exist.

use vstd::prelude::*;
use vstd::string::StringExecFns;
use crate::shape::FileShape;
use crate::call_graph::{SymbolDef, DefView, def_views, shape_defs, definitions_from_shape};
use crate::text::{str_eq, first_at, lemma_first_at, lemma_first_at_extend};
use crate::sort::view_seq;

verus! {

/// The index file's name under the project root.
pub const INDEX_FILE: &'static str = ".treesitter-mcp-index.json";

/// The index format version.
pub const INDEX_VERSION: u32 = 1;

/// The path a `Path::join` gives for `base` and `name`.
pub uninterp spec fn joined_path(base: Seq<char>, name: Seq<char>) -> Seq<char>;

/// Joins a path and a name.
///
/// Wraps `Path::join`; the result depends on the two texts alone, so the
/// contract names it `joined_path`. A path built from `&str` parts is
/// valid UTF-8, so it converts back without loss.
#[verifier::external_body]
fn join_path(base: &str, name: &str) -> (r: String)
    ensures
        r@ == joined_path(base@, name@),
{
    std::path::Path::new(base).join(name).to_string_lossy().into_owned()
}

/// Where the index of a project root is kept.
pub fn index_path(root: &str) -> (r: String)
    ensures
        r@ == joined_path(root@, INDEX_FILE@),
{
    join_path(root, INDEX_FILE)
}

/// One indexed definition, with its repo-relative file.
pub struct IndexedDef {
    pub name: String,
    pub file: String,
    pub line: usize,
    pub end_line: usize,
    pub scope: String,
}

/// The plain values of an indexed definition.
pub struct IndexedView {
    pub name: Seq<char>,
    pub file: Seq<char>,
    pub line: nat,
    pub end_line: nat,
    pub scope: Seq<char>,
}

impl View for IndexedDef {
    type V = IndexedView;

    open spec fn view(&self) -> IndexedView {
        IndexedView { name: self.name@, file: self.file@, line: self.line as nat, end_line: self.end_line as nat, scope: self.scope@ }
    }
}

/// The indexed form of a definition.
pub open spec fn indexed_of(d: DefView) -> IndexedView {
    IndexedView { name: d.name, file: d.rel_file, line: d.line, end_line: d.end_line, scope: d.scope }
}

/// The definitions of a file outline (none when the file did not parse):
/// functions, class methods, impl methods and interface methods.
pub open spec fn file_defs(shape: Option<FileShape>, rel: Seq<char>) -> Seq<IndexedView> {
    match shape {
        Some(s) => shape_defs(rel, rel, s).map_values(|d: DefView| indexed_of(d)),
        None => seq![],
    }
}

/// A copy of an indexed definition.
pub fn clone_indexed(d: &IndexedDef) -> (r: IndexedDef)
    ensures
        r@ == d@,
{
    IndexedDef { name: d.name.clone(), file: d.file.clone(), line: d.line, end_line: d.end_line, scope: d.scope.clone() }
}

/// The definitions of one file for the index.
pub fn defs_for_file(shape: Option<&FileShape>, rel: &str) -> (r: Vec<IndexedDef>)
    ensures
        view_seq(r@) == file_defs(match shape { Some(s) => Some(*s), None => None }, rel@),
{
    let mut out: Vec<IndexedDef> = Vec::new();
    match shape {
        Some(s) => {
            let defs = definitions_from_shape(rel, rel, s);
            let ghost dv = def_views(defs@);
            let mut i: usize = 0;
            while i < defs.len()
                invariant
                    i <= defs.len(),
                    dv == def_views(defs@),
                    view_seq(out@) == dv.take(i as int).map_values(|d: DefView| indexed_of(d)),
                decreases defs.len() - i,
            {
                let d = &defs[i];
                let ghost before = view_seq(out@);
                out.push(IndexedDef {
                    name: d.name.clone(),
                    file: d.rel_file.clone(),
                    line: d.line,
                    end_line: d.end_line,
                    scope: d.scope.clone(),
                });
                proof {
                    assert(dv.take(i + 1) =~= dv.take(i as int).push(d@));
                    assert(view_seq(out@) =~= before.push(indexed_of(d@)));
                }
                i += 1;
            }
            proof {
                assert(dv.take(defs.len() as int) =~= dv);
            }
        },
        None => {},
    }
    out
}

/// What the index keeps for a file.
pub struct FileEntry {
    pub mtime: u64,
    pub size: u64,
    pub defs: Vec<IndexedDef>,
}

/// The index: its version and one entry per repo-relative path.
pub struct IndexFile {
    pub version: u32,
    pub files: Vec<(String, FileEntry)>,
}

/// A project file as the refresh sees it: its repo-relative path, whether
/// its language is known, its file name, its time and size when they could
/// be read, and its outline when it was parsed.
pub struct ScannedFile {
    pub rel: String,
    pub language_ok: bool,
    pub file_name: Option<String>,
    pub meta: Option<(u64, u64)>,
    pub shape: Option<FileShape>,
}

/// The entry of the index for `rel`.
pub open spec fn entry_of(files: Seq<(String, FileEntry)>, rel: Seq<char>) -> Option<int> {
    first_at(files.len(), |k: int| files[k].0@ == rel)
}

/// The index has an entry for `rel` with time `mtime` and size `size`.
pub open spec fn entry_fresh(files: Seq<(String, FileEntry)>, rel: Seq<char>, mtime: u64, size: u64) -> Option<int> {
    match entry_of(files, rel) {
        Some(k) => if files[k].1.mtime == mtime && files[k].1.size == size { Some(k) } else { None },
        None => None,
    }
}

/// Index of the entry for `rel`.
fn find_entry(files: &Vec<(String, FileEntry)>, rel: &str) -> (r: Option<usize>)
    ensures
        match entry_of(files@, rel@) {
            Some(k) => r == Some(k as usize) && 0 <= k < files.len(),
            None => r is None,
        },
{
    let ghost p = |k: int| files@[k].0@ == rel@;
    proof {
        lemma_first_at(files@.len(), p);
    }
    let mut k: usize = 0;
    while k < files.len()
        invariant
            k <= files.len(),
            p == (|k: int| files@[k].0@ == rel@),
            first_at(k as nat, p) is None,
        decreases files.len() - k,
    {
        if str_eq(files[k].0.as_str(), rel) {
            proof {
                assert(p(k as int));
                lemma_first_at_extend((k + 1) as nat, files.len() as nat, p);
            }
            return Some(k);
        }
        k += 1;
    }
    None
}

/// Whether the index already holds current definitions for a file.
pub fn is_fresh(idx: &IndexFile, rel: &str, mtime: u64, size: u64) -> (b: bool)
    ensures
        b == (entry_fresh(idx.files@, rel@, mtime, size) is Some),
{
    match find_entry(&idx.files, rel) {
        Some(k) => idx.files[k].1.mtime == mtime && idx.files[k].1.size == size,
        None => false,
    }
}

/// The file is indexed at all: known language, not the index itself, and
/// its time and size readable.
pub open spec fn indexable(f: ScannedFile) -> bool {
    f.language_ok && !(match f.file_name {
        Some(n) => n@ == INDEX_FILE@,
        None => false,
    }) && f.meta is Some
}

/// The definitions an index entry's view holds.
pub open spec fn entry_defs(e: FileEntry) -> Seq<IndexedView> {
    view_seq(e.defs@)
}

/// Index entries as plain values: path, time, size, definitions.
pub open spec fn entry_views(files: Seq<(String, FileEntry)>) -> Seq<(Seq<char>, u64, u64, Seq<IndexedView>)> {
    files.map_values(|f: (String, FileEntry)| (f.0@, f.1.mtime, f.1.size, entry_defs(f.1)))
}

/// Plain entries: the index of `rel`.
pub open spec fn view_entry_of(es: Seq<(Seq<char>, u64, u64, Seq<IndexedView>)>, rel: Seq<char>) -> Option<int> {
    first_at(es.len(), key_is(es, rel))
}

/// Entry `k` has the path `rel`.
pub open spec fn key_is(es: Seq<(Seq<char>, u64, u64, Seq<IndexedView>)>, rel: Seq<char>) -> spec_fn(int) -> bool {
    |k: int| es[k].0 == rel
}

/// One file of the refresh: reuse a current entry, else index the file
/// anew and record it (replacing a stale entry), marking the index dirty.
pub open spec fn refresh_step(
    state: (Seq<(Seq<char>, u64, u64, Seq<IndexedView>)>, Seq<IndexedView>, bool),
    f: ScannedFile,
) -> (Seq<(Seq<char>, u64, u64, Seq<IndexedView>)>, Seq<IndexedView>, bool) {
    let (es, all, dirty) = state;
    if !indexable(f) {
        state
    } else {
        let (mtime, size) = f.meta->0;
        match view_entry_of(es, f.rel@) {
            Some(k) => if es[k].1 == mtime && es[k].2 == size {
                (es, all + es[k].3, dirty)
            } else {
                let defs = file_defs(f.shape, f.rel@);
                (es.update(k, (es[k].0, mtime, size, defs)), all + defs, true)
            },
            None => {
                let defs = file_defs(f.shape, f.rel@);
                (es.push((f.rel@, mtime, size, defs)), all + defs, true)
            },
        }
    }
}

/// The refresh over the first `m` files.
pub open spec fn refresh_upto(
    es: Seq<(Seq<char>, u64, u64, Seq<IndexedView>)>,
    files: Seq<ScannedFile>,
    m: int,
) -> (Seq<(Seq<char>, u64, u64, Seq<IndexedView>)>, Seq<IndexedView>, bool)
    decreases m,
{
    if m <= 0 || m > files.len() {
        (es, seq![], false)
    } else {
        refresh_step(refresh_upto(es, files, m - 1), files[m - 1])
    }
}

/// The entries whose path is still a project file.
pub open spec fn live_entries(es: Seq<(Seq<char>, u64, u64, Seq<IndexedView>)>, live: Seq<Seq<char>>) -> Seq<(Seq<char>, u64, u64, Seq<IndexedView>)>
    decreases es.len(),
{
    if es.len() == 0 {
        seq![]
    } else {
        let o = live_entries(es.drop_last(), live);
        if live.contains(es.last().0) { o.push(es.last()) } else { o }
    }
}

/// Appends copies of `v`.
fn extend_defs(all: &mut Vec<IndexedDef>, v: &Vec<IndexedDef>)
    ensures
        view_seq(final(all)@) == view_seq(old(all)@) + view_seq(v@),
{
    let mut i: usize = 0;
    let ghost start = view_seq(all@);
    while i < v.len()
        invariant
            i <= v.len(),
            view_seq(all@) == start + view_seq(v@).take(i as int),
        decreases v.len() - i,
    {
        let ghost before = view_seq(all@);
        all.push(clone_indexed(&v[i]));
        proof {
            assert(view_seq(v@).take(i + 1) =~= view_seq(v@).take(i as int).push(v@[i as int]@));
            assert(view_seq(all@) =~= before.push(v@[i as int]@));
        }
        i += 1;
    }
    proof {
        assert(view_seq(v@).take(v.len() as int) =~= view_seq(v@));
    }
}

/// Whether the file is indexed at all.
fn is_indexable(f: &ScannedFile) -> (b: bool)
    ensures
        b == indexable(*f),
{
    let named_index = match &f.file_name {
        Some(n) => str_eq(n.as_str(), INDEX_FILE),
        None => false,
    };
    f.language_ok && !named_index && f.meta.is_some()
}

/// Whether `v` lists `s`.
fn lists(v: &Vec<String>, s: &str) -> (b: bool)
    ensures
        b == crate::rows::views(v@).contains(s@),
{
    let mut i: usize = 0;
    while i < v.len()
        invariant
            i <= v.len(),
            forall|k: int| 0 <= k < i ==> crate::rows::views(v@)[k] != s@,
        decreases v.len() - i,
    {
        if str_eq(v[i].as_str(), s) {
            proof {
                assert(crate::rows::views(v@)[i as int] == s@);
            }
            return true;
        }
        i += 1;
    }
    false
}

/// Brings the index up to date with the project files, in order, and drops
/// entries of files that no longer exist; gives every definition in file
/// order and whether the index changed.
pub fn refresh_index(idx: &mut IndexFile, files: &Vec<ScannedFile>, live: &Vec<String>) -> (r: (Vec<IndexedDef>, bool))
    ensures
        ({
            let (es, all, dirty) = refresh_upto(entry_views(old(idx).files@), files@, files.len() as int);
            let kept = live_entries(es, crate::rows::views(live@));
            &&& view_seq(r.0@) == all
            &&& entry_views(final(idx).files@) == kept
            &&& r.1 == (dirty || kept.len() != es.len())
        }),
        final(idx).version == old(idx).version,
{
    let ghost e0 = entry_views(idx.files@);
    let mut all: Vec<IndexedDef> = Vec::new();
    let mut dirty = false;
    let mut m: usize = 0;
    proof {
        assert(view_seq(all@) =~= Seq::<IndexedView>::empty());
    }
    while m < files.len()
        invariant
            m <= files.len(),
            idx.version == old(idx).version,
            (entry_views(idx.files@), view_seq(all@), dirty) == refresh_upto(e0, files@, m as int),
        decreases files.len() - m,
    {
        let f = &files[m];
        let ghost es = entry_views(idx.files@);
        let ghost a0 = view_seq(all@);
        if is_indexable(f) {
            let (mtime, size) = match f.meta {
                Some(x) => x,
                None => (0, 0),
            };
            let found = find_entry(&idx.files, f.rel.as_str());
            proof {
                let p = |k: int| idx.files@[k].0@ == f.rel@;
                let q = |k: int| es[k].0 == f.rel@;
                assert forall|j: int| 0 <= j < es.len() implies #[trigger] q(j) == p(j) by {
                    assert(es[j].0 == idx.files@[j].0@);
                }
                crate::cache::lemma_first_at_same(es.len(), p, q);
            }
            let mut reuse = false;
            match found {
                Some(k) => {
                    if idx.files[k].1.mtime == mtime && idx.files[k].1.size == size {
                        reuse = true;
                        extend_defs(&mut all, &idx.files[k].1.defs);
                    }
                },
                None => {},
            }
            if !reuse {
                let shape_ref: Option<&FileShape> = match &f.shape {
                    Some(s) => Some(s),
                    None => None,
                };
                let defs = defs_for_file(shape_ref, f.rel.as_str());
                extend_defs(&mut all, &defs);
                let ghost dv = view_seq(defs@);
                let ghost before = idx.files@;
                match found {
                    Some(k) => {
                        let prev = idx.files.remove(k);
                        idx.files.insert(k, (prev.0, FileEntry { mtime, size, defs }));
                        proof {
                            assert(entry_views(idx.files@) =~= es.update(k as int, (es[k as int].0, mtime, size, dv)));
                        }
                    },
                    None => {
                        idx.files.push((f.rel.clone(), FileEntry { mtime, size, defs }));
                        proof {
                            assert(entry_views(idx.files@) =~= es.push((f.rel@, mtime, size, dv)));
                        }
                    },
                }
                dirty = true;
            }
        }
        m += 1;
    }
    let ghost es = entry_views(idx.files@);
    let before_len = idx.files.len();
    let mut old_files: Vec<(String, FileEntry)> = Vec::new();
    std::mem::swap(&mut old_files, &mut idx.files);
    let ghost ofs = old_files@;
    let mut kept: Vec<(String, FileEntry)> = Vec::new();
    let mut rest = old_files;
    let mut i: usize = 0;
    proof {
        assert(rest@ =~= ofs.skip(0));
        assert(entry_views(kept@) =~= live_entries(es.take(0), crate::rows::views(live@)));
    }
    while rest.len() > 0
        invariant
            i <= ofs.len(),
            ofs.len() == before_len,
            es == entry_views(ofs),
            rest@ == ofs.skip(i as int),
            entry_views(kept@) == live_entries(es.take(i as int), crate::rows::views(live@)),
        decreases rest.len(),
    {
        let e = rest.remove(0);
        proof {
            assert(e == ofs[i as int]);
            assert(rest@ =~= ofs.skip(i + 1));
            assert(es.take(i + 1).drop_last() =~= es.take(i as int));
            assert(es.take(i + 1).last() == es[i as int]);
            assert(es[i as int].0 == e.0@);
        }
        let ghost kb = entry_views(kept@);
        if lists(live, e.0.as_str()) {
            let ghost ev = (e.0@, e.1.mtime, e.1.size, entry_defs(e.1));
            kept.push(e);
            proof {
                assert(entry_views(kept@) =~= kb.push(ev));
            }
        }
        i += 1;
    }
    proof {
        assert(es.take(i as int) =~= es);
    }
    let changed = kept.len() != before_len;
    idx.files = kept;
    (all, dirty || changed)
}

/// A definition with its file joined to the project root.
pub open spec fn absolute_view(root: Seq<char>, d: IndexedView) -> IndexedView {
    IndexedView { file: joined_path(root, d.file), ..d }
}

/// The definitions with their files joined to the project root.
pub fn absolute_defs(root: &str, defs: &Vec<IndexedDef>) -> (r: Vec<IndexedDef>)
    ensures
        view_seq(r@) == view_seq(defs@).map_values(|d: IndexedView| absolute_view(root@, d)),
{
    let ghost dv = view_seq(defs@);
    let mut out: Vec<IndexedDef> = Vec::new();
    let mut i: usize = 0;
    while i < defs.len()
        invariant
            i <= defs.len(),
            dv == view_seq(defs@),
            view_seq(out@) == dv.take(i as int).map_values(|d: IndexedView| absolute_view(root@, d)),
        decreases defs.len() - i,
    {
        let d = &defs[i];
        let ghost before = view_seq(out@);
        out.push(IndexedDef {
            name: d.name.clone(),
            file: join_path(root, d.file.as_str()),
            line: d.line,
            end_line: d.end_line,
            scope: d.scope.clone(),
        });
        proof {
            assert(dv.take(i + 1) =~= dv.take(i as int).push(d@));
            assert(view_seq(out@) =~= before.push(absolute_view(root@, d@)));
        }
        i += 1;
    }
    proof {
        assert(dv.take(defs.len() as int) =~= dv);
    }
    out
}

/// The definitions of a project root: the index brought up to date with
/// the project files (as `refresh_index` does) and every definition given
/// with its file joined to the (canonical) root; also whether the index
/// changed and must be saved.
pub fn root_definitions(idx: &mut IndexFile, root: &str, files: &Vec<ScannedFile>, live: &Vec<String>) -> (r: (Vec<IndexedDef>, bool))
    ensures
        ({
            let (es, all, dirty) = refresh_upto(entry_views(old(idx).files@), files@, files.len() as int);
            let kept = live_entries(es, crate::rows::views(live@));
            &&& view_seq(r.0@) == all.map_values(|d: IndexedView| absolute_view(root@, d))
            &&& entry_views(final(idx).files@) == kept
            &&& r.1 == (dirty || kept.len() != es.len())
        }),
        final(idx).version == old(idx).version,
{
    let (all, changed) = refresh_index(idx, files, live);
    (absolute_defs(root, &all), changed)
}

/// What the index holds for `rel`: its time, size and definitions.
pub open spec fn lookup(es: Seq<(Seq<char>, u64, u64, Seq<IndexedView>)>, rel: Seq<char>) -> Option<(Seq<char>, u64, u64, Seq<IndexedView>)> {
    match view_entry_of(es, rel) {
        Some(k) => Some(es[k]),
        None => None,
    }
}

/// The definitions a fresh parse of each indexable file among the first
/// `m` gives, file by file.
pub open spec fn fresh_defs(files: Seq<ScannedFile>, m: int) -> Seq<IndexedView>
    decreases m,
{
    if m <= 0 || m > files.len() {
        seq![]
    } else {
        fresh_defs(files, m - 1) + if indexable(files[m - 1]) { file_defs(files[m - 1].shape, files[m - 1].rel@) } else { seq![] }
    }
}

/// Every entry the index holds for a project file with that file's
/// current time and size lists what a fresh parse of the file gives.
pub open spec fn index_current(es: Seq<(Seq<char>, u64, u64, Seq<IndexedView>)>, files: Seq<ScannedFile>) -> bool {
    forall|i: int| 0 <= i < files.len() && #[trigger] indexable(files[i]) ==> match lookup(es, files[i].rel@) {
        Some(e) => (e.1 == (files[i].meta->0).0 && e.2 == (files[i].meta->0).1) ==> e.3 == file_defs(files[i].shape, files[i].rel@),
        None => true,
    }
}

/// The project files name distinct paths.
pub open spec fn distinct_rels(files: Seq<ScannedFile>) -> bool {
    forall|i: int, j: int| 0 <= i < j < files.len() ==> #[trigger] files[i].rel@ != #[trigger] files[j].rel@
}

/// Changing or adding the entry of `rel` leaves what the index holds for
/// any other path.
proof fn lemma_lookup_other(es: Seq<(Seq<char>, u64, u64, Seq<IndexedView>)>, after: Seq<(Seq<char>, u64, u64, Seq<IndexedView>)>,
    rel: Seq<char>, r: Seq<char>)
    requires
        r != rel,
        after.len() >= es.len(),
        forall|j: int| 0 <= j < es.len() && es[j].0 != rel ==> #[trigger] after[j] == es[j],
        forall|j: int| 0 <= j < after.len() && (j >= es.len() || es[j].0 == rel) ==> #[trigger] after[j].0 == rel,
    ensures
        lookup(after, r) == lookup(es, r),
    decreases after.len() - es.len(),
{
    let p = key_is(es, r);
    let q = key_is(after, r);
    assert forall|j: int| 0 <= j < es.len() implies #[trigger] q(j) == p(j) by {
        if es[j].0 != rel {
            assert(after[j] == es[j]);
        } else {
            assert(after[j].0 == rel);
        }
    }
    crate::cache::lemma_first_at_same(es.len() as nat, p, q);
    lemma_first_at_tail(es.len() as nat, after.len() as nat, q);
    lemma_first_at(es.len() as nat, p);

    match view_entry_of(es, r) {
        Some(k) => {
            assert(es[k].0 == r);
            assert(after[k] == es[k]);
        },
        None => {},
    }
}

/// Indices past `n` where `q` fails leave `first_at` as it was.
proof fn lemma_first_at_tail(n: nat, m: nat, q: spec_fn(int) -> bool)
    requires
        n <= m,
        forall|j: int| n <= j < m ==> !#[trigger] q(j),
    ensures
        first_at(m, q) == first_at(n, q),
    decreases m - n,
{
    if m > n {
        lemma_first_at_tail(n, (m - 1) as nat, q);
    }
}

/// Refreshing the first `m` files gives their fresh definitions and leaves
/// what the index holds for every other path.
proof fn lemma_refresh_fresh(es: Seq<(Seq<char>, u64, u64, Seq<IndexedView>)>, files: Seq<ScannedFile>, m: int)
    requires
        0 <= m <= files.len(),
        index_current(es, files),
        distinct_rels(files),
    ensures
        refresh_upto(es, files, m).1 == fresh_defs(files, m),
        forall|r: Seq<char>| (forall|i: int| 0 <= i < m ==> #[trigger] files[i].rel@ != r)
            ==> #[trigger] lookup(refresh_upto(es, files, m).0, r) == lookup(es, r),
    decreases m,
{
    if m > 0 {
        lemma_refresh_fresh(es, files, m - 1);
        let st = refresh_upto(es, files, m - 1);
        let (e0, a0, d0) = st;
        let f = files[m - 1];
        assert forall|i: int| 0 <= i < m - 1 implies #[trigger] files[i].rel@ != f.rel@ by {}
        assert(lookup(e0, f.rel@) == lookup(es, f.rel@));
        if indexable(f) {
            let (mtime, size) = f.meta->0;
            lemma_first_at(e0.len(), key_is(e0, f.rel@));
            match view_entry_of(e0, f.rel@) {
                Some(k) => {
                    if e0[k].1 == mtime && e0[k].2 == size {
                        assert(lookup(es, f.rel@) == Some(e0[k]));
                        assert(e0[k].3 == file_defs(f.shape, f.rel@));
                    } else {
                        let defs = file_defs(f.shape, f.rel@);
                        let after = e0.update(k, (e0[k].0, mtime, size, defs));
                        assert forall|r: Seq<char>| (forall|i: int| 0 <= i < m ==> #[trigger] files[i].rel@ != r)
                            implies #[trigger] lookup(after, r) == lookup(es, r) by {
                            assert(files[m - 1].rel@ != r);
                            lemma_lookup_other(e0, after, f.rel@, r);
                        }
                    }
                },
                None => {
                    let defs = file_defs(f.shape, f.rel@);
                    let after = e0.push((f.rel@, mtime, size, defs));
                    assert forall|r: Seq<char>| (forall|i: int| 0 <= i < m ==> #[trigger] files[i].rel@ != r)
                        implies #[trigger] lookup(after, r) == lookup(es, r) by {
                        assert(files[m - 1].rel@ != r);
                        lemma_lookup_other(e0, after, f.rel@, r);
                    }
                },
            }
        }
    }
}

/// An index that is current for the project files changes nothing: the
/// refresh gives, file by file, exactly the definitions a fresh parse of
/// each indexable file gives (the project files naming distinct paths).
pub proof fn law_index_matches_fresh_parse(es: Seq<(Seq<char>, u64, u64, Seq<IndexedView>)>, files: Seq<ScannedFile>)
    requires
        index_current(es, files),
        distinct_rels(files),
    ensures
        refresh_upto(es, files, files.len() as int).1 == fresh_defs(files, files.len() as int),
{
    lemma_refresh_fresh(es, files, files.len() as int);
}

} // verus!
