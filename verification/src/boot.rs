//! The entry points and test directories a session bootstrap reports: entry
//! files by name (`main`, `lib`, `index`, `mod`) or by what their source
//! holds, and each test directory (`tests`, `test`, `__tests__`) once.

use vstd::prelude::*;
use vstd::string::StringExecFns;
use crate::text::{lowercase, to_lower, str_eq, str_contains, str_ends_with, contains_seq, has_suffix};
use crate::relevant::{path_file_stem, file_stem_of};
use crate::rows::views;
use crate::sort::{sorted_view, sort_by_view, dedup_runs, dedup_strings, view_seq, lemma_sorted_view_keeps, lemma_dedup_runs_keeps};

verus! {

/// One directory on a file's way up to the root: its final name, if it
/// has one as text, and its path as shown.
pub struct Ancestor {
    pub name: Option<String>,
    pub rel: String,
}

/// A project file: its path, the path shown, the paths from it up to the
/// root (the file itself first), and its text when it is Rust or Python
/// and could be read.
pub struct BootFile {
    pub path: String,
    pub rel: String,
    pub ancestors: Vec<Ancestor>,
    pub source: Option<String>,
}

/// File stems that mark an entry point.
pub open spec fn entry_stem(stem: Seq<char>) -> bool {
    stem == "main"@ || stem == "lib"@ || stem == "index"@ || stem == "mod"@
}

/// Directory names that mark tests.
pub open spec fn test_dir_name(name: Seq<char>) -> bool {
    name == "tests"@ || name == "test"@ || name == "__tests__"@
}

/// The lowercased stem of a path (empty when it has none).
pub open spec fn lower_stem(p: Seq<char>) -> Seq<char> {
    match path_file_stem(p) {
        Some(s) => lowercase(s),
        None => lowercase(seq![]),
    }
}

/// Whether the source of a file with this shown path is read: Rust and
/// Python files.
pub open spec fn reads_source(rel: Seq<char>) -> bool {
    has_suffix(lowercase(rel), ".rs"@) || has_suffix(lowercase(rel), ".py"@)
}

/// Whether a file's source is needed.
pub fn needs_source(rel: &str) -> (b: bool)
    ensures
        b == reads_source(rel@),
{
    let lower = to_lower(rel);
    str_ends_with(lower.as_str(), ".rs") || str_ends_with(lower.as_str(), ".py")
}

/// The first ancestor named like a test directory.
pub open spec fn test_ancestor(anc: Seq<Ancestor>) -> Option<int> {
    crate::text::first_at(anc.len(), |k: int| anc[k].name matches Some(n) && test_dir_name(lowercase(n@)))
}

/// The lists after one more file: its path added to the entries when its
/// stem marks an entry, its test directory added when not yet listed, and
/// its path added again to the entries when its source defines a main
/// function or checks `__name__` and it is not listed yet.
pub open spec fn boot_step(st: (Seq<Seq<char>>, Seq<Seq<char>>), f: BootFile) -> (Seq<Seq<char>>, Seq<Seq<char>>) {
    let (entries, tests) = st;
    let e1 = if entry_stem(lower_stem(f.path@)) { entries.push(f.rel@) } else { entries };
    let t1 = match test_ancestor(f.ancestors@) {
        Some(k) => if tests.contains(f.ancestors@[k].rel@) { tests } else { tests.push(f.ancestors@[k].rel@) },
        None => tests,
    };
    let e2 = if reads_source(f.rel@) && (f.source matches Some(src) && (contains_seq(src@, "fn main("@) || contains_seq(src@, "__name__"@)))
        && !e1.contains(f.rel@) {
        e1.push(f.rel@)
    } else {
        e1
    };
    (e2, t1)
}

/// The lists after the first `n` files.
pub open spec fn boot_scan(files: Seq<BootFile>, n: int) -> (Seq<Seq<char>>, Seq<Seq<char>>)
    decreases n,
{
    if n <= 0 || n > files.len() {
        (seq![], seq![])
    } else {
        boot_step(boot_scan(files, n - 1), files[n - 1])
    }
}

/// Whether `v` holds `s`.
fn holds(v: &Vec<String>, s: &str) -> (b: bool)
    ensures
        b == views(v@).contains(s@),
{
    let mut i: usize = 0;
    while i < v.len()
        invariant
            i <= v.len(),
            forall|k: int| 0 <= k < i ==> v@[k]@ != s@,
        decreases v.len() - i,
    {
        if str_eq(v[i].as_str(), s) {
            proof {
                assert(views(v@)[i as int] == s@);
            }
            return true;
        }
        i += 1;
    }
    proof {
        if views(v@).contains(s@) {
            let k = choose|k: int| 0 <= k < views(v@).len() && views(v@)[k] == s@;
            assert(v@[k]@ == s@);
        }
    }
    false
}

/// The first ancestor named like a test directory.
fn find_test_ancestor(anc: &Vec<Ancestor>) -> (r: Option<usize>)
    ensures
        match test_ancestor(anc@) {
            Some(k) => r == Some(k as usize),
            None => r is None,
        },
        r matches Some(k) ==> k < anc.len(),
        test_ancestor(anc@) matches Some(k) ==> 0 <= k < anc.len(),
{
    let ghost p = |k: int| anc@[k].name matches Some(n) && test_dir_name(lowercase(n@));
    proof {
        crate::text::lemma_first_at(anc@.len(), p);
        reveal_strlit("tests");
        reveal_strlit("test");
        reveal_strlit("__tests__");
    }
    let mut k: usize = 0;
    while k < anc.len()
        invariant
            k <= anc.len(),
            p == (|k: int| anc@[k].name matches Some(n) && test_dir_name(lowercase(n@))),
            crate::text::first_at(k as nat, p) is None,
        decreases anc.len() - k,
    {
        let hit = match &anc[k].name {
            Some(n) => {
                let l = to_lower(n.as_str());
                str_eq(l.as_str(), "tests") || str_eq(l.as_str(), "test") || str_eq(l.as_str(), "__tests__")
            },
            None => false,
        };
        if hit {
            proof {
                assert(p(k as int));
                crate::text::lemma_first_at_extend((k + 1) as nat, anc.len() as nat, p);
            }
            return Some(k);
        }
        proof {
            assert(!p(k as int));
        }
        k += 1;
    }
    None
}

/// The entry points and test directories of the project's files: entries
/// sorted without repeats, test directories sorted.
pub fn scan_entries_tests(files: &Vec<BootFile>) -> (r: (Vec<String>, Vec<String>))
    ensures
        ({
            let (entries, tests) = boot_scan(files@, files.len() as int);
            &&& views(r.0@) == dedup_runs(sorted_view::<String>(entries))
            &&& views(r.1@) == sorted_view::<String>(tests)
        }),
{
    let mut entries: Vec<String> = Vec::new();
    let mut tests: Vec<String> = Vec::new();
    let mut i: usize = 0;
    proof {
        reveal_strlit("main");
        reveal_strlit("lib");
        reveal_strlit("index");
        reveal_strlit("mod");
    }
    while i < files.len()
        invariant
            i <= files.len(),
            (views(entries@), views(tests@)) == boot_scan(files@, i as int),
        decreases files.len() - i,
    {
        let f = &files[i];
        let ghost st = (views(entries@), views(tests@));
        let stem = match file_stem_of(f.path.as_str()) {
            Some(s) => to_lower(s.as_str()),
            None => to_lower(""),
        };
        proof {
            reveal_strlit("");
            assert(""@ =~= Seq::<char>::empty());
            assert(stem@ == lower_stem(f.path@));
        }
        if str_eq(stem.as_str(), "main") || str_eq(stem.as_str(), "lib") || str_eq(stem.as_str(), "index")
            || str_eq(stem.as_str(), "mod") {
            let ghost before = entries@;
            entries.push(f.rel.clone());
            proof {
                assert(views(entries@) =~= views(before).push(f.rel@));
            }
        }
        let ghost e1 = views(entries@);
        proof {
            assert(e1 == (if entry_stem(lower_stem(f.path@)) { st.0.push(f.rel@) } else { st.0 }));
        }
        match find_test_ancestor(&f.ancestors) {
            Some(k) => {
                if !holds(&tests, f.ancestors[k].rel.as_str()) {
                    let ghost before = tests@;
                    tests.push(f.ancestors[k].rel.clone());
                    proof {
                        assert(views(tests@) =~= views(before).push(f.ancestors@[k as int].rel@));
                    }
                }
            },
            None => {},
        }
        proof {
            assert(views(tests@) == (match test_ancestor(f.ancestors@) {
                Some(k) => if st.1.contains(f.ancestors@[k].rel@) { st.1 } else { st.1.push(f.ancestors@[k].rel@) },
                None => st.1,
            }));
        }
        if needs_source(f.rel.as_str()) {
            match &f.source {
                Some(src) => {
                    if (str_contains(src.as_str(), "fn main(") || str_contains(src.as_str(), "__name__"))
                        && !holds(&entries, f.rel.as_str()) {
                        let ghost before = entries@;
                        entries.push(f.rel.clone());
                        proof {
                            assert(views(entries@) =~= views(before).push(f.rel@));
                        }
                    }
                },
                None => {},
            }
        }
        proof {
            reveal_strlit("fn main(");
            reveal_strlit("__name__");
            assert(views(entries@) == (if reads_source(f.rel@) && (f.source matches Some(src) && (contains_seq(src@, "fn main("@) || contains_seq(src@, "__name__"@)))
                && !e1.contains(f.rel@) { e1.push(f.rel@) } else { e1 }));
            assert((views(entries@), views(tests@)) == boot_step(st, files@[i as int]));
        }
        i += 1;
    }
    let sorted_entries = sort_by_view(entries);
    let unique = dedup_strings(&sorted_entries);
    let sorted_tests = sort_by_view(tests);
    proof {
        assert(view_seq(sorted_entries@) =~= views(sorted_entries@));
        assert(view_seq(sorted_tests@) =~= views(sorted_tests@));
    }
    (unique, sorted_tests)
}

/// One more file keeps every entry and test directory listed so far.
proof fn lemma_boot_step_keeps(st: (Seq<Seq<char>>, Seq<Seq<char>>), f: BootFile, x: Seq<char>)
    ensures
        st.0.contains(x) ==> boot_step(st, f).0.contains(x),
        st.1.contains(x) ==> boot_step(st, f).1.contains(x),
{
    if st.0.contains(x) {
        let w = choose|w: int| 0 <= w < st.0.len() && st.0[w] == x;
        let e1 = if entry_stem(lower_stem(f.path@)) { st.0.push(f.rel@) } else { st.0 };
        assert(e1[w] == x);
        assert(boot_step(st, f).0[w] == x);
    }
    if st.1.contains(x) {
        let w = choose|w: int| 0 <= w < st.1.len() && st.1[w] == x;
        assert(boot_step(st, f).1[w] == x);
    }
}

/// Later files keep every entry and test directory listed after file `m`.
proof fn lemma_boot_scan_keeps(files: Seq<BootFile>, m: int, n: int, x: Seq<char>)
    requires
        0 <= m <= n <= files.len(),
    ensures
        boot_scan(files, m).0.contains(x) ==> boot_scan(files, n).0.contains(x),
        boot_scan(files, m).1.contains(x) ==> boot_scan(files, n).1.contains(x),
    decreases n - m,
{
    if n > m {
        lemma_boot_scan_keeps(files, m, n - 1, x);
        lemma_boot_step_keeps(boot_scan(files, n - 1), files[n - 1], x);
    }
}

/// File `i` is listed as an entry once it is scanned, when its stem marks
/// an entry or its source defines a main function or checks `__name__`.
proof fn lemma_boot_entry(files: Seq<BootFile>, i: int)
    requires
        0 <= i < files.len(),
        entry_stem(lower_stem(files[i].path@))
            || (reads_source(files[i].rel@) && (files[i].source matches Some(src)
                && (contains_seq(src@, "fn main("@) || contains_seq(src@, "__name__"@)))),
    ensures
        boot_scan(files, files.len() as int).0.contains(files[i].rel@),
{
    let st = boot_scan(files, i);
    let f = files[i];
    let e1 = if entry_stem(lower_stem(f.path@)) { st.0.push(f.rel@) } else { st.0 };
    let e2 = boot_step(st, f).0;
    assert(boot_scan(files, i + 1) == boot_step(st, f));
    if entry_stem(lower_stem(f.path@)) {
        assert(e1[st.0.len() as int] == f.rel@);
        assert(e2[st.0.len() as int] == f.rel@);
    } else if e1.contains(f.rel@) {
        let w = choose|w: int| 0 <= w < e1.len() && e1[w] == f.rel@;
        assert(e2[w] == f.rel@);
    } else {
        assert(e2[e1.len() as int] == f.rel@);
    }
    lemma_boot_scan_keeps(files, i + 1, files.len() as int, f.rel@);
}

/// Every file whose lowercased stem is `main`, `lib`, `index` or `mod` is
/// among the entries a bootstrap reports.
pub proof fn law_entry_stems_listed(files: Seq<BootFile>, i: int)
    requires
        0 <= i < files.len(),
        path_file_stem(files[i].path@) is Some,
        lowercase(path_file_stem(files[i].path@)->0) == "main"@ || lowercase(path_file_stem(files[i].path@)->0) == "lib"@
            || lowercase(path_file_stem(files[i].path@)->0) == "index"@
            || lowercase(path_file_stem(files[i].path@)->0) == "mod"@,
    ensures
        dedup_runs(sorted_view::<String>(boot_scan(files, files.len() as int).0)).contains(files[i].rel@),
{
    lemma_boot_entry(files, i);
    lemma_sorted_view_keeps::<String>(boot_scan(files, files.len() as int).0, files[i].rel@);
    lemma_dedup_runs_keeps(sorted_view::<String>(boot_scan(files, files.len() as int).0), files[i].rel@);
}

/// Every Rust or Python file whose source defines `fn main(` or checks
/// `__name__` is among the entries a bootstrap reports.
pub proof fn law_main_sources_listed(files: Seq<BootFile>, i: int, src: Seq<char>)
    requires
        0 <= i < files.len(),
        has_suffix(lowercase(files[i].rel@), ".rs"@) || has_suffix(lowercase(files[i].rel@), ".py"@),
        files[i].source is Some,
        files[i].source->0@ == src,
        contains_seq(src, "fn main("@) || contains_seq(src, "__name__"@),
    ensures
        dedup_runs(sorted_view::<String>(boot_scan(files, files.len() as int).0)).contains(files[i].rel@),
{
    lemma_boot_entry(files, i);
    lemma_sorted_view_keeps::<String>(boot_scan(files, files.len() as int).0, files[i].rel@);
    lemma_dedup_runs_keeps(sorted_view::<String>(boot_scan(files, files.len() as int).0), files[i].rel@);
}

/// For every file with an ancestor named `tests`, `test` or `__tests__`
/// (in any ASCII case), the first such ancestor is among the test
/// directories a bootstrap reports.
pub proof fn law_test_dirs_listed(files: Seq<BootFile>, i: int, k: int)
    requires
        0 <= i < files.len(),
        0 <= k < files[i].ancestors.len(),
        files[i].ancestors@[k].name is Some,
        lowercase(files[i].ancestors@[k].name->0@) == "tests"@ || lowercase(files[i].ancestors@[k].name->0@) == "test"@
            || lowercase(files[i].ancestors@[k].name->0@) == "__tests__"@,
        forall|j: int| #![trigger files[i].ancestors@[j]] 0 <= j < k ==> (files[i].ancestors@[j].name matches Some(n)
            ==> lowercase(n@) != "tests"@ && lowercase(n@) != "test"@ && lowercase(n@) != "__tests__"@),
    ensures
        sorted_view::<String>(boot_scan(files, files.len() as int).1).contains(files[i].ancestors@[k].rel@),
{
    let f = files[i];
    let anc = f.ancestors@;
    let p = |j: int| anc[j].name matches Some(n) && test_dir_name(lowercase(n@));
    crate::text::lemma_first_at(anc.len(), p);
    assert(p(k));
    assert(test_ancestor(anc) == Some(k));
    let st = boot_scan(files, i);
    let x = anc[k].rel@;
    assert(boot_scan(files, i + 1) == boot_step(st, f));
    let t1 = boot_step(st, f).1;
    if st.1.contains(x) {
        let w = choose|w: int| 0 <= w < st.1.len() && st.1[w] == x;
        assert(t1[w] == x);
    } else {
        assert(t1[st.1.len() as int] == x);
    }
    lemma_boot_scan_keeps(files, i + 1, files.len() as int, x);
    lemma_sorted_view_keeps::<String>(boot_scan(files, files.len() as int).1, x);
}

} // verus!
