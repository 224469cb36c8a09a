use treesitter_mcp::index::{
    defs_for_file, is_fresh, refresh_index, root_definitions, FileEntry, IndexFile, IndexedDef, ScannedFile, INDEX_FILE, INDEX_VERSION,
};
use treesitter_mcp::shape::{FileShape, FunctionInfo};

fn shape(fns: Vec<(&str, usize, usize)>) -> FileShape {
    FileShape {
        functions: fns
            .into_iter()
            .map(|(n, l, e)| FunctionInfo { name: n.to_string(), line: l, end_line: e })
            .collect(),
        structs: vec![],
        classes: vec![],
        impl_blocks: vec![],
        interfaces: vec![],
        traits: vec![],
    }
}

fn def(name: &str, file: &str, line: usize) -> IndexedDef {
    IndexedDef { name: name.to_string(), file: file.to_string(), line, end_line: line + 1, scope: String::new() }
}

fn scanned(rel: &str, meta: Option<(u64, u64)>, s: Option<FileShape>) -> ScannedFile {
    let name = rel.rsplit('/').next().map(|n| n.to_string());
    ScannedFile { rel: rel.to_string(), language_ok: true, file_name: name, meta, shape: s }
}

fn names(v: &[IndexedDef]) -> Vec<(String, String, usize)> {
    v.iter().map(|d| (d.name.clone(), d.file.clone(), d.line)).collect()
}

#[test]
fn index_fresh_by_time_and_size() {
    let idx = IndexFile {
        version: INDEX_VERSION,
        files: vec![("src/a.rs".to_string(), FileEntry { mtime: 10, size: 99, defs: vec![] })],
    };
    assert!(is_fresh(&idx, "src/a.rs", 10, 99));
    assert!(!is_fresh(&idx, "src/a.rs", 11, 99));
    assert!(!is_fresh(&idx, "src/a.rs", 10, 98));
    assert!(!is_fresh(&idx, "src/b.rs", 10, 99));
}

#[test]
fn index_refresh_reuses_reindexes_and_drops() {
    let mut idx = IndexFile {
        version: INDEX_VERSION,
        files: vec![
            ("src/a.rs".to_string(), FileEntry { mtime: 10, size: 5, defs: vec![def("cached", "src/a.rs", 2)] }),
            ("src/b.rs".to_string(), FileEntry { mtime: 1, size: 5, defs: vec![def("old", "src/b.rs", 1)] }),
            ("src/gone.rs".to_string(), FileEntry { mtime: 1, size: 1, defs: vec![] }),
        ],
    };
    let files = vec![
        scanned("src/a.rs", Some((10, 5)), Some(shape(vec![("ignored", 1, 2)]))),
        scanned("src/b.rs", Some((2, 5)), Some(shape(vec![("fresh", 4, 6)]))),
        scanned("src/c.rs", Some((3, 3)), Some(shape(vec![("new_fn", 7, 9)]))),
        scanned("src/d.rs", None, Some(shape(vec![("unreadable", 1, 1)]))),
        scanned(INDEX_FILE, Some((1, 1)), None),
    ];
    let live = vec!["src/a.rs".to_string(), "src/b.rs".to_string(), "src/c.rs".to_string()];
    let (all, changed) = refresh_index(&mut idx, &files, &live);
    assert!(changed);
    assert_eq!(
        names(&all),
        vec![
            ("cached".to_string(), "src/a.rs".to_string(), 2),
            ("fresh".to_string(), "src/b.rs".to_string(), 4),
            ("new_fn".to_string(), "src/c.rs".to_string(), 7),
        ]
    );
    let kept: Vec<(String, u64, u64)> = idx.files.iter().map(|(k, e)| (k.clone(), e.mtime, e.size)).collect();
    assert_eq!(
        kept,
        vec![("src/a.rs".to_string(), 10, 5), ("src/b.rs".to_string(), 2, 5), ("src/c.rs".to_string(), 3, 3)]
    );
    assert_eq!(idx.version, INDEX_VERSION);
}

#[test]
fn index_refresh_unchanged() {
    let mut idx = IndexFile {
        version: INDEX_VERSION,
        files: vec![("src/a.rs".to_string(), FileEntry { mtime: 10, size: 5, defs: vec![def("f", "src/a.rs", 2)] })],
    };
    let files = vec![scanned("src/a.rs", Some((10, 5)), None)];
    let live = vec!["src/a.rs".to_string()];
    let (all, changed) = refresh_index(&mut idx, &files, &live);
    assert!(!changed);
    assert_eq!(names(&all), vec![("f".to_string(), "src/a.rs".to_string(), 2)]);
}

#[test]
fn index_defs_for_file_lists_functions() {
    let s = shape(vec![("main", 1, 3), ("helper", 5, 8)]);
    let defs = defs_for_file(Some(&s), "src/main.rs");
    assert_eq!(
        names(&defs),
        vec![("main".to_string(), "src/main.rs".to_string(), 1), ("helper".to_string(), "src/main.rs".to_string(), 5)]
    );
    assert!(defs_for_file(None, "src/main.rs").is_empty());
}

#[test]
fn index_root_definitions_are_absolute() {
    let mut idx = IndexFile { version: INDEX_VERSION, files: vec![] };
    let files = vec![scanned("src/a.rs", Some((1, 2)), Some(shape(vec![("run", 3, 4)])))];
    let live = vec!["src/a.rs".to_string()];
    let (all, changed) = root_definitions(&mut idx, "/proj", &files, &live);
    assert!(changed);
    assert_eq!(names(&all), vec![("run".to_string(), "/proj/src/a.rs".to_string(), 3)]);
    assert_eq!(idx.files[0].1.defs[0].file, "src/a.rs");
}

#[test]
fn index_current_entries_give_fresh_definitions() {
    let s = shape(vec![("run", 3, 4), ("stop", 6, 8)]);
    let fresh = defs_for_file(Some(&s), "src/a.rs");
    let mut idx = IndexFile {
        version: INDEX_VERSION,
        files: vec![("src/a.rs".to_string(), FileEntry { mtime: 5, size: 9, defs: defs_for_file(Some(&s), "src/a.rs") })],
    };
    let files = vec![scanned("src/a.rs", Some((5, 9)), Some(shape(vec![("run", 3, 4), ("stop", 6, 8)])))];
    let live = vec!["src/a.rs".to_string()];
    let (all, changed) = refresh_index(&mut idx, &files, &live);
    assert!(!changed);
    assert_eq!(names(&all), names(&fresh));
}
