use treesitter_mcp::boot::{needs_source, scan_entries_tests, Ancestor, BootFile};

fn anc(names: &[(&str, &str)]) -> Vec<Ancestor> {
    names
        .iter()
        .map(|(n, r)| Ancestor { name: if n.is_empty() { None } else { Some(n.to_string()) }, rel: r.to_string() })
        .collect()
}

fn bf(path: &str, rel: &str, ancestors: Vec<Ancestor>, source: Option<&str>) -> BootFile {
    BootFile { path: path.to_string(), rel: rel.to_string(), ancestors, source: source.map(|s| s.to_string()) }
}

#[test]
fn entries_and_test_dirs() {
    let files = vec![
        bf("/p/src/main.rs", "src/main.rs", anc(&[("main.rs", "src/main.rs"), ("src", "src"), ("p", ".")]), Some("fn main() {}\n")),
        bf("/p/src/util.py", "src/util.py", anc(&[("util.py", "src/util.py"), ("src", "src")]), Some("if __name__ == '__main__':\n")),
        bf("/p/tests/a.rs", "tests/a.rs", anc(&[("a.rs", "tests/a.rs"), ("Tests", "tests"), ("p", ".")]), Some("")),
        bf("/p/tests/b.rs", "tests/b.rs", anc(&[("b.rs", "tests/b.rs"), ("tests", "tests")]), None),
        bf("/p/web/__tests__/x.js", "web/__tests__/x.js", anc(&[("x.js", "web/__tests__/x.js"), ("__tests__", "web/__tests__"), ("web", "web")]), None),
        bf("/p/lib/Index.ts", "lib/Index.ts", anc(&[("Index.ts", "lib/Index.ts")]), None),
    ];
    let (entries, tests) = scan_entries_tests(&files);
    assert_eq!(entries, vec!["lib/Index.ts", "src/main.rs", "src/util.py"]);
    assert_eq!(tests, vec!["tests", "web/__tests__"]);
}

#[test]
fn source_read_only_for_rust_and_python() {
    assert!(needs_source("a/B.RS"));
    assert!(needs_source("x.py"));
    assert!(!needs_source("x.js"));
}
