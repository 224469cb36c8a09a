use treesitter_mcp::cache::ParseCache;
use treesitter_mcp::syntax::Language;
use treesitter_mcp::call_graph::{parse_direction, same_path, Direction};
use treesitter_mcp::error::ToolErrorKind;
use treesitter_mcp::flow_text::{is_bare_identifier, rhs_idents, with_depth};
use treesitter_mcp::hints::{edit_hint, graph_hint, map_hint, search_hint, view_hint};
use treesitter_mcp::index::index_path;
use treesitter_mcp::json::{json_quote, string_array};
use treesitter_mcp::lines::{parse_usize, split_lines, trim};
use treesitter_mcp::lsp::{file_path_from_uri, percent_decode};
use treesitter_mcp::paths::{compare_paths, path_parent};
use treesitter_mcp::relevant::{file_stem_of, is_same_module_test, is_test_file, looks_like_direct_call, relevance_rank};
use treesitter_mcp::rows::{format_row, join_strings, parse_compact_row};
use treesitter_mcp::suggest::{edit_distance, missing_file_err, unknown_symbol_err, FileCandidate};
use treesitter_mcp::text::to_lower;

fn strings(v: &[&str]) -> Vec<String> {
    v.iter().map(|s| s.to_string()).collect()
}

#[test]
fn cache_hit_on_repeat() {
    let mut cache: ParseCache<String> = ParseCache::new();
    let source = "def a():\n    pass\n\n";
    let key = "/tmp/cache_case.py";
    let size = source.len() as u64;
    if cache.lookup_tree(key, Language::Python, 7, size).is_none() {
        cache.store_tree(key.to_string(), Language::Python, 7, size, source.to_string(), "tree".to_string());
    }
    let (h0, _) = cache.stats();
    assert!(cache.lookup_tree(key, Language::Python, 7, size).is_some());
    let (h1, _) = cache.stats();
    assert!(h1 > h0, "second call should hit cache");
}

#[test]
fn cache_misses_when_file_changed() {
    let mut cache: ParseCache<u8> = ParseCache::new();
    cache.store_tree("a.py".to_string(), Language::Python, 1, 10, "x".to_string(), 1);
    assert!(cache.lookup_tree("a.py", Language::Python, 2, 10).is_none());
    assert_eq!(cache.stats(), (0, 1));
    assert_eq!(cache.lookup_source("a.py", 1, 10), Some(&"x".to_string()));
    cache.store_tree("a.py".to_string(), Language::Python, 2, 11, "y".to_string(), 2);
    assert_eq!(cache.entries.len(), 1);
    assert_eq!(cache.lookup_tree("a.py", Language::Python, 2, 11).map(|(t, s)| (*t, s.clone())), Some((2, "y".to_string())));
}

#[test]
fn cache_tree_is_kept_per_language() {
    let mut cache: ParseCache<u8> = ParseCache::new();
    cache.store_tree("a.h".to_string(), Language::C, 1, 10, "x".to_string(), 1);
    assert!(cache.lookup_tree("a.h", Language::Cpp, 1, 10).is_none());
    assert_eq!(cache.stats(), (0, 1));
    assert_eq!(cache.lookup_tree("a.h", Language::C, 1, 10).map(|(t, _)| *t), Some(1));
    assert_eq!(cache.stats(), (1, 1));
}

#[test]
fn row_round_trip() {
    let fields = strings(&["a|b", "c\\d", "line\nnext\r", ""]);
    let row = format_row(&fields);
    assert_eq!(row, "a\\|b|c\\\\d|line\\nnext\\r|");
    assert_eq!(parse_compact_row(&row), fields);
    assert_eq!(join_strings(&strings(&["x", "y", "z"]), ", "), "x, y, z");
}

#[test]
fn json_strings() {
    assert_eq!(json_quote("a\"b\\c\n\u{1}"), "\"a\\\"b\\\\c\\n\\u0001\"");
    assert_eq!(string_array(&strings(&["x", "y\""])), "[\"x\",\"y\\\"\"]");
    assert_eq!(string_array(&vec![]), "[]");
}

#[test]
fn hints_text() {
    assert_eq!(search_hint(0, false, "f"), "no hits; try search_text for string literals or regex=true");
    assert_eq!(search_hint(25, false, "f"), "25 hits; narrow path/scope or batch_view top callers");
    assert_eq!(graph_hint(9, 0, 0), "9 callers; rank=true prioritizes by freq/hints");
    assert_eq!(graph_hint(0, 0, 1), "cycle detected; call_path self-query shows the loop");
    assert_eq!(graph_hint(0, 0, 0), "no edges; confirm symbol with symbol_at_line (overload/homonym?)");
    assert_eq!(view_hint(true, false), "focused; minimal_edit_context adds callees/types/imports");
    assert_eq!(map_hint(4, true), "4 files truncated; offset/limit to page or pattern to filter");
    assert_eq!(edit_hint(), "verify with parse_diff then affected_by_diff before tests");
}

#[test]
fn suggestions() {
    assert_eq!(edit_distance("kitten", "sitting"), 3);
    assert_eq!(edit_distance("abc", "abd"), 1);
    assert_eq!(edit_distance("a", "abcdef"), 3);
    let e = unknown_symbol_err("Foo", &strings(&["foo", "Foobar", "bar", "fop"]), "x.rs");
    assert_eq!(e.kind, ToolErrorKind::NotFound);
    assert_eq!(
        e.message,
        "Symbol 'Foo' not found in x.rs; candidates: foo, Foobar, fop; hint: code_map the dir or symbol_at_line the location"
    );
    let files = vec![
        FileCandidate { name: "main.rs".to_string(), rel: "src/main.rs".to_string() },
        FileCandidate { name: "Main.rs".to_string(), rel: "old/Main.rs".to_string() },
        FileCandidate { name: "lib.rs".to_string(), rel: "src/lib.rs".to_string() },
    ];
    let e = missing_file_err("src/main.rs", &files);
    assert_eq!(e.kind, ToolErrorKind::NotFound);
    assert_eq!(
        e.message,
        "Path does not exist: src/main.rs; did you mean: src/main.rs, old/Main.rs; hint: use a repo-relative path from code_map"
    );
    let e = missing_file_err("zzz.q", &vec![]);
    assert_eq!(e.message, "Path does not exist: zzz.q; hint: use a repo-relative path from code_map");
}

#[test]
fn lsp_uris() {
    assert_eq!(percent_decode("a%20b%2Fc%zz"), "a b/c%zz");
    assert_eq!(percent_decode("/tmp/caf%C3%A9/a%20b.rs"), "/tmp/café/a b.rs");
    assert_eq!(percent_decode("/tmp/é.rs"), "/tmp/é.rs");
    assert_eq!(percent_decode("%FF"), "\u{FFFD}");
    assert_eq!(file_path_from_uri("file:///x/y%20z.rs"), Some("/x/y z.rs".to_string()));
    assert_eq!(file_path_from_uri("file://localhost/x.rs"), Some("/x.rs".to_string()));
    assert_eq!(file_path_from_uri("http://x"), None);
}

#[test]
fn flow_text_pieces() {
    assert!(is_bare_identifier("cfg_2"));
    assert!(!is_bare_identifier("a.b"));
    assert!(!is_bare_identifier(""));
    assert_eq!(with_depth("a.py|3|assign|x = y", 2), "a.py|3|assign:2|x = y");
    assert_eq!(with_depth("no marker", 2), "no marker");
    assert_eq!(rhs_idents("conn + cfg * 2 + conn"), strings(&["conn", "cfg"]));
    assert_eq!(rhs_idents("self.db"), Vec::<String>::new());
    assert_eq!(rhs_idents("load(x)"), strings(&["load"]));
}

#[test]
fn relevance_and_test_files() {
    assert_eq!(relevance_rank("direct"), 0);
    assert_eq!(relevance_rank("same_module"), 2);
    assert_eq!(relevance_rank("other"), 3);
    assert!(is_test_file("pkg/tests/a.rs"));
    assert!(is_test_file("src/test_util.py"));
    assert!(is_test_file("web/App.spec.ts"));
    assert!(!is_test_file("src/main.rs"));
    assert!(is_same_module_test("tests/test_calc.py", "calc"));
    assert!(looks_like_direct_call("x = add (1, 2)", "add"));
    assert!(!looks_like_direct_call("x = adder(1)", "add"));
    assert_eq!(file_stem_of("a/b/c.tar.gz"), Some("c.tar".to_string()));
}

#[test]
fn text_and_lines() {
    assert_eq!(trim("  a b \t"), "a b");
    assert_eq!(split_lines("a\r\nb\n\nc"), strings(&["a", "b", "", "c"]));
    assert_eq!(split_lines("x\n"), strings(&["x"]));
    assert_eq!(parse_usize("+42"), Some(42));
    assert_eq!(parse_usize("4x"), None);
    assert_eq!(parse_usize(""), None);
    assert_eq!(to_lower("ÄbC"), "äbc");
}

#[test]
fn path_wrappers() {
    assert!(same_path("a//b", "a/b"));
    assert!(!same_path("a/b", "a/c"));
    assert_eq!(compare_paths("a/b", "a/c"), -1);
    assert_eq!(compare_paths("a/b", "a//b"), 0);
    assert_eq!(compare_paths("b", "a/z"), 1);
    assert_eq!(path_parent("src/lib.rs"), Some("src".to_string()));
    assert_eq!(path_parent("lib.rs"), Some(String::new()));
    assert_eq!(path_parent("/"), None);
    assert!(index_path("/proj").ends_with(".treesitter-mcp-index.json"));
    assert_eq!(index_path("/proj"), "/proj/.treesitter-mcp-index.json");
}

#[test]
fn directions() {
    assert_eq!(parse_direction("callers").ok(), Some(Direction::Callers));
    assert_eq!(parse_direction("both").ok(), Some(Direction::Both));
    let e = parse_direction("up").err().unwrap();
    assert_eq!(e.kind, ToolErrorKind::InvalidInput);
    assert_eq!(e.message, "Invalid direction 'up', expected callers, callees, or both");
}

#[test]
fn hints_are_single_lines() {
    let all = vec![
        search_hint(0, false, "f"),
        search_hint(123, true, "f"),
        search_hint(1, false, "run"),
        search_hint(21, false, "run"),
        search_hint(4, false, "run"),
        graph_hint(0, 0, 1),
        graph_hint(6, 0, 0),
        graph_hint(0, 0, 0),
        graph_hint(1, 2, 0),
        view_hint(true, false),
        view_hint(false, true),
        view_hint(false, false),
        map_hint(40, true),
        map_hint(3, false),
        edit_hint(),
    ];
    for h in all {
        assert!(!h.contains('\n'), "hint spans lines: {h}");
    }
}

#[test]
fn tool_argument_defaults() {
    assert_eq!(treesitter_mcp::tools::default_full(), "full");
    assert_eq!(treesitter_mcp::tools::default_one(), Some(1));
}

#[test]
fn edit_distance_is_symmetric_and_capped() {
    assert_eq!(edit_distance("kitten", "sitting"), 3);
    assert_eq!(edit_distance("sitting", "kitten"), 3);
    assert_eq!(edit_distance("ab", "ba"), edit_distance("ba", "ab"));
    assert_eq!(edit_distance("a", "abcdef"), 3);
    assert_eq!(edit_distance("abcdef", "a"), 3);
}

#[test]
fn cache_source_refresh_drops_stale_tree() {
    let mut cache: ParseCache<u8> = ParseCache::new();
    cache.store_tree("a.rs".to_string(), Language::Rust, 1, 10, "x".to_string(), 7);
    cache.record_source("a.rs", 2, 11, "y".to_string());
    assert!(cache.lookup_tree("a.rs", Language::Rust, 2, 11).is_none());
    assert_eq!(cache.lookup_source("a.rs", 2, 11), Some(&"y".to_string()));
    assert_eq!(cache.stats(), (0, 2));
}
