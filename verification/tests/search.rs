use serde_json::Value;
use treesitter_mcp::error::ToolErrorKind;
use treesitter_mcp::search::{search_answer, search_request, Matcher, SearchFile};
use treesitter_mcp::tools::SearchText;

fn args(pattern: Option<&str>, patterns: Option<Vec<&str>>) -> SearchText {
    SearchText {
        path: "/proj".to_string(),
        pattern: pattern.map(|p| p.to_string()),
        patterns: patterns.map(|v| v.into_iter().map(|p| p.to_string()).collect()),
        regex: None,
        case_sensitive: None,
        context_lines: None,
        offset: None,
        limit: None,
        max_tokens: None,
        estimate: None,
    }
}

fn file(name: &str, content: &str) -> SearchFile {
    SearchFile {
        path: format!("/proj/{name}"),
        rel: name.to_string(),
        content: Some(content.to_string()),
    }
}

fn run(a: &SearchText, files: Vec<SearchFile>) -> Value {
    let req = search_request(a).unwrap();
    let text = search_answer(&req, &files).unwrap();
    serde_json::from_str(&text).unwrap()
}

#[test]
fn search_text_finds_string_literal() {
    let a = args(Some("save_parser_ids"), None);
    let v = run(&a, vec![file("a.rs", "fn m() {\n  let k = get(game_id, \"save_parser_ids\");\n}\n")]);
    assert_eq!(v["total"], 1);
    assert!(v["m"].as_str().unwrap().contains("save_parser_ids"));
}

#[test]
fn search_text_multi_patterns_lint() {
    let a = args(None, Some(vec!["—", "TODO"]));
    let v = run(&a, vec![file("a.rs", "foo — bar\nTODO fix\n")]);
    assert_eq!(v["total"], 2);
}

#[test]
fn task_string_key_trace() {
    let a = args(Some("save_parser_ids"), None);
    let v = run(
        &a,
        vec![
            file("a.py", "IDS = get(game_id, \"save_parser_ids\")\n"),
            file("b.py", "x = store.get(\"save_parser_ids\")\n# save_parser_ids documented\n"),
        ],
    );
    assert_eq!(v["total"].as_u64().unwrap(), 3);
}

#[test]
fn search_rows_carry_byte_column_and_sorted_order() {
    let a = args(Some("x"), None);
    let v = run(&a, vec![file("b.rs", "  x\n"), file("a.rs", "ax\n")]);
    assert_eq!(v["h"], "file|line|col|context");
    assert_eq!(v["m"], "a.rs|1|2|ax\nb.rs|1|3|  x");
    assert_eq!(v["pat"], "x");
    assert_eq!(v["offset"], 0);
    assert_eq!(v["hint"], "callers span hits; minimal_edit_context on x for focused edit");
    assert!(v.get("@").is_none());
}

#[test]
fn search_exact_text_of_single_hit() {
    let a = args(Some("b"), None);
    let req = search_request(&a).unwrap();
    let text = search_answer(&req, &vec![file("f.rs", "abc\n")]).unwrap();
    assert_eq!(
        text,
        "{\"h\":\"file|line|col|context\",\"hint\":\"single hit; view_code isolate b for edit context\",\"m\":\"f.rs|1|2|abc\",\"offset\":0,\"pat\":\"b\",\"total\":1}"
    );
}

#[test]
fn search_one_row_per_line_with_first_pattern() {
    let a = args(None, Some(vec!["b", "a"]));
    let v = run(&a, vec![file("f.rs", "ab\n")]);
    assert_eq!(v["total"], 1);
    assert_eq!(v["h"], "pattern|file|line|col|context");
    assert_eq!(v["m"], "b|f.rs|1|2|ab");
    assert_eq!(v["pat"][0], "b");
    assert_eq!(v["pat"][1], "a");
}

#[test]
fn search_case_insensitive_literal() {
    let mut a = args(Some("HELLO"), None);
    a.case_sensitive = Some(false);
    let v = run(&a, vec![file("f.rs", "say hello\n")]);
    assert_eq!(v["total"], 1);
    assert_eq!(v["m"], "f.rs|1|5|say hello");
    let b = args(Some("HELLO"), None);
    let w = run(&b, vec![file("f.rs", "say hello\n")]);
    assert_eq!(w["total"], 0);
    assert_eq!(w["hint"], "no hits; try search_text for string literals or regex=true");
}

#[test]
fn search_regex_mode() {
    let mut a = args(Some("[0-9]+"), None);
    a.regex = Some(true);
    let v = run(&a, vec![file("f.rs", "abc\nid 42\n")]);
    assert_eq!(v["total"], 1);
    assert_eq!(v["m"], "f.rs|2|4|id 42");
}

#[test]
fn search_bad_regex_is_invalid_input() {
    let mut a = args(Some("("), None);
    a.regex = Some(true);
    let e = search_request(&a).err().unwrap();
    assert_eq!(e.kind, ToolErrorKind::InvalidInput);
    assert!(e.message.starts_with("Bad regex: "));
}

#[test]
fn search_missing_patterns_is_invalid_input() {
    let a = args(None, None);
    let e = search_request(&a).err().unwrap();
    assert_eq!(e.kind, ToolErrorKind::InvalidInput);
    assert_eq!(e.message, "Missing or invalid 'pattern'/'patterns' argument");
    let b = args(None, Some(vec![]));
    assert!(search_request(&b).is_err());
}

#[test]
fn search_builds_one_matcher_per_pattern() {
    let a = args(None, Some(vec!["x", "y"]));
    let req = search_request(&a).unwrap();
    assert_eq!(req.patterns, vec!["x".to_string(), "y".to_string()]);
    assert_eq!(req.matchers.len(), 2);
    assert!(matches!(&req.matchers[0], Matcher::Literal { needle, case_sensitive: true } if needle == "x"));
}

#[test]
fn search_context_lines_join_neighbours() {
    let mut a = args(Some("mid"), None);
    a.context_lines = Some(1);
    let v = run(&a, vec![file("f.rs", "top\nmid\nend\n")]);
    assert_eq!(v["m"], "f.rs|2|1|top\\nmid\\nend");
}

#[test]
fn search_paging_keeps_total() {
    let mut a = args(Some("x"), None);
    a.offset = Some(1);
    a.limit = Some(1);
    let v = run(&a, vec![file("f.rs", "x1\nx2\nx3\n")]);
    assert_eq!(v["total"], 3);
    assert_eq!(v["offset"], 1);
    assert_eq!(v["m"], "f.rs|2|1|x2");
}

#[test]
fn search_estimate_reports_cost() {
    let mut a = args(Some("x"), None);
    a.estimate = Some(true);
    let v = run(&a, vec![file("f.rs", "x\nx\n"), file("g.rs", "x\n")]);
    assert_eq!(v["total"], 3);
    assert_eq!(v["estimated_rows"], 3);
    assert_eq!(v["scope_summary"], "2 files");
    // each hit: 1 context byte + 10 path bytes + 16 = 27; 81 / 4 + 3 * 4 = 32
    assert_eq!(v["estimated_tokens"], 32);
    assert_eq!(v["pat"][0], "x");
    assert_eq!(v["pat"].as_array().unwrap().len(), 1);
}

#[test]
fn search_unreadable_files_are_skipped() {
    let a = args(Some("x"), None);
    let none = SearchFile { path: "/proj/z".to_string(), rel: "z".to_string(), content: None };
    let v = run(&a, vec![none, file("f.rs", "x\n")]);
    assert_eq!(v["total"], 1);
}

#[test]
fn search_budget_drops_rows_and_marks() {
    let mut a = args(Some("line"), None);
    a.max_tokens = Some(25);
    let content: String = (0..40).map(|i| format!("line number {i}\n")).collect();
    let v = run(&a, vec![file("f.rs", &content)]);
    assert_eq!(v["total"], 40);
    assert_eq!(v["@"]["t"], true);
    let kept = v["m"].as_str().unwrap().lines().count();
    assert!(kept < 40);
    assert_eq!(v["hint"], "40 hits truncated; re-call with offset to page");
}

#[test]
fn search_budget_large_enough_keeps_all() {
    let mut a = args(Some("x"), None);
    a.max_tokens = Some(10000);
    let v = run(&a, vec![file("f.rs", "x\n")]);
    assert!(v.get("@").is_none());
    assert_eq!(v["m"], "f.rs|1|1|x");
}

#[test]
fn literal_matcher_columns() {
    let insensitive = treesitter_mcp::search::Matcher::Literal { needle: "Foo".to_string(), case_sensitive: false };
    assert_eq!(insensitive.find_col("a foo b"), Some(3));
    assert!(insensitive.is_match("a foo b"));
    let sensitive = treesitter_mcp::search::Matcher::Literal { needle: "Foo".to_string(), case_sensitive: true };
    assert_eq!(sensitive.find_col("a foo b"), None);
    assert!(!sensitive.is_match("a foo b"));
    assert_eq!(sensitive.find_col("é Foo"), Some(4));
}
