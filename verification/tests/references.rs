use treesitter_mcp::error::ToolErrorKind;
use treesitter_mcp::references::{
    contains_point, identifier_ancestor, identifier_descendant_at, identifier_node_at, identifier_node_at_column,
    identifier_text_matches, is_identifier, nearest_symbol_column, parse_reference_location,
};
use treesitter_mcp::syntax::{SyntaxNode, SyntaxTree};
use treesitter_mcp::value::{Json, JsonNumber};

fn num(n: u64) -> Json {
    Json::Number(JsonNumber { unsigned: Some(n), text: n.to_string() })
}

fn obj(members: Vec<(&str, Json)>) -> Json {
    let mut m: Vec<(String, Json)> = members.into_iter().map(|(k, v)| (k.to_string(), v)).collect();
    m.sort_by(|a, b| a.0.cmp(&b.0));
    Json::Object(m)
}

fn s(text: &str) -> Json {
    Json::Str(text.to_string())
}

#[test]
fn reference_with_own_line_and_col() {
    let r = parse_reference_location(&obj(vec![("file", s("a.rs")), ("line", num(3)), ("col", num(5))])).unwrap();
    assert_eq!((r.file.as_str(), r.line, r.column), ("a.rs", 3, 5));
}

#[test]
fn reference_with_file_path_and_column() {
    let r = parse_reference_location(&obj(vec![("file_path", s("b.rs")), ("line", num(1)), ("column", num(2))])).unwrap();
    assert_eq!((r.file.as_str(), r.line, r.column), ("b.rs", 1, 2));
}

#[test]
fn reference_with_lsp_range_turns_one_based() {
    let start = obj(vec![("line", num(0)), ("character", num(4))]);
    let v = obj(vec![("uri", s("file:///tmp/a%20b.rs")), ("range", obj(vec![("start", start)]))]);
    let r = parse_reference_location(&v).unwrap();
    assert_eq!((r.file.as_str(), r.line, r.column), ("/tmp/a b.rs", 1, 5));
}

#[test]
fn reference_errors_name_what_is_missing() {
    let e = parse_reference_location(&obj(vec![("line", num(1))])).err().unwrap();
    assert_eq!(e.kind, ToolErrorKind::InvalidInput);
    assert_eq!(e.message, "Reference is missing 'file', 'file_path', or 'uri'");
    let start = obj(vec![("line", num(0))]);
    let e = parse_reference_location(&obj(vec![("file", s("a")), ("range", obj(vec![("start", start)]))])).err().unwrap();
    assert_eq!(e.message, "LSP range is missing start.character");
    let start = obj(vec![("character", num(0))]);
    let e = parse_reference_location(&obj(vec![("file", s("a")), ("range", obj(vec![("start", start)]))])).err().unwrap();
    assert_eq!(e.message, "LSP range is missing start.line");
    let e = parse_reference_location(&obj(vec![("file", s("a"))])).err().unwrap();
    assert_eq!(e.message, "Reference is missing 1-based 'line'");
    let e = parse_reference_location(&obj(vec![("file", s("a")), ("line", num(2))])).err().unwrap();
    assert_eq!(e.message, "Reference is missing 1-based 'col' or 'column'");
}

#[test]
fn reference_null_aliases_fall_through() {
    let v = obj(vec![
        ("file", Json::Null),
        ("file_path", s("a.rs")),
        ("uri", Json::Null),
        ("line", num(3)),
        ("col", Json::Null),
        ("column", num(7)),
        ("range", Json::Null),
    ]);
    let r = parse_reference_location(&v).unwrap();
    assert_eq!((r.file.as_str(), r.line, r.column), ("a.rs", 3, 7));
}

#[test]
fn diagnostic_null_aliases_fall_through() {
    let v = obj(vec![
        ("file", s("a.rs")),
        ("file_path", Json::Null),
        ("uri", Json::Null),
        ("line", num(3)),
        ("col", Json::Null),
        ("column", num(7)),
        ("range", Json::Null),
        ("severity", num(1)),
        ("message", s("m")),
        ("source", Json::Null),
        ("code", Json::Null),
    ]);
    let d = treesitter_mcp::diagnostics::parse_diagnostic(&v).unwrap();
    assert_eq!((d.file.as_str(), d.line, d.column), ("a.rs", 3, 7));
    assert_eq!(d.severity, "error");
    assert_eq!((d.message.as_str(), d.source.as_str(), d.code.as_str()), ("m", "", ""));
}

#[test]
fn nearest_column_picks_closest_occurrence() {
    let src = "let a = foo(foo);\nnext\n";
    assert_eq!(nearest_symbol_column(src, 0, 12, "foo"), Some(12));
    assert_eq!(nearest_symbol_column(src, 0, 0, "foo"), Some(8));
    assert_eq!(nearest_symbol_column(src, 0, 16, "foo"), Some(12));
    assert_eq!(nearest_symbol_column(src, 1, 0, "foo"), None);
    assert_eq!(nearest_symbol_column(src, 5, 0, "foo"), None);
}

#[test]
fn nearest_column_ties_keep_the_first() {
    // both occurrences are 1 byte away from column 3
    assert_eq!(nearest_symbol_column("ab  ab", 0, 3, "ab"), Some(0));
    assert_eq!(nearest_symbol_column("xab ab", 0, 4, "ab"), Some(4));
}

#[test]
fn nearest_column_with_empty_symbol_uses_boundaries() {
    assert_eq!(nearest_symbol_column("ab", 0, 1, ""), Some(1));
    assert_eq!(nearest_symbol_column("ab", 0, 9, ""), Some(2));
}

fn node(kind: &str, sc: usize, ec: usize, text: Option<&str>, children: Vec<usize>, parent: Option<usize>) -> SyntaxNode {
    let fields = children.iter().map(|_| String::new()).collect();
    SyntaxNode {
        kind: kind.to_string(),
        is_named: true,
        start_row: 0,
        start_col: sc,
        end_row: 0,
        end_col: ec,
        text: text.map(|t| t.to_string()),
        children,
        fields,
        parent,
    }
}

fn call_tree() -> SyntaxTree {
    SyntaxTree {
        nodes: vec![
            node("module", 0, 10, Some("foo(bar)"), vec![1], None),
            node("call", 0, 8, Some("foo(bar)"), vec![2, 3], Some(0)),
            node("identifier", 0, 3, Some("foo"), vec![], Some(1)),
            node("argument_list", 3, 8, Some("(bar)"), vec![4], Some(1)),
            node("identifier", 4, 7, Some("bar"), vec![], Some(3)),
        ],
    }
}

#[test]
fn identifier_kinds() {
    assert!(is_identifier("identifier"));
    assert!(is_identifier("type_identifier"));
    assert!(!is_identifier("call"));
}

#[test]
fn point_containment_includes_both_ends() {
    let t = call_tree();
    assert!(contains_point(&t.nodes[2], 0, 0));
    assert!(contains_point(&t.nodes[2], 0, 3));
    assert!(!contains_point(&t.nodes[2], 0, 4));
    assert!(!contains_point(&t.nodes[2], 1, 0));
}

#[test]
fn ancestors_and_descendants() {
    let t = call_tree();
    assert_eq!(identifier_ancestor(&t, 2), Some(2));
    assert_eq!(identifier_ancestor(&t, 3), None);
    assert_eq!(identifier_descendant_at(&t, 0, 0, 1), Some(2));
    assert_eq!(identifier_descendant_at(&t, 0, 0, 5), Some(4));
    assert_eq!(identifier_descendant_at(&t, 3, 0, 1), None);
    assert!(identifier_text_matches(&t.nodes[4], "bar"));
    assert!(!identifier_text_matches(&t.nodes[4], "foo"));
}

#[test]
fn node_at_column_falls_back_to_descendants() {
    let t = call_tree();
    assert_eq!(identifier_node_at_column(&t, Some(4), 0, 4), Some(4));
    assert_eq!(identifier_node_at_column(&t, Some(3), 0, 5), Some(4));
    assert_eq!(identifier_node_at_column(&t, None, 0, 5), None);
}

#[test]
fn node_at_uses_nearest_occurrence_when_text_differs() {
    let t = call_tree();
    let src = "foo(bar)";
    // the reference points at `foo`, but the symbol is `bar`: the nearest
    // `bar` starts at byte 4, where the lookup then finds node 4
    assert_eq!(identifier_node_at(&t, src, 0, 0, "bar", Some(2), Some(4)), Some(4));
    assert_eq!(identifier_node_at(&t, src, 0, 0, "foo", Some(2), None), Some(2));
    assert_eq!(identifier_node_at(&t, src, 0, 0, "zzz", Some(2), Some(4)), None);
}
