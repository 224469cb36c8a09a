use serde_json::Value;
use treesitter_mcp::call_graph::SymbolDef;
use treesitter_mcp::callpath::call_path_answer;
use treesitter_mcp::error::ToolErrorKind;
use treesitter_mcp::graph_tool::{call_graph_text, check_project, CallGraph, GraphProject};
use treesitter_mcp::syntax::{Language, SyntaxNode, SyntaxTree};
use treesitter_mcp::tools::CallPath;
use treesitter_mcp::walk::ParsedSource;

fn node(kind: &str, row: usize, end_row: usize, text: Option<&str>, children: Vec<usize>, fields: Vec<&str>, parent: Option<usize>) -> SyntaxNode {
    SyntaxNode {
        kind: kind.to_string(),
        is_named: true,
        start_row: row,
        start_col: 0,
        end_row,
        end_col: 10,
        text: text.map(|t| t.to_string()),
        children,
        fields: fields.into_iter().map(|f| f.to_string()).collect(),
        parent,
    }
}

/// def a(): b()   (rows 0-1)
/// def b(): c()   (rows 2-3)
/// def c(): a()   (rows 4-5)
fn tree() -> SyntaxTree {
    SyntaxTree {
        nodes: vec![
            node("module", 0, 5, None, vec![1, 3, 5], vec!["", "", ""], None),
            node("call", 1, 1, Some("b()"), vec![2], vec!["function"], Some(0)),
            node("identifier", 1, 1, Some("b"), vec![], vec![], Some(1)),
            node("call", 3, 3, Some("c()"), vec![4], vec!["function"], Some(0)),
            node("identifier", 3, 3, Some("c"), vec![], vec![], Some(3)),
            node("call", 5, 5, Some("a()"), vec![6], vec!["function"], Some(0)),
            node("identifier", 5, 5, Some("a"), vec![], vec![], Some(5)),
        ],
    }
}

fn def(name: &str, line: usize) -> SymbolDef {
    SymbolDef {
        name: name.to_string(),
        file: "m.py".to_string(),
        rel_file: "m.py".to_string(),
        line,
        end_line: line + 1,
        scope: String::new(),
    }
}

fn project() -> GraphProject {
    GraphProject {
        target_exists: true,
        target_canonical: "m.py".to_string(),
        defs: vec![def("a", 1), def("b", 3), def("c", 5)],
        canonical: vec!["m.py".to_string(), "m.py".to_string(), "m.py".to_string()],
        sources: vec![ParsedSource { path: "m.py".to_string(), language: Language::Python, tree: tree() }],
        rank_files: vec![],
    }
}

fn path(from: &str, to: &str, depth: Option<u32>) -> Value {
    let args = CallPath { file_path: "m.py".to_string(), symbol: from.to_string(), to: to.to_string(), depth };
    serde_json::from_str(&call_path_answer(&args, &project()).unwrap()).unwrap()
}

#[test]
fn project_is_consistent() {
    assert!(check_project(&project()));
}

#[test]
fn call_path_follows_callees() {
    let v = path("a", "c", None);
    assert_eq!(v["reachable"], true);
    assert_eq!(v["chain"], "a@m.py:1\nb@m.py:3\nc@m.py:5");
    assert_eq!(v["from"], "a");
    assert_eq!(v["to"], "c");
}

#[test]
fn call_path_self_path_detects_cycle() {
    let v = path("a", "a", None);
    assert_eq!(v["reachable"], true);
    assert_eq!(v["chain"], "a@m.py:1");
}

#[test]
fn call_path_cycle_is_not_a_path_to_another_name() {
    let v = path("a", "nowhere", None);
    assert_eq!(v["reachable"], false);
    assert_eq!(v["chain"], "");
}

#[test]
fn call_path_respects_depth() {
    let v = path("a", "c", Some(1));
    assert_eq!(v["reachable"], false);
    assert_eq!(v["chain"], "");
    let w = path("a", "nowhere", Some(0));
    assert_eq!(w["reachable"], false);
}

#[test]
fn call_path_unknown_start() {
    let args = CallPath { file_path: "m.py".to_string(), symbol: "zz".to_string(), to: "a".to_string(), depth: None };
    let e = call_path_answer(&args, &project()).err().unwrap();
    assert_eq!(e.kind, ToolErrorKind::NotFound);
    assert_eq!(e.message, "Symbol 'zz' not found in m.py");
}

fn graph(symbol: &str, direction: Option<&str>, depth: Option<u32>) -> CallGraph {
    CallGraph {
        file_path: "m.py".to_string(),
        symbol_name: symbol.to_string(),
        direction: direction.map(|d| d.to_string()),
        depth,
        max_tokens: Some(4000),
        rank: None,
        offset: None,
        limit: None,
        estimate: None,
    }
}

#[test]
fn call_graph_callees_by_depth() {
    let text = call_graph_text(&graph("a", Some("callees"), Some(2)), &project()).unwrap();
    let v: Value = serde_json::from_str(&text).unwrap();
    assert_eq!(v["total"], 2);
    assert_eq!(v["edges"], "callee|b|m.py|3||1\ncallee|c|m.py|5||2");
    assert_eq!(v["h"], "direction|symbol|file|line|scope|depth");
    assert_eq!(v["sym"], "a");
}

#[test]
fn call_graph_callers() {
    let text = call_graph_text(&graph("b", Some("callers"), None), &project()).unwrap();
    let v: Value = serde_json::from_str(&text).unwrap();
    assert_eq!(v["edges"], "caller|a|m.py|1||1");
}

#[test]
fn call_graph_bad_direction() {
    let e = call_graph_text(&graph("a", Some("sideways"), None), &project()).err().unwrap();
    assert_eq!(e.kind, ToolErrorKind::InvalidInput);
    assert_eq!(e.message, "Invalid direction 'sideways', expected callers, callees, or both");
}

#[test]
fn call_graph_missing_file_and_symbol() {
    let mut p = project();
    p.target_exists = false;
    let e = call_graph_text(&graph("a", None, None), &p).err().unwrap();
    assert_eq!(e.kind, ToolErrorKind::NotFound);
    assert_eq!(e.message, "Path does not exist: m.py");
    let e = call_graph_text(&graph("q", None, None), &project()).err().unwrap();
    assert_eq!(e.message, "Symbol 'q' not found in m.py");
}

#[test]
fn call_graph_reports_hint_and_cycles() {
    let text = call_graph_text(&graph("a", None, None), &project()).unwrap();
    let v: Value = serde_json::from_str(&text).unwrap();
    assert_eq!(v["cycles"], 0);
    assert_eq!(v["hint"], "depth=1 shown; depth=2 for transitive, call_path for A→B proof");
    assert!(!v["hint"].as_str().unwrap().contains('\n'));
}

#[test]
fn call_graph_ranked_rows_carry_conf() {
    let mut args = graph("a", Some("callees"), None);
    args.rank = Some(true);
    let text = call_graph_text(&args, &project()).unwrap();
    let v: Value = serde_json::from_str(&text).unwrap();
    assert_eq!(v["h"], "direction|symbol|file|line|scope|depth|freq|hints|conf");
    assert_eq!(v["edges"], "callee|b|m.py|3||1|1||high");
}

#[test]
fn call_graph_counts_two_cycle() {
    // def a(): b()   def b(): a()
    let mut p = project();
    p.sources[0].tree.nodes[3].text = Some("a()".to_string());
    p.sources[0].tree.nodes[4].text = Some("a".to_string());
    assert!(check_project(&p));
    let text = call_graph_text(&graph("a", None, None), &p).unwrap();
    let v: Value = serde_json::from_str(&text).unwrap();
    assert_eq!(v["cycles"], 1);
    assert_eq!(v["hint"], "cycle detected; call_path self-query shows the loop");
}

#[test]
fn call_graph_conf_low_outside_target_file() {
    let mut p = project();
    p.defs[1].rel_file = "n.py".to_string();
    let mut args = graph("a", Some("callees"), None);
    args.rank = Some(true);
    let text = call_graph_text(&args, &p).unwrap();
    let v: Value = serde_json::from_str(&text).unwrap();
    assert_eq!(v["edges"], "callee|b|n.py|3||1|1||low");
}
