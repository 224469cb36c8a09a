use serde_json::Value;
use treesitter_mcp::argflow::{arg_flow_text, ArgFlow};
use treesitter_mcp::depends::{depends_answer, depends_chain, depends_feed, depends_next, depends_start, DependsWalk};
use treesitter_mcp::error::ToolErrorKind;
use treesitter_mcp::syntax::{check_tree, Language, SyntaxNode, SyntaxTree};

struct N {
    kind: &'static str,
    row: usize,
    cols: (usize, usize),
    text: &'static str,
    kids: Vec<(usize, &'static str)>,
    parent: Option<usize>,
}

fn build(nodes: Vec<N>) -> SyntaxTree {
    SyntaxTree {
        nodes: nodes
            .into_iter()
            .map(|n| SyntaxNode {
                kind: n.kind.to_string(),
                is_named: true,
                start_row: n.row,
                start_col: n.cols.0,
                end_row: n.row,
                end_col: n.cols.1,
                text: Some(n.text.to_string()),
                children: n.kids.iter().map(|k| k.0).collect(),
                fields: n.kids.iter().map(|k| k.1.to_string()).collect(),
                parent: n.parent,
            })
            .collect(),
    }
}

fn n(kind: &'static str, row: usize, cols: (usize, usize), text: &'static str, kids: Vec<(usize, &'static str)>, parent: Option<usize>) -> N {
    N { kind, row, cols, text, kids, parent }
}

/// def f():
///     db = connect()
///     ctl = db
///     run(ctl)
fn chain_tree() -> SyntaxTree {
    let mut t = build(vec![
        n("module", 0, (0, 12), "", vec![(1, "")], None),
        n("function_definition", 0, (0, 12), "", vec![(2, "name"), (3, "body")], Some(0)),
        n("identifier", 0, (4, 5), "f", vec![], Some(1)),
        n("block", 1, (4, 12), "", vec![(4, ""), (8, ""), (11, "")], Some(1)),
        n("expression_statement", 1, (4, 18), "db = connect()", vec![(5, "")], Some(3)),
        n("assignment", 1, (4, 18), "db = connect()", vec![(6, "left"), (7, "right")], Some(4)),
        n("identifier", 1, (4, 6), "db", vec![], Some(5)),
        n("call", 1, (9, 18), "connect()", vec![(13, "function"), (14, "arguments")], Some(5)),
        n("expression_statement", 2, (4, 12), "ctl = db", vec![(9, "")], Some(3)),
        n("assignment", 2, (4, 12), "ctl = db", vec![(10, "left"), (15, "right")], Some(8)),
        n("identifier", 2, (4, 7), "ctl", vec![], Some(9)),
        n("expression_statement", 3, (4, 12), "run(ctl)", vec![(12, "")], Some(3)),
        n("call", 3, (4, 12), "run(ctl)", vec![(16, "function"), (17, "arguments")], Some(11)),
        n("identifier", 1, (9, 16), "connect", vec![], Some(7)),
        n("argument_list", 1, (16, 18), "()", vec![], Some(7)),
        n("identifier", 2, (10, 12), "db", vec![], Some(9)),
        n("identifier", 3, (4, 7), "run", vec![], Some(12)),
        n("argument_list", 3, (7, 12), "(ctl)", vec![(18, "")], Some(12)),
        n("identifier", 3, (8, 11), "ctl", vec![], Some(17)),
    ]);
    // rows span the whole file for the containers
    for i in [0usize, 1, 3] {
        t.nodes[i].end_row = 3;
    }
    t.nodes[3].start_row = 1;
    t
}

fn flow(line: u32, t: &SyntaxTree) -> Value {
    let args = ArgFlow { file_path: "a.py".to_string(), line, arg: None, symbol: None, depth: Some(3) };
    serde_json::from_str(&arg_flow_text(&args, "a.py", Language::Python, t).unwrap()).unwrap()
}

#[test]
fn task_arg_flow_chain() {
    let t = chain_tree();
    assert!(check_tree(&t));
    let v = flow(4, &t);
    let flows = v["flows"].as_str().unwrap();
    assert!(flows.contains("assign:1") && flows.contains("assign:2"), "{flows}");
    assert_eq!(v["call"], "run");
    assert_eq!(v["arg"], "ctl");
}

/// def f():
///     cfg = load()
///     run(cfg)
fn hop_tree() -> SyntaxTree {
    let mut t = build(vec![
        n("module", 0, (0, 12), "", vec![(1, "")], None),
        n("function_definition", 0, (0, 12), "", vec![(2, "name"), (3, "body")], Some(0)),
        n("identifier", 0, (4, 5), "f", vec![], Some(1)),
        n("block", 1, (4, 12), "", vec![(4, ""), (8, "")], Some(1)),
        n("expression_statement", 1, (4, 16), "cfg = load()", vec![(5, "")], Some(3)),
        n("assignment", 1, (4, 16), "cfg = load()", vec![(6, "left"), (7, "right")], Some(4)),
        n("identifier", 1, (4, 7), "cfg", vec![], Some(5)),
        n("call", 1, (10, 16), "load()", vec![(10, "function"), (11, "arguments")], Some(5)),
        n("expression_statement", 2, (4, 12), "run(cfg)", vec![(9, "")], Some(3)),
        n("call", 2, (4, 12), "run(cfg)", vec![(12, "function"), (13, "arguments")], Some(8)),
        n("identifier", 1, (10, 14), "load", vec![], Some(7)),
        n("argument_list", 1, (14, 16), "()", vec![], Some(7)),
        n("identifier", 2, (4, 7), "run", vec![], Some(9)),
        n("argument_list", 2, (7, 12), "(cfg)", vec![(14, "")], Some(9)),
        n("identifier", 2, (8, 11), "cfg", vec![], Some(13)),
    ]);
    for i in [0usize, 1, 3] {
        t.nodes[i].end_row = 2;
    }
    t.nodes[3].start_row = 1;
    t
}

#[test]
fn arg_flow_single_hop() {
    let t = hop_tree();
    assert!(check_tree(&t));
    let v = flow(3, &t);
    assert!(v["flows"].as_str().unwrap().contains("cfg"));
}

#[test]
fn arg_flow_no_call_on_line() {
    let t = hop_tree();
    let args = ArgFlow { file_path: "a.py".to_string(), line: 1, arg: None, symbol: Some("zz".to_string()), depth: None };
    let e = arg_flow_text(&args, "a.py", Language::Python, &t).err().unwrap();
    assert_eq!(e.kind, ToolErrorKind::NotFound);
    assert_eq!(e.message, "No call expression at a.py:1");
}

/// Runs a walk over a fixed include graph, as the server does with the
/// includes it reads.
fn walk(from: &str, to: &str, graph: &[(&str, &[&str])]) -> DependsWalk {
    let mut w = depends_start(from, to);
    while let Some(cur) = depends_next(&mut w) {
        let deps: Vec<String> = graph
            .iter()
            .find(|(f, _)| *f == cur)
            .map(|(_, d)| d.iter().map(|s| s.to_string()).collect())
            .unwrap_or_default();
        depends_feed(&mut w, &cur, &deps);
    }
    w
}

#[test]
fn depends_on_traces_chain() {
    let w = walk("/t/a.c", "/t/b.h", &[("/t/a.c", &["/t/b.h"])]);
    assert!(w.reachable);
    assert_eq!(depends_chain(&w), vec!["/t/a.c".to_string(), "/t/b.h".to_string()]);
}

#[test]
fn task_include_cycle_guard() {
    let w = walk("/t/a.c", "/t/b.h", &[("/t/a.c", &["/t/b.h"]), ("/t/b.h", &[])]);
    let chain = depends_chain(&w);
    let v: Value = serde_json::from_str(&depends_answer("a.c", "b.h", w.reachable, &chain)).unwrap();
    assert!(v["reachable"] == true && !v["chain"].as_str().unwrap().is_empty());
    assert_eq!(v["chain"], "/t/a.c\n/t/b.h");
    assert_eq!(v["hint"], "reachable; adding the edge closes a cycle — pick the other direction or break it");
}

#[test]
fn depends_longer_chain_and_unreachable() {
    let g: &[(&str, &[&str])] = &[("a", &["b", "c"]), ("b", &["d"]), ("c", &["d"]), ("d", &["e"])];
    let w = walk("a", "e", g);
    assert_eq!(depends_chain(&w), vec!["a", "b", "d", "e"]);
    let w = walk("a", "z", g);
    assert!(!w.reachable);
    assert!(depends_chain(&w).is_empty());
    assert_eq!(
        depends_answer("a", "z", false, &vec![]),
        "{\"chain\":\"\",\"from\":\"a\",\"hint\":\"not reachable; safe to add the include\",\"reachable\":false,\"to\":\"z\"}"
    );
}

#[test]
fn depends_same_file_is_reachable() {
    let w = walk("a", "a", &[]);
    assert!(w.reachable);
    assert_eq!(depends_chain(&w), vec!["a"]);
}
