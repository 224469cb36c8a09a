use treesitter_mcp::call_graph::{resolve_definition, SymbolDef};
use treesitter_mcp::syntax::{SyntaxNode, SyntaxTree};
use treesitter_mcp::writes::write_positions;

fn node(kind: &str, row: usize, text: Option<&str>, children: Vec<usize>, fields: Vec<&str>, parent: Option<usize>) -> SyntaxNode {
    SyntaxNode {
        kind: kind.to_string(),
        is_named: true,
        start_row: row,
        start_col: 0,
        end_row: row,
        end_col: 10,
        text: text.map(|t| t.to_string()),
        children,
        fields: fields.into_iter().map(|f| f.to_string()).collect(),
        parent,
    }
}

/// x = 1
/// y = x
/// self.x = 2
fn tree() -> SyntaxTree {
    let mut module = node("module", 0, None, vec![1, 4, 7], vec!["", "", ""], None);
    module.end_row = 2;
    SyntaxTree {
        nodes: vec![
            module,
            node("assignment", 0, Some("x = 1"), vec![2, 3], vec!["left", "right"], Some(0)),
            node("identifier", 0, Some("x"), vec![], vec![], Some(1)),
            node("integer", 0, Some("1"), vec![], vec![], Some(1)),
            node("assignment", 1, Some("y = x"), vec![5, 6], vec!["left", "right"], Some(0)),
            node("identifier", 1, Some("y"), vec![], vec![], Some(4)),
            node("identifier", 1, Some("x"), vec![], vec![], Some(4)),
            node("assignment", 2, Some("self.x = 2"), vec![8, 11], vec!["left", "right"], Some(0)),
            node("attribute", 2, Some("self.x"), vec![9, 10], vec!["object", "attribute"], Some(7)),
            node("identifier", 2, Some("self"), vec![], vec![], Some(8)),
            node("identifier", 2, Some("x"), vec![], vec![], Some(8)),
            node("integer", 2, Some("2"), vec![], vec![], Some(7)),
        ],
    }
}

#[test]
fn writes_are_assignment_targets() {
    let t = tree();
    assert_eq!(write_positions(&t, "x"), vec![2, 10]);
    assert_eq!(write_positions(&t, "y"), vec![5]);
    assert_eq!(write_positions(&t, "self"), vec![9]);
    assert!(write_positions(&t, "z").is_empty());
}

fn def(name: &str, file: &str, line: usize) -> SymbolDef {
    SymbolDef {
        name: name.to_string(),
        file: file.to_string(),
        rel_file: file.to_string(),
        line,
        end_line: line + 2,
        scope: String::new(),
    }
}

#[test]
fn resolve_prefers_callers_file() {
    let defs = vec![def("run", "a.py", 1), def("run", "b.py", 5), def("go", "b.py", 9)];
    let d = resolve_definition(&defs, "run", "b.py").unwrap();
    assert_eq!((d.file.as_str(), d.line), ("b.py", 5));
    let d = resolve_definition(&defs, "run", "c.py").unwrap();
    assert_eq!((d.file.as_str(), d.line), ("a.py", 1));
    assert!(resolve_definition(&defs, "stop", "a.py").is_none());
}
