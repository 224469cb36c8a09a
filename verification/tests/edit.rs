use treesitter_mcp::edit::{check_new_body, edit_answer, find_span, plan_symbol_edit};
use treesitter_mcp::error::ToolErrorKind;
use treesitter_mcp::shape::{ClassInfo, FileShape, FunctionInfo, ImplBlockInfo, MethodInfo, TraitInfo, TypeInfo};
use treesitter_mcp::tools::ApplySymbolEdit;

fn f(name: &str, line: usize, end_line: usize) -> FunctionInfo {
    FunctionInfo { name: name.to_string(), line, end_line }
}

fn m(name: &str, line: usize, end_line: usize) -> MethodInfo {
    MethodInfo { name: name.to_string(), line, end_line }
}

fn shape() -> FileShape {
    FileShape {
        functions: vec![f("alpha", 1, 1), f("beta", 2, 3)],
        structs: vec![TypeInfo { name: "Point".to_string(), line: 4, end_line: 4 }],
        classes: vec![ClassInfo { name: "C".to_string(), line: 5, end_line: 7, methods: vec![f("run", 6, 6)] }],
        impl_blocks: vec![ImplBlockInfo { target_type: "Point".to_string(), methods: vec![m("norm", 8, 9)] }],
        interfaces: vec![],
        traits: vec![TraitInfo { name: "T".to_string(), methods: vec![m("norm", 10, 10), m("shape", 11, 11)] }],
    }
}

fn edit(symbol: &str, body: &str) -> ApplySymbolEdit {
    ApplySymbolEdit {
        file_path: "f.rs".to_string(),
        symbol_name: symbol.to_string(),
        new_body: body.to_string(),
        dry_run: Some(true),
    }
}

#[test]
fn find_span_searches_in_outline_order() {
    let s = shape();
    assert_eq!(find_span(&s, "beta"), Some((2, 3)));
    assert_eq!(find_span(&s, "Point"), Some((4, 4)));
    assert_eq!(find_span(&s, "C"), Some((5, 7)));
    assert_eq!(find_span(&s, "run"), Some((6, 6)));
    // the impl-block method comes before the trait method of the same name
    assert_eq!(find_span(&s, "norm"), Some((8, 9)));
    assert_eq!(find_span(&s, "shape"), Some((11, 11)));
    assert_eq!(find_span(&s, "missing"), None);
}

#[test]
fn splice_replaces_the_span_and_keeps_final_newline() {
    let src = "a\nb\nc\nd\n";
    let s = FileShape { functions: vec![f("beta", 2, 3)], ..shape() };
    let plan = plan_symbol_edit(&edit("beta", "NEW"), src, &s).unwrap();
    assert_eq!(plan.updated, "a\nNEW\nd\n");
    assert_eq!(plan.replaced, 2);
}

#[test]
fn splice_without_final_newline() {
    let s = FileShape { functions: vec![f("alpha", 1, 9)], ..shape() };
    let plan = plan_symbol_edit(&edit("alpha", "X"), "one\ntwo", &s).unwrap();
    assert_eq!(plan.updated, "X");
    assert_eq!(plan.replaced, 2);
}

#[test]
fn splice_errors() {
    let e = plan_symbol_edit(&edit("nope", "X"), "a\n", &shape()).err().unwrap();
    assert_eq!(e.kind, ToolErrorKind::NotFound);
    assert_eq!(e.message, "Symbol 'nope' not found in f.rs");
    let far = FileShape { functions: vec![f("alpha", 7, 8)], ..shape() };
    let e = plan_symbol_edit(&edit("alpha", "X"), "a\n", &far).err().unwrap();
    assert_eq!(e.kind, ToolErrorKind::Other);
    assert_eq!(e.message, "symbol span out of range");
}

#[test]
fn blank_body_is_refused() {
    assert!(check_new_body(&edit("a", "fn x() {}")).is_ok());
    let e = check_new_body(&edit("a", " \n\t ")).err().unwrap();
    assert_eq!(e.kind, ToolErrorKind::InvalidInput);
    assert_eq!(e.message, "'new_body' must not be empty");
}

#[test]
fn edit_answer_text() {
    assert_eq!(
        edit_answer("src/f.rs", "beta", true, 2, true),
        "{\"dry_run\":true,\"hint\":\"verify with parse_diff then affected_by_diff before tests\",\"p\":\"src/f.rs\",\"parses\":true,\"replaced_lines\":2,\"sym\":\"beta\"}"
    );
}
