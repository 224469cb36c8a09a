use serde_json::Value;
use treesitter_mcp::modmap::{module_map_answer, ModuleFile};
use treesitter_mcp::shape::{ClassInfo, FileShape, FunctionInfo, InterfaceInfo, TraitInfo, TypeInfo};
use treesitter_mcp::tools::ModuleMap;
use treesitter_mcp::typemap::{looks_like_glob, select_types, type_kind_str, type_to_row, TypeDefinition, TypeKind};

fn ty(name: &str, file: &str, line: usize, usage: usize) -> TypeDefinition {
    TypeDefinition {
        name: name.to_string(),
        kind: TypeKind::Struct,
        file: file.to_string(),
        rel: file.to_string(),
        line,
        usage_count: usage,
    }
}

#[test]
fn kind_names() {
    assert_eq!(type_kind_str(TypeKind::TypeAlias), "type_alias");
    assert_eq!(type_kind_str(TypeKind::NamedTuple), "named_tuple");
    assert_eq!(type_kind_str(TypeKind::Interface), "interface");
}

#[test]
fn glob_patterns() {
    assert!(looks_like_glob("src/*.rs"));
    assert!(looks_like_glob("a?"));
    assert!(looks_like_glob("{a,b}"));
    assert!(!looks_like_glob("Point"));
}

#[test]
fn type_row_fields() {
    let mut t = ty("Pt|x", "src/a.rs", 3, 7);
    t.kind = TypeKind::Enum;
    assert_eq!(type_to_row(&t), "Pt\\|x|enum|src/a.rs|3|7");
}

#[test]
fn types_sorted_by_usage_then_name() {
    let types = vec![ty("B", "b.rs", 1, 1), ty("A", "a.rs", 2, 5), ty("C", "a.rs", 1, 5)];
    let (page, total) = select_types(types, true, None, 0, None);
    let names: Vec<&str> = page.iter().map(|t| t.name.as_str()).collect();
    assert_eq!(names, vec!["A", "C", "B"]);
    assert_eq!(total, 3);
}

#[test]
fn types_sorted_by_place_filtered_and_paged() {
    let types = vec![ty("Bar", "b.rs", 1, 1), ty("Foo", "a.rs", 9, 0), ty("FooBar", "a.rs", 2, 0)];
    let (page, total) = select_types(types, false, Some("Bar"), 1, Some(5));
    let names: Vec<&str> = page.iter().map(|t| t.name.as_str()).collect();
    assert_eq!(total, 2);
    assert_eq!(names, vec!["Bar"]);
}

fn fun(name: &str) -> FunctionInfo {
    FunctionInfo { name: name.to_string(), line: 1, end_line: 1 }
}

fn outline(functions: Vec<&str>, structs: Vec<&str>) -> FileShape {
    FileShape {
        functions: functions.into_iter().map(fun).collect(),
        structs: structs.into_iter().map(|s| TypeInfo { name: s.to_string(), line: 1, end_line: 1 }).collect(),
        classes: vec![],
        impl_blocks: vec![],
        interfaces: vec![],
        traits: vec![],
    }
}

fn map_args(max_tokens: Option<u32>, offset: Option<u32>, limit: Option<u32>) -> ModuleMap {
    ModuleMap { path: ".".to_string(), max_tokens, offset, limit }
}

#[test]
fn module_rows_sorted_with_exports() {
    let files = vec![
        ModuleFile { rel: "src/b.rs".to_string(), shape: Some(outline(vec!["zeta", "alpha", "alpha"], vec!["Beta"])) },
        ModuleFile { rel: "main.rs".to_string(), shape: Some(outline(vec!["main"], vec![])) },
        ModuleFile { rel: "empty.rs".to_string(), shape: Some(outline(vec![], vec![])) },
        ModuleFile { rel: "odd.txt".to_string(), shape: None },
    ];
    let text = module_map_answer(&map_args(None, None, None), &files).unwrap();
    let v: Value = serde_json::from_str(&text).unwrap();
    assert_eq!(v["total"], 2);
    assert_eq!(v["modules"], ".|main|main.rs\nsrc|Beta, alpha, zeta|src/b.rs");
    assert_eq!(v["h"], "module|exports|file");
    assert_eq!(v["hint"], "internal vs public is heuristic; visibility rules vary by language");
}

#[test]
fn module_exports_capped_at_twelve() {
    let names: Vec<String> = (0..15).map(|i| format!("f{:02}", i)).collect();
    let shape = FileShape {
        functions: names.iter().map(|n| fun(n)).collect(),
        structs: vec![],
        classes: vec![ClassInfo { name: "K".to_string(), line: 1, end_line: 1, methods: vec![] }],
        impl_blocks: vec![],
        interfaces: vec![InterfaceInfo { name: "I".to_string(), methods: vec![] }],
        traits: vec![TraitInfo { name: "T".to_string(), methods: vec![] }],
    };
    let files = vec![ModuleFile { rel: "m.rs".to_string(), shape: Some(shape) }];
    let text = module_map_answer(&map_args(None, None, None), &files).unwrap();
    let v: Value = serde_json::from_str(&text).unwrap();
    let row = v["modules"].as_str().unwrap();
    let exports = row.split('|').nth(1).unwrap();
    assert_eq!(exports.split(", ").count(), 12);
    assert!(exports.starts_with("I, K, T, f00"));
}

#[test]
fn module_paging_and_budget() {
    let files: Vec<ModuleFile> = (0..30)
        .map(|i| ModuleFile { rel: format!("d/f{:02}.rs", i), shape: Some(outline(vec!["run"], vec![])) })
        .collect();
    let paged = module_map_answer(&map_args(None, Some(28), Some(5)), &files).unwrap();
    let v: Value = serde_json::from_str(&paged).unwrap();
    assert_eq!(v["total"], 30);
    assert_eq!(v["offset"], 28);
    assert_eq!(v["modules"].as_str().unwrap().lines().count(), 2);
    let tight = module_map_answer(&map_args(Some(30), None, None), &files).unwrap();
    let w: Value = serde_json::from_str(&tight).unwrap();
    assert_eq!(w["@"]["t"], true);
    assert!(w["modules"].as_str().unwrap().lines().count() < 30);
}
