use serde_json::Value;
use treesitter_mcp::error::ToolErrorKind;
use treesitter_mcp::rename::{check_new_name, rename_answer, unescape};
use treesitter_mcp::tools::RenamePreview;

fn preview(new_name: &str) -> RenamePreview {
    RenamePreview {
        symbol: "add".to_string(),
        new_name: new_name.to_string(),
        path: ".".to_string(),
        offset: None,
        limit: None,
        max_tokens: None,
    }
}

#[test]
fn unescape_undoes_row_escapes_left_to_right() {
    assert_eq!(unescape("a\\|b"), "a|b");
    assert_eq!(unescape("x\\ny"), "x\ny");
    assert_eq!(unescape("c\\rd"), "c\rd");
    assert_eq!(unescape("e\\\\f"), "e\\f");
    // escapes are read left to right: `\\n` is an escaped backslash, then `n`
    assert_eq!(unescape("\\\\n"), "\\n");
    assert_eq!(unescape(r"C:\\new"), r"C:\new");
    assert_eq!(unescape("a\\"), "a\\");
    assert_eq!(unescape("\\q"), "\\q");
}

#[test]
fn new_name_must_be_bare() {
    assert!(check_new_name(&preview("add_two2")).is_ok());
    for bad in ["", "  ", "a-b", "a b", "é"] {
        let e = check_new_name(&preview(bad)).err().unwrap();
        assert_eq!(e.kind, ToolErrorKind::InvalidInput);
        assert_eq!(e.message, "'new_name' must be a bare identifier");
    }
}

const ROWS: &str = "b.py|3|5|call|x = add(1)|f|high|-\na.py|9|1|definition|def add|-|high|-\na.py|2|4|import|import add|-|high|-\nshort|row\na.py|1|7|call|add()|-|medium|-";

#[test]
fn edits_sorted_and_imports_skipped() {
    let text = rename_answer(&preview("plus"), ROWS).unwrap();
    let v: Value = serde_json::from_str(&text).unwrap();
    assert_eq!(v["total_edits"], 3);
    assert_eq!(v["files_modified"], 2);
    assert_eq!(
        v["edits"],
        "a.py|1|7|add|plus|medium\na.py|9|1|add|plus|high\nb.py|3|5|add|plus|high"
    );
    assert_eq!(v["h"], "file|line|col|old_text|new_text|confidence");
    assert_eq!(v["new_name"], "plus");
    assert_eq!(v["sym"], "add");
    assert!(v.get("@").is_none());
}

#[test]
fn edits_paged_count_files_of_the_page() {
    let mut a = preview("plus");
    a.offset = Some(2);
    let text = rename_answer(&a, ROWS).unwrap();
    let v: Value = serde_json::from_str(&text).unwrap();
    assert_eq!(v["files_modified"], 1);
    assert_eq!(v["offset"], 2);
    assert_eq!(v["edits"], "b.py|3|5|add|plus|high");
}

#[test]
fn budget_marks_paged_results() {
    let mut a = preview("plus");
    a.limit = Some(1);
    a.max_tokens = Some(1000);
    let text = rename_answer(&a, ROWS).unwrap();
    let v: Value = serde_json::from_str(&text).unwrap();
    assert_eq!(v["@"]["t"], true);
    assert_eq!(v["edits"], "a.py|1|7|add|plus|medium");
}

#[test]
fn unparsable_numbers_read_as_zero() {
    let text = rename_answer(&preview("plus"), "f.py|x|-3|call|c|s|low|o").unwrap();
    let v: Value = serde_json::from_str(&text).unwrap();
    assert_eq!(v["edits"], "f.py|0|0|add|plus|low");
}

#[test]
fn unescape_undoes_row_escaping() {
    for f in ["C:\\new", "a|b\\c\nd\re", "\\\\n", "plain", ""] {
        let escaped = treesitter_mcp::rows::format_row(&vec![f.to_string()]);
        assert_eq!(unescape(&escaped), f);
    }
}
