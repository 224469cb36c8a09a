use treesitter_mcp::prompt_snippet::{snippet, SNIPPET};

#[test]
fn snippet_stays_short() {
    let words = SNIPPET.split_whitespace().count();
    assert!(words <= 200, "snippet grew to {words} words");
    assert!(SNIPPET.contains("minimal_edit_context"));
    assert!(SNIPPET.contains("search_text"));
}

#[test]
fn snippet_returns_the_constant() {
    assert_eq!(snippet(), SNIPPET);
    assert!(snippet().starts_with("treesitter-mcp rules:"));
}
