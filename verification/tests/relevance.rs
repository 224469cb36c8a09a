use treesitter_mcp::relevant::{collect_relevant_tests, lookup_lines, relevant_tests_json, LineSymbol, Relevance, TestFileScan};

fn scan(path: &str, rel: &str, usage_text: &str, lookups: Vec<(usize, &str)>) -> TestFileScan {
    TestFileScan {
        path: path.to_string(),
        rel: rel.to_string(),
        usage_text: usage_text.to_string(),
        lookups: lookups.into_iter().map(|(line, s)| LineSymbol { line, symbol: s.to_string() }).collect(),
    }
}

fn project() -> Vec<TestFileScan> {
    let usages = [
        "tests/parser_test.rs|3|1|definition|fn parse()|",
        "tests/parser_test.rs|20|9|reference|use parse;|tests::other",
        "tests/parser_test.rs|12|5|call|let v = parse(x);|tests::parses_ok",
        "tests/parser_test.rs|14|3|reference|parse (y)|tests::parses_ok",
    ]
    .join("\n");
    vec![
        scan("/p/src/lib.rs", "src/lib.rs", "src/lib.rs|1|1|call|parse(z)|run", vec![]),
        scan("/p/tests/parser_test.rs", "tests/parser_test.rs", &usages, vec![(12, "parses_ok"), (20, "")]),
        scan("/p/tests/parse_misc.rs", "tests/parse_misc.rs", "", vec![]),
        scan("/p/tests/other.rs", "tests/other.rs", "", vec![]),
    ]
}

#[test]
fn relevant_tests_best_first() {
    let tests = collect_relevant_tests(&project(), "parse", "parse");
    let got: Vec<(String, String, usize, Relevance)> =
        tests.iter().map(|t| (t.file.clone(), t.test_fn.clone(), t.line, t.relevance)).collect();
    assert_eq!(
        got,
        vec![
            ("tests/parser_test.rs".to_string(), "parses_ok".to_string(), 12, Relevance::Direct),
            ("tests/parser_test.rs".to_string(), "other".to_string(), 20, Relevance::Indirect),
            ("tests/parse_misc.rs".to_string(), String::new(), 1, Relevance::SameModule),
        ]
    );
}

#[test]
fn relevant_tests_answer_pages() {
    let tests = collect_relevant_tests(&project(), "parse", "parse");
    assert_eq!(
        relevant_tests_json(&tests, "parse", 0, None),
        "{\"h\":\"test_file|test_fn|line|relevance\",\"offset\":0,\"sym\":\"parse\",\"tests\":\"tests/parser_test.rs|parses_ok|12|direct\\ntests/parser_test.rs|other|20|indirect\\ntests/parse_misc.rs||1|same_module\",\"total\":3}"
    );
    assert_eq!(
        relevant_tests_json(&tests, "parse", 1, Some(1)),
        "{\"h\":\"test_file|test_fn|line|relevance\",\"offset\":1,\"sym\":\"parse\",\"tests\":\"tests/parser_test.rs|other|20|indirect\",\"total\":3}"
    );
}

#[test]
fn relevant_tests_usage_lines() {
    let text = "a.rs|3|1|definition|fn f()|\na.rs|7|2|call|f()|t\na.rs|x|2|call|f()|t";
    assert_eq!(lookup_lines(text), vec![7, 1]);
}
