use treesitter_mcp::batch::{
    batch_answer, batch_feed, batch_finish, batch_requests, batch_start, batch_tokenizer, outcome_json, BatchCall,
    BatchRequest, ItemOutcome, UsagesArgs, ViewArgs,
};
use treesitter_mcp::error::ToolErrorKind;
use treesitter_mcp::value::{Json, JsonNumber};

fn obj(members: Vec<(&str, Json)>) -> Json {
    let mut m: Vec<(String, Json)> = members.into_iter().map(|(k, v)| (k.to_string(), v)).collect();
    m.sort_by(|a, b| a.0.cmp(&b.0));
    Json::Object(m)
}

fn s(t: &str) -> Json {
    Json::Str(t.to_string())
}

fn num(n: u64) -> Json {
    Json::Number(JsonNumber { unsigned: Some(n), text: n.to_string() })
}

fn args(items: Vec<Json>) -> Json {
    obj(vec![("items", Json::Array(items))])
}

fn requests(a: Json) -> (Vec<BatchRequest>, u64) {
    match batch_requests(a) {
        Ok(r) => r,
        Err(e) => panic!("unexpected error: {}", e.message),
    }
}

fn error_of(a: Json) -> (ToolErrorKind, String) {
    match batch_requests(a) {
        Ok(_) => panic!("expected an error"),
        Err(e) => (e.kind, e.message),
    }
}

#[test]
fn batch_missing_items_is_invalid_input() {
    let (kind, msg) = error_of(obj(vec![("max_tokens", num(10))]));
    assert_eq!(kind, ToolErrorKind::InvalidInput);
    assert_eq!(msg, "Missing or invalid 'items' argument");
    let (_, msg) = error_of(obj(vec![("items", s("a.rs"))]));
    assert_eq!(msg, "Missing or invalid 'items' argument");
}

#[test]
fn batch_item_count_is_bounded() {
    let (kind, msg) = error_of(args(vec![]));
    assert_eq!(kind, ToolErrorKind::InvalidInput);
    assert_eq!(msg, "'items' must have 1..=20 entries");
    let many: Vec<Json> = (0..21).map(|_| obj(vec![("file_path", s("a.rs"))])).collect();
    let (_, msg) = error_of(args(many));
    assert_eq!(msg, "'items' must have 1..=20 entries");
    let twenty: Vec<Json> = (0..20).map(|_| obj(vec![("file_path", s("a.rs"))])).collect();
    assert_eq!(requests(args(twenty)).0.len(), 20);
}

#[test]
fn batch_item_without_file_is_named() {
    let items = vec![
        obj(vec![("file_path", s("a.rs"))]),
        obj(vec![("focus_symbol", s("f"))]),
        obj(vec![("file_path", num(3))]),
    ];
    let (kind, msg) = error_of(args(items));
    assert_eq!(kind, ToolErrorKind::InvalidInput);
    assert_eq!(msg, "items[1] missing 'file_path'");
}

#[test]
fn batch_requests_defaults() {
    let items = vec![
        obj(vec![("file_path", s("src/a.rs")), ("focus_symbol", s("run")), ("detail", s("full"))]),
        obj(vec![("file_path", s("src/b.rs")), ("comment_mode", s("leading"))]),
        obj(vec![("file_path", s("src/c.rs")), ("focus_symbol", Json::Null), ("include_deps", Json::Bool(true))]),
        obj(vec![("file_path", s("src/d.rs")), ("focus_symbol", s("x")), ("isolate", Json::Bool(false))]),
    ];
    let (reqs, max) = requests(args(items));
    assert_eq!(max, 4000);
    assert_eq!(reqs[0].key, "src/a.rs::run");
    let a0 = view_args(&reqs[0]);
    assert_eq!(a0.file_path, "src/a.rs");
    assert_eq!(a0.detail.as_deref(), Some("full"));
    assert_eq!(a0.focus_symbol.as_deref(), Some("run"));
    assert_eq!(a0.isolate, Some(true));
    assert!(matches!(a0.include_deps, Json::Bool(false)));
    assert_eq!(reqs[1].key, "src/b.rs");
    let a1 = view_args(&reqs[1]);
    assert_eq!(a1.isolate, None);
    assert_eq!(a1.comment_mode.as_deref(), Some("leading"));
    assert_eq!(reqs[2].key, "src/c.rs");
    let a2 = view_args(&reqs[2]);
    assert_eq!(a2.focus_symbol, None);
    assert_eq!(a2.isolate, Some(true));
    assert!(matches!(a2.include_deps, Json::Bool(true)));
    assert_eq!(view_args(&reqs[3]).isolate, Some(false));
}

fn view_args(r: &BatchRequest) -> &ViewArgs {
    match &r.call {
        BatchCall::View(a) => a,
        BatchCall::Usages(_) => panic!("expected a view"),
    }
}

fn usages_args(r: &BatchRequest) -> &UsagesArgs {
    match &r.call {
        BatchCall::Usages(u) => u,
        BatchCall::View(_) => panic!("expected a usage search"),
    }
}

#[test]
fn batch_usages_item_is_keyed_by_symbol_and_path() {
    let items = vec![
        obj(vec![("file_path", s("/r/c.rs")), ("focus_symbol", s("alpha"))]),
        obj(vec![("kind", s("usages")), ("symbol", s("alpha")), ("path", s("/r"))]),
    ];
    let (reqs, _) = requests(args(items));
    assert_eq!(reqs[0].key, "/r/c.rs::alpha");
    assert_eq!(reqs[1].key, "usages::alpha@/r");
    let u = usages_args(&reqs[1]);
    assert_eq!(u.symbol, "alpha");
    assert_eq!(u.path, "/r");
}

#[test]
fn batch_null_kind_is_a_view() {
    let items = vec![obj(vec![
        ("file_path", s("/t/a.py")),
        ("focus_symbol", s("foo")),
        ("detail", Json::Null),
        ("kind", Json::Null),
        ("symbol", Json::Null),
        ("path", Json::Null),
    ])];
    let (reqs, _) = requests(args(items));
    assert_eq!(reqs.len(), 1);
    assert!(reqs[0].key.contains("foo") && !reqs[0].key.starts_with("usages::"));
    let a = view_args(&reqs[0]);
    assert_eq!(a.detail, None);
    assert_eq!(a.isolate, Some(true));
}

#[test]
fn batch_usages_item_needs_symbol_and_path() {
    let (_, msg) = error_of(args(vec![obj(vec![("kind", s("usages")), ("path", s("/r"))])]));
    assert_eq!(msg, "items[0] missing 'symbol'");
    let items = vec![
        obj(vec![("file_path", s("a.rs"))]),
        obj(vec![("kind", s("usages")), ("symbol", s("alpha"))]),
    ];
    let (_, msg) = error_of(args(items));
    assert_eq!(msg, "items[1] missing 'path'");
}

#[test]
fn batch_max_tokens_given() {
    let a = obj(vec![("items", Json::Array(vec![obj(vec![("file_path", s("a.rs"))])])), ("max_tokens", num(50))]);
    assert_eq!(requests(a).1, 50);
}

#[test]
fn batch_outcome_framing() {
    assert_eq!(outcome_json(&ItemOutcome::Json("{\"a\":1}".to_string())), "{\"a\":1}");
    assert_eq!(outcome_json(&ItemOutcome::Raw("plain \"text\"".to_string())), "{\"raw\":\"plain \\\"text\\\"\"}");
    assert_eq!(outcome_json(&ItemOutcome::Failed("File not found".to_string())), "{\"error\":\"File not found\"}");
}

fn view(key: &str) -> BatchRequest {
    let items = vec![obj(vec![("file_path", s(key))])];
    requests(args(items)).0.remove(0)
}

#[test]
fn batch_answer_keeps_key_order() {
    let tok = batch_tokenizer().unwrap_or_else(|e| panic!("{}", e.message));
    let reqs = vec![view("b.rs"), view("a.rs"), view("b.rs")];
    let outcomes = vec![
        ItemOutcome::Json("{\"v\":1}".to_string()),
        ItemOutcome::Failed("boom".to_string()),
        ItemOutcome::Json("{\"v\":2}".to_string()),
    ];
    let text = batch_answer(&tok, &reqs, &outcomes, 4000).unwrap();
    assert_eq!(text, "{\"items\":{\"a.rs\":{\"error\":\"boom\"},\"b.rs\":{\"v\":2}}}");
}

#[test]
fn batch_answer_zero_budget_drops_everything() {
    let tok = batch_tokenizer().unwrap_or_else(|e| panic!("{}", e.message));
    let reqs = vec![view("a.rs"), view("b.rs")];
    let outcomes = vec![ItemOutcome::Json("{\"v\":1}".to_string()), ItemOutcome::Json("{\"v\":2}".to_string())];
    let text = batch_answer(&tok, &reqs, &outcomes, 0).unwrap();
    assert_eq!(text, "{\"@\":{\"t\":true},\"items\":{}}");
}

#[test]
fn batch_answer_trims_greatest_keys() {
    let tok = batch_tokenizer().unwrap_or_else(|e| panic!("{}", e.message));
    let long = format!("{{\"body\":\"{}\"}}", "word ".repeat(200));
    let reqs = vec![view("a.rs"), view("z.rs")];
    let outcomes = vec![ItemOutcome::Json("{\"v\":1}".to_string()), ItemOutcome::Json(long)];
    let text = batch_answer(&tok, &reqs, &outcomes, 40).unwrap();
    assert_eq!(text, "{\"@\":{\"t\":true},\"items\":{\"a.rs\":{\"v\":1}}}");
}

#[test]
fn batch_feed_stops_over_budget() {
    let tok = batch_tokenizer().unwrap_or_else(|e| panic!("{}", e.message));
    let mut fill = batch_start();
    batch_feed(&tok, &mut fill, "a.rs", &ItemOutcome::Raw("x".to_string()), 1000).unwrap();
    assert!(!fill.stopped);
    assert_eq!(fill.entries.len(), 1);
    batch_feed(&tok, &mut fill, "a.rs", &ItemOutcome::Raw("y".to_string()), 1).unwrap();
    assert!(fill.stopped);
    assert_eq!(fill.entries.len(), 1);
    assert_eq!(fill.entries[0].1, "{\"raw\":\"y\"}");
    let text = batch_finish(&tok, fill, 1000).unwrap();
    assert_eq!(text, "{\"@\":{\"t\":true},\"items\":{\"a.rs\":{\"raw\":\"y\"}}}");
}

fn answer_of(a: Json, outcome: &str) -> serde_json::Value {
    let (reqs, max) = requests(a);
    let outcomes: Vec<ItemOutcome> = reqs.iter().map(|_| ItemOutcome::Json(outcome.to_string())).collect();
    let tok = batch_tokenizer().unwrap_or_else(|e| panic!("{}", e.message));
    serde_json::from_str(&batch_answer(&tok, &reqs, &outcomes, max).unwrap()).unwrap()
}

#[test]
fn batch_view_fetches_two_symbols() {
    let f = "/tmp/batch_case/c.rs";
    let a = args(vec![
        obj(vec![("file_path", s(f)), ("focus_symbol", s("alpha"))]),
        obj(vec![("file_path", s(f)), ("focus_symbol", s("beta"))]),
    ]);
    let v = answer_of(a, "{\"f\":\"pub fn x() {}\"}");
    assert_eq!(v["items"].as_object().unwrap().len(), 2);
}

#[test]
fn batch_view_mixes_view_and_usages() {
    let f = "/tmp/batch_case/c.rs";
    let root = "/tmp/batch_case";
    let a = args(vec![
        obj(vec![("file_path", s(f)), ("focus_symbol", s("alpha"))]),
        obj(vec![("kind", s("usages")), ("symbol", s("alpha")), ("path", s(root))]),
    ]);
    let v = answer_of(a, "{\"u\":\"\"}");
    let items = v["items"].as_object().unwrap();
    assert_eq!(items.len(), 2);
    assert!(items.keys().any(|k| k.starts_with("usages::alpha@")));
}
