use serde_json::Value;
use treesitter_mcp::error::ToolErrorKind;
use treesitter_mcp::planner::plan_context;
use treesitter_mcp::value::{Json, JsonNumber};

fn obj(members: Vec<(&str, Json)>) -> Json {
    let mut m: Vec<(String, Json)> = members.into_iter().map(|(k, v)| (k.to_string(), v)).collect();
    m.sort_by(|a, b| a.0.cmp(&b.0));
    Json::Object(m)
}

fn s(t: &str) -> Json {
    Json::Str(t.to_string())
}

fn plan(members: Vec<(&str, Json)>) -> Value {
    serde_json::from_str(&plan_context(&obj(members)).unwrap()).unwrap()
}

#[test]
fn rename_task_gets_two_steps() {
    let v = plan(vec![("task", s("Rename the helper")), ("symbol", s("add")), ("budget", Json::Number(JsonNumber { unsigned: Some(1000), text: "1000".to_string() }))]);
    assert_eq!(v["budget"], 1000);
    assert_eq!(v["steps"][0]["tool"], "rename_preview");
    assert_eq!(v["steps"][0]["budget"], 400);
    assert_eq!(v["steps"][0]["args"]["path"], "src");
    assert_eq!(v["steps"][1]["tool"], "relevant_tests");
    assert_eq!(v["steps"][1]["budget"], 200);
    assert_eq!(v["estimated_tokens"], 600);
    assert_eq!(v["fits"], true);
    assert_eq!(v["note"], "sequence fits budget");
}

#[test]
fn string_task_estimates_first() {
    let v = plan(vec![("task", s("find the error message")), ("symbol_name", s("E42"))]);
    assert_eq!(v["steps"][0]["tool"], "search_text");
    assert_eq!(v["steps"][0]["args"]["estimate"], true);
    assert_eq!(v["steps"][0]["args"]["pattern"], "E42");
    assert_eq!(v["estimated_tokens"], 200);
}

#[test]
fn default_task_bootstraps_and_small_budget_fits() {
    let v = plan(vec![("task", s("orient me")), ("budget", Json::Number(JsonNumber { unsigned: Some(100), text: "100".to_string() }))]);
    assert_eq!(v["steps"][0]["tool"], "session_bootstrap");
    assert_eq!(v["steps"][0]["budget"], 60);
    assert_eq!(v["fits"], true);
}

#[test]
fn string_task_small_budget_caps_search() {
    let v = plan(vec![("task", s("literal key")), ("budget", Json::Number(JsonNumber { unsigned: Some(50), text: "50".to_string() }))]);
    assert_eq!(v["steps"][0]["budget"], 50);
    assert_eq!(v["fits"], true);
    assert_eq!(v["note"], "sequence fits budget");
}

#[test]
fn exact_plan_text() {
    let text = plan_context(&obj(vec![("task", s("review"))])).unwrap();
    assert_eq!(
        text,
        "{\"budget\":3000,\"estimated_tokens\":1800,\"fits\":true,\"note\":\"sequence fits budget\",\"steps\":[{\"args\":{\"file_path\":\"\"},\"budget\":1800,\"note\":\"diff + impact + tests bundle\",\"tool\":\"review_context\"}],\"task\":\"review\"}"
    );
}

#[test]
fn missing_task() {
    let e = plan_context(&obj(vec![])).err().unwrap();
    assert_eq!(e.kind, ToolErrorKind::InvalidInput);
    assert_eq!(e.message, "Missing or invalid 'task' argument");
}

#[test]
fn small_budget_search_step_fits() {
    let v = plan(vec![
        ("task", s("trace string key")),
        ("budget", Json::Number(JsonNumber { unsigned: Some(100), text: "100".to_string() })),
    ]);
    assert_eq!(v["steps"][0]["tool"], "search_text");
    assert_eq!(v["steps"][0]["budget"], 100);
    assert_eq!(v["estimated_tokens"], 100);
    assert_eq!(v["fits"], true);
}
