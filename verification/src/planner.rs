//! The context budget advisor: from a task description and a token budget,
//! an ordered list of tool calls with a budget each, chosen by keywords.

use vstd::prelude::*;
use vstd::string::{StringExecFns, StrSliceExecFns};
use crate::error::{ToolError, ToolErrorKind};
use crate::value::{Json, json_get, json_str, opt_str, opt_u64, get, as_str, as_u64};
use crate::text::{lowercase, to_lower, contains_seq, str_contains, decimal, push_decimal};
use crate::json::{json_quoted, append_quoted};

verus! {

/// One recommended call: the tool, its arguments as a JSON object, its
/// token budget and why.
pub struct PlanStep {
    pub tool: Seq<char>,
    pub args: Seq<char>,
    pub budget: nat,
    pub note: Seq<char>,
}

/// A plain text member `"key":"value"`.
pub open spec fn text_member(key: Seq<char>, value: Seq<char>) -> Seq<char> {
    json_quoted(key) + ":"@ + json_quoted(value)
}

/// The branch a task takes (0 to 7), by the first rule that fits: rename,
/// test, call or impact, edit, string literal, type, review, anything else.
pub open spec fn plan_branch(t: Seq<char>, file_path: Seq<char>, symbol: Seq<char>) -> nat {
    if contains_seq(t, "rename"@) && symbol.len() > 0 {
        0
    } else if contains_seq(t, "test"@) && symbol.len() > 0 {
        1
    } else if (contains_seq(t, "call"@) || contains_seq(t, "impact"@) || contains_seq(t, "caller"@)) && symbol.len() > 0 {
        2
    } else if (contains_seq(t, "edit"@) || contains_seq(t, "fix"@) || contains_seq(t, "change"@)) && symbol.len() > 0
        && file_path.len() > 0 {
        3
    } else if contains_seq(t, "string"@) || contains_seq(t, "key"@) || contains_seq(t, "literal"@)
        || contains_seq(t, "error message"@) {
        4
    } else if contains_seq(t, "type"@) {
        5
    } else if contains_seq(t, "review"@) || contains_seq(t, "diff"@) {
        6
    } else {
        7
    }
}

/// The steps of a branch, for budget `b`.
pub open spec fn plan_steps(branch: nat, b: nat, path: Seq<char>, file_path: Seq<char>, symbol: Seq<char>) -> Seq<PlanStep> {
    let tests_args = "{"@ + text_member("file_path"@, file_path) + ","@ + text_member("symbol_name"@, symbol) + "}"@;
    if branch == 0 {
        seq![
            PlanStep {
                tool: "rename_preview"@,
                args: "{"@ + text_member("new_name"@, "<new>"@) + ","@ + text_member("path"@, path) + ","@
                    + text_member("symbol"@, symbol) + "}"@,
                budget: b * 2 / 5,
                note: "blast radius first; fill new_name"@,
            },
            PlanStep { tool: "relevant_tests"@, args: tests_args, budget: b / 5, note: "tests to run after"@ },
        ]
    } else if branch == 1 {
        seq![PlanStep { tool: "relevant_tests"@, args: tests_args, budget: b / 2, note: "targeted tests"@ }]
    } else if branch == 2 {
        seq![PlanStep {
            tool: "call_graph"@,
            args: "{"@ + text_member("file_path"@, file_path) + ",\"rank\":true,"@ + text_member("symbol_name"@, symbol) + "}"@,
            budget: b / 2,
            note: "ranked callers/callees"@,
        }]
    } else if branch == 3 {
        seq![
            PlanStep { tool: "minimal_edit_context"@, args: tests_args, budget: b * 2 / 5, note: "smallest edit context"@ },
            PlanStep {
                tool: "verify_edit"@,
                args: "{"@ + text_member("file_path"@, file_path) + ","@ + text_member("target_symbol"@, symbol) + "}"@,
                budget: b / 5,
                note: "after editing"@,
            },
        ]
    } else if branch == 4 {
        seq![PlanStep {
            tool: "search_text"@,
            args: "{\"estimate\":true,"@ + text_member("path"@, path) + ","@ + text_member("pattern"@, symbol) + "}"@,
            budget: if b < 200 { b } else { 200 },
            note: "estimate first, then real search"@,
        }]
    } else if branch == 5 {
        seq![PlanStep {
            tool: "type_map"@,
            args: "{\"count_usages\":false,"@ + text_member("path"@, path) + "}"@,
            budget: b / 2,
            note: "type locations, no usage counting"@,
        }]
    } else if branch == 6 {
        seq![PlanStep {
            tool: "review_context"@,
            args: "{"@ + text_member("file_path"@, file_path) + "}"@,
            budget: b * 3 / 5,
            note: "diff + impact + tests bundle"@,
        }]
    } else {
        seq![PlanStep {
            tool: "session_bootstrap"@,
            args: "{"@ + text_member("path"@, path) + "}"@,
            budget: b * 3 / 5,
            note: "orientation in one call"@,
        }]
    }
}

/// Whatever the branch, the step budgets add up to no more than the total.
pub proof fn law_plan_within_budget(branch: nat, b: nat, path: Seq<char>, file_path: Seq<char>, symbol: Seq<char>)
    ensures
        steps_total(plan_steps(branch, b, path, file_path, symbol)) <= b,
{
    let steps = plan_steps(branch, b, path, file_path, symbol);
    reveal_with_fuel(steps_total, 3);
    assert(steps.len() == 1 ==> steps.drop_last().len() == 0);
    assert(steps.len() == 2 ==> steps.drop_last().drop_last().len() == 0);
    if steps.len() == 2 {
        assert(steps_total(steps) == steps[0].budget + steps[1].budget);
    } else {
        assert(steps.len() == 1);
        assert(steps_total(steps) == steps[0].budget);
    }
}

/// The largest factor a branch multiplies the budget by.
pub open spec fn branch_factor(branch: nat) -> nat {
    if branch == 0 || branch == 3 { 2 } else if branch == 6 || branch == 7 { 3 } else { 1 }
}

/// A step as a JSON object.
pub open spec fn step_json(s: PlanStep) -> Seq<char> {
    "{\"args\":"@ + s.args + ",\"budget\":"@ + decimal(s.budget) + ",\"note\":"@ + json_quoted(s.note)
        + ",\"tool\":"@ + json_quoted(s.tool) + "}"@
}

/// The sum of the step budgets.
pub open spec fn steps_total(steps: Seq<PlanStep>) -> nat
    decreases steps.len(),
{
    if steps.len() == 0 { 0 } else { steps_total(steps.drop_last()) + steps.last().budget }
}

/// The steps as a JSON array.
pub open spec fn steps_array(steps: Seq<PlanStep>) -> Seq<char> {
    "["@ + crate::rows::join_with(steps.map_values(|s: PlanStep| step_json(s)), ","@) + "]"@
}

/// The request's fields: the task, the budget (3000 when absent), the
/// path (`src`), the file (empty) and the symbol (`symbol`, else
/// `symbol_name`, else empty).
pub open spec fn plan_budget(args: Json) -> nat {
    match opt_u64(json_get(args, "budget"@)) { Some(b) => b as nat, None => 3000 }
}

/// The path a plan names.
pub open spec fn plan_path(args: Json) -> Seq<char> {
    match opt_str(json_get(args, "path"@)) { Some(p) => p, None => "src"@ }
}

/// The file a plan names.
pub open spec fn plan_file(args: Json) -> Seq<char> {
    match opt_str(json_get(args, "file_path"@)) { Some(p) => p, None => seq![] }
}

/// The symbol a plan names.
pub open spec fn plan_symbol(args: Json) -> Seq<char> {
    match opt_str(json_get(args, "symbol"@)) {
        Some(s) => s,
        None => match opt_str(json_get(args, "symbol_name"@)) { Some(s) => s, None => seq![] },
    }
}

/// The branch a request takes.
pub open spec fn request_branch(args: Json) -> nat {
    match opt_str(json_get(args, "task"@)) {
        Some(task) => plan_branch(lowercase(task), plan_file(args), plan_symbol(args)),
        None => 7,
    }
}

/// The advice for a request with a task.
pub open spec fn plan_json(args: Json, task: Seq<char>) -> Seq<char> {
    let b = plan_budget(args);
    let steps = plan_steps(plan_branch(lowercase(task), plan_file(args), plan_symbol(args)), b, plan_path(args),
        plan_file(args), plan_symbol(args));
    let est = steps_total(steps);
    let fits = est <= b;
    "{\"budget\":"@ + decimal(b) + ",\"estimated_tokens\":"@ + decimal(est) + ",\"fits\":"@
        + (if fits { "true"@ } else { "false"@ }) + ",\"note\":"@
        + json_quoted(if fits { "sequence fits budget"@ } else { "over budget; raise budget or page with offset/limit"@ })
        + ",\"steps\":"@ + steps_array(steps) + ",\"task\":"@ + json_quoted(task) + "}"@
}

/// Writes `"key":"value"`.
fn push_member(out: &mut String, key: &str, value: &str)
    ensures
        final(out)@ == old(out)@ + text_member(key@, value@),
{
    append_quoted(out, key);
    out.append(":");
    append_quoted(out, value);
}

/// Writes one step.
fn push_step(out: &mut String, tool: &str, args: &str, budget: u64, note: &str)
    ensures
        final(out)@ == old(out)@ + step_json(PlanStep { tool: tool@, args: args@, budget: budget as nat, note: note@ }),
{
    out.append("{\"args\":");
    out.append(args);
    out.append(",\"budget\":");
    let mut n = String::new();
    crate::text::push_decimal_u64(&mut n, budget);
    out.append(n.as_str());
    out.append(",\"note\":");
    append_quoted(out, note);
    out.append(",\"tool\":");
    append_quoted(out, tool);
    out.append("}");
}

/// Writes a JSON object of text members given in key order.
fn object2(k1: &str, v1: &str, k2: &str, v2: &str) -> (r: String)
    ensures
        r@ == "{"@ + text_member(k1@, v1@) + ","@ + text_member(k2@, v2@) + "}"@,
{
    let mut out = String::from_str("{");
    push_member(&mut out, k1, v1);
    out.append(",");
    push_member(&mut out, k2, v2);
    out.append("}");
    proof {
        assert(out@ =~= "{"@ + text_member(k1@, v1@) + ","@ + text_member(k2@, v2@) + "}"@);
    }
    out
}

/// One step as an array.
proof fn lemma_array_one(x: PlanStep)
    ensures
        steps_array(seq![x]) == "["@ + step_json(x) + "]"@,
        steps_total(seq![x]) == x.budget,
{
    let js = seq![x].map_values(|s: PlanStep| step_json(s));
    assert(js =~= seq![step_json(x)]);
    assert(seq![x].drop_last() =~= Seq::<PlanStep>::empty());
    assert(steps_total(Seq::<PlanStep>::empty()) == 0);
    assert(seq![x].last() == x);
}

/// Two steps as an array.
proof fn lemma_array_two(x: PlanStep, y: PlanStep)
    ensures
        steps_array(seq![x, y]) == "["@ + step_json(x) + ","@ + step_json(y) + "]"@,
        steps_total(seq![x, y]) == x.budget + y.budget,
{
    let js = seq![x, y].map_values(|s: PlanStep| step_json(s));
    assert(js =~= seq![step_json(x), step_json(y)]);
    assert(js.drop_last() =~= seq![step_json(x)]);
    assert(crate::rows::join_with(seq![step_json(x)], ","@) == step_json(x));
    assert(seq![x, y].drop_last() =~= seq![x]);
    assert(seq![x].drop_last() =~= Seq::<PlanStep>::empty());
    assert(steps_total(Seq::<PlanStep>::empty()) == 0);
    assert(seq![x].last() == x);
    assert(seq![x, y].last() == y);
    assert(steps_total(seq![x]) == x.budget);
}

/// The steps of a rename task.
fn render_rename(b: u64, path: &str, file_path: &str, symbol: &str) -> (r: (String, u64))
    requires
        b * 2 <= u64::MAX,
    ensures
        ({
            let steps = plan_steps(0, b as nat, path@, file_path@, symbol@);
            r.0@ == steps_array(steps) && r.1 as nat == steps_total(steps)
        }),
{
    let ghost steps = plan_steps(0, b as nat, path@, file_path@, symbol@);
    let mut a1 = String::from_str("{");
    push_member(&mut a1, "new_name", "<new>");
    a1.append(",");
    push_member(&mut a1, "path", path);
    a1.append(",");
    push_member(&mut a1, "symbol", symbol);
    a1.append("}");
    let a2 = object2("file_path", file_path, "symbol_name", symbol);
    let mut out = String::from_str("[");
    push_step(&mut out, "rename_preview", a1.as_str(), b * 2 / 5, "blast radius first; fill new_name");
    out.append(",");
    push_step(&mut out, "relevant_tests", a2.as_str(), b / 5, "tests to run after");
    out.append("]");
    proof {
        assert(a1@ =~= steps[0].args);
        lemma_array_two(steps[0], steps[1]);
        assert(steps =~= seq![steps[0], steps[1]]);
        assert(out@ =~= steps_array(steps));
    }
    (out, b * 2 / 5 + b / 5)
}

/// The steps of an edit task.
fn render_edit(b: u64, path: &str, file_path: &str, symbol: &str) -> (r: (String, u64))
    requires
        b * 2 <= u64::MAX,
    ensures
        ({
            let steps = plan_steps(3, b as nat, path@, file_path@, symbol@);
            r.0@ == steps_array(steps) && r.1 as nat == steps_total(steps)
        }),
{
    let ghost steps = plan_steps(3, b as nat, path@, file_path@, symbol@);
    let a1 = object2("file_path", file_path, "symbol_name", symbol);
    let a2 = object2("file_path", file_path, "target_symbol", symbol);
    let mut out = String::from_str("[");
    push_step(&mut out, "minimal_edit_context", a1.as_str(), b * 2 / 5, "smallest edit context");
    out.append(",");
    push_step(&mut out, "verify_edit", a2.as_str(), b / 5, "after editing");
    out.append("]");
    proof {
        lemma_array_two(steps[0], steps[1]);
        assert(steps =~= seq![steps[0], steps[1]]);
        assert(out@ =~= steps_array(steps));
    }
    (out, b * 2 / 5 + b / 5)
}

/// The one step of a single-step task, given its pieces.
fn render_one(tool: &str, args: &str, budget: u64, note: &str) -> (r: (String, u64))
    ensures
        ({
            let steps = seq![PlanStep { tool: tool@, args: args@, budget: budget as nat, note: note@ }];
            r.0@ == steps_array(steps) && r.1 as nat == steps_total(steps)
        }),
{
    let mut out = String::from_str("[");
    push_step(&mut out, tool, args, budget, note);
    out.append("]");
    proof {
        lemma_array_one(PlanStep { tool: tool@, args: args@, budget: budget as nat, note: note@ });
        assert(out@ =~= steps_array(seq![PlanStep { tool: tool@, args: args@, budget: budget as nat, note: note@ }]));
    }
    (out, budget)
}

/// The steps of a branch as JSON, and their budget total.
fn render_steps(branch: u8, b: u64, path: &str, file_path: &str, symbol: &str) -> (r: (String, u64))
    requires
        branch <= 7,
        b * branch_factor(branch as nat) <= u64::MAX,
    ensures
        ({
            let steps = plan_steps(branch as nat, b as nat, path@, file_path@, symbol@);
            r.0@ == steps_array(steps) && r.1 as nat == steps_total(steps)
        }),
{
    if branch == 0 {
        return render_rename(b, path, file_path, symbol);
    }
    if branch == 3 {
        return render_edit(b, path, file_path, symbol);
    }
    if branch == 1 {
        let a = object2("file_path", file_path, "symbol_name", symbol);
        return render_one("relevant_tests", a.as_str(), b / 2, "targeted tests");
    }
    if branch == 2 {
        let mut a = String::from_str("{");
        push_member(&mut a, "file_path", file_path);
        a.append(",\"rank\":true,");
        push_member(&mut a, "symbol_name", symbol);
        a.append("}");
        proof {
            assert(a@ =~= plan_steps(2, b as nat, path@, file_path@, symbol@)[0].args);
        }
        return render_one("call_graph", a.as_str(), b / 2, "ranked callers/callees");
    }
    if branch == 4 {
        let mut a = String::from_str("{\"estimate\":true,");
        push_member(&mut a, "path", path);
        a.append(",");
        push_member(&mut a, "pattern", symbol);
        a.append("}");
        proof {
            assert(a@ =~= plan_steps(4, b as nat, path@, file_path@, symbol@)[0].args);
        }
        let cap: u64 = if b < 200 { b } else { 200 };
        return render_one("search_text", a.as_str(), cap, "estimate first, then real search");
    }
    if branch == 5 {
        let mut a = String::from_str("{\"count_usages\":false,");
        push_member(&mut a, "path", path);
        a.append("}");
        proof {
            assert(a@ =~= plan_steps(5, b as nat, path@, file_path@, symbol@)[0].args);
        }
        return render_one("type_map", a.as_str(), b / 2, "type locations, no usage counting");
    }
    if branch == 6 {
        let mut a = String::from_str("{");
        push_member(&mut a, "file_path", file_path);
        a.append("}");
        proof {
            assert(a@ =~= plan_steps(6, b as nat, path@, file_path@, symbol@)[0].args);
        }
        return render_one("review_context", a.as_str(), b * 3 / 5, "diff + impact + tests bundle");
    }
    let mut a = String::from_str("{");
    push_member(&mut a, "path", path);
    a.append("}");
    proof {
        assert(a@ =~= plan_steps(7, b as nat, path@, file_path@, symbol@)[0].args);
    }
    render_one("session_bootstrap", a.as_str(), b * 3 / 5, "orientation in one call")
}

/// The message for a request without a task.
pub open spec fn missing_task_message() -> Seq<char> {
    "Missing or invalid 'task' argument"@
}

/// Recommends an ordered list of tool calls for a task within a token
/// budget.
pub fn plan_context(args: &Json) -> (r: Result<String, ToolError>)
    requires
        plan_budget(*args) * branch_factor(request_branch(*args)) <= u64::MAX,
    ensures
        match opt_str(json_get(*args, "task"@)) {
            None => r matches Err(e) && e.kind == ToolErrorKind::InvalidInput && e.message@ == missing_task_message(),
            Some(task) => r matches Ok(t) && t@ == plan_json(*args, task),
        },
{
    let task = match as_str(get(args, "task")) {
        Some(t) => t,
        None => {
            return Err(ToolError {
                kind: ToolErrorKind::InvalidInput,
                message: String::from_str("Missing or invalid 'task' argument"),
            });
        },
    };
    let b: u64 = match as_u64(get(args, "budget")) { Some(v) => v, None => 3000 };
    let path: &str = match as_str(get(args, "path")) { Some(p) => p, None => "src" };
    let file_path: &str = match as_str(get(args, "file_path")) { Some(p) => p, None => "" };
    let symbol: &str = match as_str(get(args, "symbol")) {
        Some(s) => s,
        None => match as_str(get(args, "symbol_name")) { Some(s) => s, None => "" },
    };
    proof {
        reveal_strlit("");
        assert(""@ =~= Seq::<char>::empty());
    }
    let t = to_lower(task);
    let ts = t.as_str();
    let has_symbol = symbol.unicode_len() > 0;
    let branch: u8 = if str_contains(ts, "rename") && has_symbol {
        0
    } else if str_contains(ts, "test") && has_symbol {
        1
    } else if (str_contains(ts, "call") || str_contains(ts, "impact") || str_contains(ts, "caller")) && has_symbol {
        2
    } else if (str_contains(ts, "edit") || str_contains(ts, "fix") || str_contains(ts, "change")) && has_symbol
        && file_path.unicode_len() > 0 {
        3
    } else if str_contains(ts, "string") || str_contains(ts, "key") || str_contains(ts, "literal")
        || str_contains(ts, "error message") {
        4
    } else if str_contains(ts, "type") {
        5
    } else if str_contains(ts, "review") || str_contains(ts, "diff") {
        6
    } else {
        7
    };
    proof {
        assert(branch as nat == plan_branch(lowercase(task@), plan_file(*args), plan_symbol(*args)));
        assert(branch as nat == request_branch(*args));
    }
    let (steps, est) = render_steps(branch, b, path, file_path, symbol);
    let fits = est <= b;
    let mut out = String::from_str("{\"budget\":");
    crate::text::push_decimal_u64(&mut out, b);
    out.append(",\"estimated_tokens\":");
    crate::text::push_decimal_u64(&mut out, est);
    out.append(",\"fits\":");
    out.append(if fits { "true" } else { "false" });
    out.append(",\"note\":");
    append_quoted(&mut out, if fits { "sequence fits budget" } else { "over budget; raise budget or page with offset/limit" });
    out.append(",\"steps\":");
    out.append(steps.as_str());
    out.append(",\"task\":");
    append_quoted(&mut out, task);
    out.append("}");
    proof {
        assert(out@ =~= plan_json(*args, task@));
    }
    Ok(out)
}

} // verus!
