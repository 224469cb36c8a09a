//! Batch view: several reads in one call. Each item of `items` is either a
//! view of a file (`{file_path, focus_symbol?, detail?, ..}`) or, with
//! `kind: "usages"`, a usage search (`{symbol, path}`); each becomes the
//! arguments of one call and the key its result is stored under. The keyed
//! results are kept in key order and cut to a shared token budget.

use vstd::prelude::*;
use vstd::string::{StringExecFns, StrSliceExecFns};
use crate::error::{ToolError, ToolErrorKind};
use crate::value::{Json, json_get, opt_str, opt_u64, get, as_str, as_u64, take_member};
use crate::text::{decimal, push_decimal, first_at, lemma_first_at_extend, seq_lt, seq_three_way, str_three_way, lemma_seq_lt_total, lemma_seq_lt_trans, push_char, str_eq};
use crate::json::{json_quoted, append_quoted};
use crate::rows::join_with;
use crate::budget::{Cl100k, cl100k_count, count_tokens};

verus! {

/// The arguments handed to one view.
pub struct ViewArgs {
    pub file_path: String,
    pub detail: Option<String>,
    pub focus_symbol: Option<String>,
    pub isolate: Option<bool>,
    pub comment_mode: Option<String>,
    pub include_deps: Json,
}

/// The arguments handed to one usage search.
pub struct UsagesArgs {
    pub symbol: String,
    pub path: String,
}

/// The call one item asks for.
pub enum BatchCall {
    View(ViewArgs),
    Usages(UsagesArgs),
}

/// One call of a batch and the key its result is stored under.
pub struct BatchRequest {
    pub key: String,
    pub call: BatchCall,
}

/// The text of an optional string.
pub open spec fn opt_view(o: Option<String>) -> Option<Seq<char>> {
    match o {
        Some(s) => Some(s@),
        None => None,
    }
}

/// The value of `v` if it is a boolean.
pub open spec fn opt_bool(v: Option<Json>) -> Option<bool> {
    match v {
        Some(Json::Bool(b)) => Some(b),
        _ => None,
    }
}

/// The string member `key` of an item.
pub open spec fn item_str(item: Json, key: Seq<char>) -> Option<Seq<char>> {
    opt_str(json_get(item, key))
}

/// An item is a usage search when its `kind` is the string `usages`; any
/// other item, `kind` null or absent included, is a view.
pub open spec fn item_is_usages(item: Json) -> bool {
    item_str(item, "kind"@) == Some("usages"@)
}

/// The member an item lacks, if any: `symbol` then `path` for a usage
/// search, `file_path` for a view (each must be a string).
pub open spec fn item_missing(item: Json) -> Option<Seq<char>> {
    if item_is_usages(item) {
        if item_str(item, "symbol"@) is None {
            Some("symbol"@)
        } else if item_str(item, "path"@) is None {
            Some("path"@)
        } else {
            None
        }
    } else if item_str(item, "file_path"@) is None {
        Some("file_path"@)
    } else {
        None
    }
}

/// The key of a view's result: `file::symbol` with a focus symbol, else
/// the file.
pub open spec fn view_key(item: Json, file: Seq<char>) -> Seq<char> {
    match item_str(item, "focus_symbol"@) {
        Some(sym) => file + "::"@ + sym,
        None => file,
    }
}

/// The key of a usage search's result: `usages::symbol@path`.
pub open spec fn usages_key(symbol: Seq<char>, path: Seq<char>) -> Seq<char> {
    "usages::"@ + symbol + "@"@ + path
}

/// Whether the view isolates its symbol: as the item says, else on as soon
/// as the item has a `focus_symbol` member, else unset.
pub open spec fn item_isolate(item: Json) -> Option<bool> {
    match opt_bool(json_get(item, "isolate"@)) {
        Some(b) => Some(b),
        None => if json_get(item, "focus_symbol"@) is Some {
            Some(true)
        } else {
            None
        },
    }
}

/// The item's `include_deps` member as given, else `false`.
pub open spec fn item_include_deps(item: Json) -> Json {
    match json_get(item, "include_deps"@) {
        Some(x) => x,
        None => Json::Bool(false),
    }
}

/// `r` is the call that `item` asks for.
pub open spec fn is_request_of(r: BatchRequest, item: Json) -> bool {
    match r.call {
        BatchCall::View(a) => {
            &&& !item_is_usages(item)
            &&& item_str(item, "file_path"@) == Some(a.file_path@)
            &&& r.key@ == view_key(item, a.file_path@)
            &&& opt_view(a.detail) == item_str(item, "detail"@)
            &&& opt_view(a.focus_symbol) == item_str(item, "focus_symbol"@)
            &&& a.isolate == item_isolate(item)
            &&& opt_view(a.comment_mode) == item_str(item, "comment_mode"@)
            &&& a.include_deps == item_include_deps(item)
        },
        BatchCall::Usages(u) => {
            &&& item_is_usages(item)
            &&& item_str(item, "symbol"@) == Some(u.symbol@)
            &&& item_str(item, "path"@) == Some(u.path@)
            &&& r.key@ == usages_key(u.symbol@, u.path@)
        },
    }
}

/// The `items` array of the arguments.
pub open spec fn batch_items(args: Json) -> Option<Seq<Json>> {
    match json_get(args, "items"@) {
        Some(Json::Array(v)) => Some(v@),
        _ => None,
    }
}

/// The shared token budget: `max_tokens`, 4000 by default.
pub open spec fn batch_max(args: Json) -> u64 {
    match opt_u64(json_get(args, "max_tokens"@)) {
        Some(m) => m,
        None => 4000,
    }
}

/// The first item that lacks a member.
pub open spec fn first_incomplete(items: Seq<Json>) -> Option<int> {
    first_at(items.len(), |k: int| item_missing(items[k]) is Some)
}

pub open spec fn missing_items_message() -> Seq<char> {
    "Missing or invalid 'items' argument"@
}

pub open spec fn item_count_message() -> Seq<char> {
    "'items' must have 1..=20 entries"@
}

pub open spec fn missing_member_message(idx: nat, member: Seq<char>) -> Seq<char> {
    "items["@ + decimal(idx) + "] missing '"@ + member + "'"@
}

fn input_error(msg: &str) -> (e: ToolError)
    ensures
        e.kind == ToolErrorKind::InvalidInput,
        e.message@ == msg@,
{
    ToolError { kind: ToolErrorKind::InvalidInput, message: String::from_str(msg) }
}

/// The error for item `idx` lacking `member`.
fn missing_member(idx: usize, member: &str) -> (e: ToolError)
    ensures
        e.kind == ToolErrorKind::InvalidInput,
        e.message@ == missing_member_message(idx as nat, member@),
{
    let mut msg = String::from_str("items[");
    push_decimal(&mut msg, idx);
    msg.append("] missing '");
    msg.append(member);
    push_char(&mut msg, '\'');
    proof {
        reveal_strlit("items[");
        reveal_strlit("] missing '");
        reveal_strlit("'");
        assert(msg@ =~= missing_member_message(idx as nat, member@));
    }
    ToolError { kind: ToolErrorKind::InvalidInput, message: msg }
}

/// Whether `v` is the string `usages`.
fn is_usages_kind(v: Option<&str>) -> (b: bool)
    ensures
        b == (match v { Some(t) => t@ == "usages"@, None => false }),
{
    match v {
        Some(t) => {
            proof {
                reveal_strlit("usages");
            }
            str_eq(t, "usages")
        },
        None => false,
    }
}

/// The call an item asks for, or the error for an item that lacks a member.
fn request_of(item: Json, idx: usize) -> (r: Result<BatchRequest, ToolError>)
    ensures
        match item_missing(item) {
            Some(member) => r matches Err(e) && e.kind == ToolErrorKind::InvalidInput
                && e.message@ == missing_member_message(idx as nat, member),
            None => r matches Ok(q) && is_request_of(q, item),
        },
{
    proof {
        reveal_strlit("symbol");
        reveal_strlit("path");
        reveal_strlit("file_path");
    }
    if is_usages_kind(as_str(get(&item, "kind"))) {
        let symbol: String = match as_str(get(&item, "symbol")) {
            Some(t) => String::from_str(t),
            None => return Err(missing_member(idx, "symbol")),
        };
        let path: String = match as_str(get(&item, "path")) {
            Some(t) => String::from_str(t),
            None => return Err(missing_member(idx, "path")),
        };
        let mut key = String::from_str("usages::");
        key.append(symbol.as_str());
        push_char(&mut key, '@');
        key.append(path.as_str());
        proof {
            reveal_strlit("usages::");
            reveal_strlit("@");
            assert(key@ =~= usages_key(symbol@, path@));
        }
        return Ok(BatchRequest { key, call: BatchCall::Usages(UsagesArgs { symbol, path }) });
    }
    let file: String = match as_str(get(&item, "file_path")) {
        Some(f) => String::from_str(f),
        None => return Err(missing_member(idx, "file_path")),
    };
    let detail: Option<String> = match as_str(get(&item, "detail")) {
        Some(d) => Some(String::from_str(d)),
        None => None,
    };
    let focus: Option<String> = match as_str(get(&item, "focus_symbol")) {
        Some(f) => Some(String::from_str(f)),
        None => None,
    };
    let comment_mode: Option<String> = match as_str(get(&item, "comment_mode")) {
        Some(c) => Some(String::from_str(c)),
        None => None,
    };
    let isolate: Option<bool> = match get(&item, "isolate") {
        Some(Json::Bool(b)) => Some(*b),
        _ => if get(&item, "focus_symbol").is_some() {
            Some(true)
        } else {
            None
        },
    };
    let mut key = file.clone();
    match &focus {
        Some(sym) => {
            key.append("::");
            key.append(sym.as_str());
            proof {
                reveal_strlit("::");
            }
        },
        None => {},
    }
    let ghost given = item;
    let include_deps = match take_member(item, "include_deps") {
        Some(x) => x,
        None => Json::Bool(false),
    };
    let q = BatchRequest {
        key,
        call: BatchCall::View(ViewArgs { file_path: file, detail, focus_symbol: focus, isolate, comment_mode, include_deps }),
    };
    proof {
        assert(is_request_of(q, given));
    }
    Ok(q)
}

/// The calls a batch asks for and its token budget, or the error for the
/// arguments: no `items` array, an empty one or one of more than 20 items,
/// or an item that lacks a member (the first such).
pub fn batch_requests(args: Json) -> (r: Result<(Vec<BatchRequest>, u64), ToolError>)
    ensures
        match batch_items(args) {
            None => r matches Err(e) && e.kind == ToolErrorKind::InvalidInput
                && e.message@ == missing_items_message(),
            Some(items) => if items.len() == 0 || items.len() > 20 {
                r matches Err(e) && e.kind == ToolErrorKind::InvalidInput && e.message@ == item_count_message()
            } else {
                match first_incomplete(items) {
                    Some(idx) => r matches Err(e) && e.kind == ToolErrorKind::InvalidInput
                        && e.message@ == missing_member_message(idx as nat, item_missing(items[idx])->0),
                    None => r matches Ok((reqs, max)) && max == batch_max(args)
                        && reqs.len() == items.len()
                        && forall|i: int| 0 <= i < items.len() ==> #[trigger] is_request_of(reqs@[i], items[i]),
                }
            },
        },
{
    let max: u64 = match as_u64(get(&args, "max_tokens")) {
        Some(m) => m,
        None => 4000,
    };
    let mut items: Vec<Json> = match take_member(args, "items") {
        Some(Json::Array(v)) => v,
        _ => {
            proof {
                reveal_strlit("Missing or invalid 'items' argument");
            }
            return Err(input_error("Missing or invalid 'items' argument"));
        },
    };
    let n = items.len();
    if n == 0 || n > 20 {
        proof {
            reveal_strlit("'items' must have 1..=20 entries");
        }
        return Err(input_error("'items' must have 1..=20 entries"));
    }
    let ghost all = items@;
    let ghost missing = |k: int| item_missing(all[k]) is Some;
    proof {
        assert(missing =~= (|k: int| item_missing(all[k]) is Some));
        assert(first_incomplete(all) == first_at(n as nat, missing));
    }
    let mut reqs: Vec<BatchRequest> = Vec::new();
    let mut i: usize = 0;
    while i < n
        invariant
            i <= n,
            0 < n <= 20,
            n == all.len(),
            batch_items(args) == Some(all),
            first_incomplete(all) == first_at(n as nat, missing),
            items@ == all.skip(i as int),
            reqs.len() == i,
            missing == (|k: int| item_missing(all[k]) is Some),
            first_at(i as nat, missing) is None,
            forall|j: int| 0 <= j < i ==> #[trigger] is_request_of(reqs@[j], all[j]),
        decreases n - i,
    {
        let item = items.remove(0);
        proof {
            assert(item == all[i as int]);
            assert(items@ =~= all.skip(i + 1));
        }
        match request_of(item, i) {
            Ok(q) => {
                reqs.push(q);
                proof {
                    assert(!missing(i as int));
                    assert(first_at((i + 1) as nat, missing) is None);
                }
            },
            Err(e) => {
                proof {
                    assert(missing(i as int));
                    assert(first_at((i + 1) as nat, missing) == Some(i as int));
                    lemma_first_at_extend((i + 1) as nat, n as nat, missing);
                }
                return Err(e);
            },
        }
        i += 1;
    }
    Ok((reqs, max))
}

/// What became of one call: its result as compact JSON text, its output
/// when that is not JSON, or the message of the error it failed with.
pub enum ItemOutcome {
    Json(String),
    Raw(String),
    Failed(String),
}

/// The JSON stored for an outcome.
pub open spec fn outcome_text(o: ItemOutcome) -> Seq<char> {
    match o {
        ItemOutcome::Json(t) => t@,
        ItemOutcome::Raw(t) => "{\"raw\":"@ + json_quoted(t@) + "}"@,
        ItemOutcome::Failed(m) => "{\"error\":"@ + json_quoted(m@) + "}"@,
    }
}

/// Writes the JSON stored for an outcome.
pub fn outcome_json(o: &ItemOutcome) -> (r: String)
    ensures
        r@ == outcome_text(*o),
{
    match o {
        ItemOutcome::Json(t) => t.clone(),
        ItemOutcome::Raw(t) => {
            let mut out = String::from_str("{\"raw\":");
            append_quoted(&mut out, t.as_str());
            push_char(&mut out, '}');
            proof {
                reveal_strlit("{\"raw\":");
                reveal_strlit("}");
                assert(out@ =~= outcome_text(*o));
            }
            out
        },
        ItemOutcome::Failed(m) => {
            let mut out = String::from_str("{\"error\":");
            append_quoted(&mut out, m.as_str());
            push_char(&mut out, '}');
            proof {
                reveal_strlit("{\"error\":");
                reveal_strlit("}");
                assert(out@ =~= outcome_text(*o));
            }
            out
        },
    }
}

/// The text of each key and stored result.
pub open spec fn entry_views(es: Seq<(String, String)>) -> Seq<(Seq<char>, Seq<char>)> {
    es.map_values(|e: (String, String)| (e.0@, e.1@))
}

/// Stores `v` under `k` in entries kept in key order: a key already there
/// has its result replaced, a new one goes before the first greater key.
pub open spec fn put_entry(es: Seq<(Seq<char>, Seq<char>)>, k: Seq<char>, v: Seq<char>) -> Seq<(Seq<char>, Seq<char>)>
    decreases es.len(),
{
    if es.len() == 0 {
        seq![(k, v)]
    } else if es[0].0 == k {
        seq![(k, v)] + es.drop_first()
    } else if seq_lt(k, es[0].0) {
        seq![(k, v)] + es
    } else {
        seq![es[0]] + put_entry(es.drop_first(), k, v)
    }
}

/// Keys strictly increasing: each key once, in order.
pub open spec fn keys_ordered(es: Seq<(Seq<char>, Seq<char>)>) -> bool {
    forall|i: int, j: int| 0 <= i < j < es.len() ==> seq_lt(#[trigger] es[i].0, #[trigger] es[j].0)
}

/// One member `"key":result`.
pub open spec fn entry_text(e: (Seq<char>, Seq<char>)) -> Seq<char> {
    json_quoted(e.0) + ":"@ + e.1
}

/// The entries as a JSON object.
pub open spec fn object_text(es: Seq<(Seq<char>, Seq<char>)>) -> Seq<char> {
    "{"@ + join_with(es.map_values(|e: (Seq<char>, Seq<char>)| entry_text(e)), ","@) + "}"@
}

/// The object measured against the budget while trimming: `{"items":..}`.
pub open spec fn items_text(es: Seq<(Seq<char>, Seq<char>)>) -> Seq<char> {
    "{\"items\":"@ + object_text(es) + "}"@
}

/// One result stored: the new entries, and whether they are over budget
/// (which ends the batch); nothing when the entries cannot be counted.
pub open spec fn feed_step(es: Seq<(Seq<char>, Seq<char>)>, k: Seq<char>, v: Seq<char>, max: nat) -> Option<(Seq<(Seq<char>, Seq<char>)>, bool)> {
    let next = put_entry(es, k, v);
    match cl100k_count(object_text(next)) {
        Some(n) => Some((next, n > max)),
        None => None,
    }
}

/// Results stored in order onto `es` until the entries go over budget;
/// nothing when a count fails on the way.
pub open spec fn fill_from(results: Seq<(Seq<char>, Seq<char>)>, es: Seq<(Seq<char>, Seq<char>)>, max: nat) -> Option<(Seq<(Seq<char>, Seq<char>)>, bool)>
    decreases results.len(),
{
    if results.len() == 0 {
        Some((es, false))
    } else {
        match feed_step(es, results[0].0, results[0].1, max) {
            None => None,
            Some((next, over)) => if over {
                Some((next, true))
            } else {
                fill_from(results.drop_first(), next, max)
            },
        }
    }
}

/// The greatest keys dropped until `{"items":..}` fits or nothing is left;
/// anything dropped marks the result truncated. Nothing when a count fails.
pub open spec fn trim_entries(es: Seq<(Seq<char>, Seq<char>)>, truncated: bool, max: nat) -> Option<(Seq<(Seq<char>, Seq<char>)>, bool)>
    decreases es.len(),
{
    match cl100k_count(items_text(es)) {
        None => None,
        Some(n) => if n <= max || es.len() == 0 {
            Some((es, truncated))
        } else if es.len() == 1 {
            Some((es.drop_last(), true))
        } else {
            trim_entries(es.drop_last(), true, max)
        },
    }
}

/// The answer: the kept entries under `items`, with the truncation marker
/// `"@":{"t":true}` first when anything was cut.
pub open spec fn batch_json(es: Seq<(Seq<char>, Seq<char>)>, truncated: bool) -> Seq<char> {
    if truncated {
        "{\"@\":{\"t\":true},\"items\":"@ + object_text(es) + "}"@
    } else {
        items_text(es)
    }
}

/// The answer for results fed in order, under budget `max`; nothing when a
/// count fails.
pub open spec fn batch_text(results: Seq<(Seq<char>, Seq<char>)>, max: nat) -> Option<Seq<char>> {
    match fill_from(results, seq![], max) {
        None => None,
        Some((filled, stopped)) => match trim_entries(filled, stopped, max) {
            None => None,
            Some((kept, truncated)) => Some(batch_json(kept, truncated)),
        },
    }
}

/// Storing past entries that sort before `k` leaves them in front.
proof fn lemma_put_skip(es: Seq<(Seq<char>, Seq<char>)>, k: Seq<char>, v: Seq<char>, p: int)
    requires
        0 <= p <= es.len(),
        forall|j: int| 0 <= j < p ==> #[trigger] seq_lt(es[j].0, k),
    ensures
        put_entry(es, k, v) == es.take(p) + put_entry(es.skip(p), k, v),
    decreases p,
{
    if p > 0 {
        lemma_seq_lt_total(es[0].0, k);
        lemma_seq_lt_total(k, es[0].0);
        assert forall|j: int| 0 <= j < p - 1 implies #[trigger] seq_lt(es.drop_first()[j].0, k) by {
            assert(es.drop_first()[j] == es[j + 1]);
        }
        lemma_put_skip(es.drop_first(), k, v, p - 1);
        assert(es.drop_first().skip(p - 1) =~= es.skip(p));
        assert(es.take(p) =~= seq![es[0]] + es.drop_first().take(p - 1));
    } else {
        assert(es.skip(0) =~= es);
        assert(es.take(0) =~= Seq::<(Seq<char>, Seq<char>)>::empty());
    }
}

/// Stores `v` under `k`.
pub fn put_entry_exec(es: &mut Vec<(String, String)>, k: String, v: String)
    ensures
        entry_views(final(es)@) == put_entry(entry_views(old(es)@), k@, v@),
{
    let ghost before = entry_views(es@);
    let mut p: usize = 0;
    while p < es.len()
        invariant
            p <= es.len(),
            es@ == old(es)@,
            before == entry_views(es@),
            forall|j: int| 0 <= j < p ==> #[trigger] seq_lt(before[j].0, k@),
        ensures
            p <= es.len(),
            es@ == old(es)@,
            before == entry_views(es@),
            forall|j: int| 0 <= j < p ==> #[trigger] seq_lt(before[j].0, k@),
            p < es.len() ==> seq_three_way(before[p as int].0, k@) >= 0,
        decreases es.len() - p,
    {
        let c = str_three_way(es[p].0.as_str(), k.as_str());
        if c >= 0 {
            proof {
                assert(before[p as int].0 == es@[p as int].0@);
            }
            break;
        }
        proof {
            assert(before[p as int].0 == es@[p as int].0@);
        }
        p += 1;
    }
    proof {
        lemma_put_skip(before, k@, v@, p as int);
    }
    let ghost rest = before.skip(p as int);
    let ghost kv = (k@, v@);
    if p < es.len() && str_three_way(es[p].0.as_str(), k.as_str()) == 0 {
        proof {
            assert(rest[0].0 == k@);
            assert(rest.drop_first() =~= before.skip(p + 1));
        }
        es.set(p, (k, v));
        proof {
            assert(entry_views(es@) =~= before.take(p as int) + (seq![kv] + rest.drop_first()));
        }
    } else {
        proof {
            if p < before.len() {
                assert(rest[0].0 == es@[p as int].0@);
                assert(rest[0].0 == before[p as int].0);
                lemma_seq_lt_total(rest[0].0, k@);
                assert(seq_lt(k@, rest[0].0));
            } else {
                assert(rest.len() == 0);
            }
        }
        es.insert(p, (k, v));
        proof {
            assert(entry_views(es@) =~= before.take(p as int) + (seq![kv] + rest));
        }
    }
}

/// Writes the entries as a JSON object.
pub fn object_json(es: &Vec<(String, String)>) -> (r: String)
    ensures
        r@ == object_text(entry_views(es@)),
{
    let ghost parts = entry_views(es@).map_values(|e: (Seq<char>, Seq<char>)| entry_text(e));
    let mut body = String::new();
    let mut i: usize = 0;
    proof {
        assert(parts.take(0) =~= Seq::<Seq<char>>::empty());
    }
    while i < es.len()
        invariant
            i <= es.len(),
            parts == entry_views(es@).map_values(|e: (Seq<char>, Seq<char>)| entry_text(e)),
            body@ == join_with(parts.take(i as int), ","@),
        decreases es.len() - i,
    {
        let ghost before = body@;
        proof {
            assert(parts.take(i + 1).drop_last() =~= parts.take(i as int));
            assert(parts.take(i + 1).last() == entry_text((es@[i as int].0@, es@[i as int].1@)));
        }
        if i > 0 {
            push_char(&mut body, ',');
        }
        append_quoted(&mut body, es[i].0.as_str());
        push_char(&mut body, ':');
        body.append(es[i].1.as_str());
        proof {
            reveal_strlit(",");
            reveal_strlit(":");
            if i == 0 {
                assert(before =~= Seq::<char>::empty());
                assert(body@ =~= parts.take(1)[0]);
            } else {
                assert(body@ =~= join_with(parts.take(i as int), ","@) + ","@ + parts.take(i + 1).last());
            }
        }
        i += 1;
    }
    proof {
        assert(parts.take(es.len() as int) =~= parts);
    }
    let mut out = String::new();
    push_char(&mut out, '{');
    out.append(body.as_str());
    push_char(&mut out, '}');
    proof {
        reveal_strlit("{");
        reveal_strlit("}");
        assert(out@ =~= object_text(entry_views(es@)));
    }
    out
}

/// A batch being filled: the results stored so far, in key order, and
/// whether they went over budget (after which nothing more is stored).
pub struct BatchFill {
    pub entries: Vec<(String, String)>,
    pub stopped: bool,
}

/// An empty batch.
pub fn batch_start() -> (f: BatchFill)
    ensures
        entry_views(f.entries@) == Seq::<(Seq<char>, Seq<char>)>::empty(),
        !f.stopped,
{
    let f = BatchFill { entries: Vec::new(), stopped: false };
    proof {
        assert(entry_views(f.entries@) =~= Seq::<(Seq<char>, Seq<char>)>::empty());
    }
    f
}

/// Stores the result of the call under `key` and measures the entries; the
/// error of a count that fails is passed on, the result stored all the same.
pub fn batch_feed(tok: &Cl100k, fill: &mut BatchFill, key: &str, outcome: &ItemOutcome, max: u64) -> (r: Result<(), String>)
    requires
        !old(fill).stopped,
    ensures
        match feed_step(entry_views(old(fill).entries@), key@, outcome_text(*outcome), max as nat) {
            Some(step) => r is Ok && (entry_views(final(fill).entries@), final(fill).stopped) == step,
            None => r is Err && !final(fill).stopped
                && entry_views(final(fill).entries@) == put_entry(entry_views(old(fill).entries@), key@, outcome_text(*outcome)),
        },
{
    let text = outcome_json(outcome);
    put_entry_exec(&mut fill.entries, String::from_str(key), text);
    let snapshot = object_json(&fill.entries);
    let n = match count_tokens(tok, snapshot.as_str()) {
        Ok(n) => n,
        Err(e) => return Err(e),
    };
    fill.stopped = (n as u64) > max;
    Ok(())
}

/// The `{"items":..}` object for the entries.
fn items_json(es: &Vec<(String, String)>) -> (r: String)
    ensures
        r@ == items_text(entry_views(es@)),
{
    let mut out = String::from_str("{\"items\":");
    let body = object_json(es);
    out.append(body.as_str());
    push_char(&mut out, '}');
    proof {
        reveal_strlit("{\"items\":");
        reveal_strlit("}");
        assert(out@ =~= items_text(entry_views(es@)));
    }
    out
}

/// The answer for a filled batch: the greatest keys dropped until
/// `{"items":..}` fits, then the truncation marker if anything was cut; the
/// error of a count that fails is passed on.
pub fn batch_finish(tok: &Cl100k, fill: BatchFill, max: u64) -> (r: Result<String, String>)
    ensures
        match trim_entries(entry_views(fill.entries@), fill.stopped, max as nat) {
            Some((kept, truncated)) => r matches Ok(t) && t@ == batch_json(kept, truncated),
            None => r is Err,
        },
{
    let mut es = fill.entries;
    let mut truncated = fill.stopped;
    let ghost goal = trim_entries(entry_views(es@), truncated, max as nat);
    loop
        invariant_except_break
            goal == trim_entries(entry_views(es@), truncated, max as nat),
        invariant
            goal == trim_entries(entry_views(fill.entries@), fill.stopped, max as nat),
        ensures
            goal == Some((entry_views(es@), truncated)),
        decreases es.len(),
    {
        let snapshot = items_json(&es);
        let n = match count_tokens(tok, snapshot.as_str()) {
            Ok(n) => n,
            Err(e) => return Err(e),
        };
        if (n as u64) <= max || es.len() == 0 {
            break;
        }
        let ghost before = entry_views(es@);
        es.pop();
        truncated = true;
        proof {
            assert(entry_views(es@) =~= before.drop_last());
        }
        if es.len() == 0 {
            proof {
                assert(goal == Some((entry_views(es@), true)));
            }
            break;
        }
    }
    let body = object_json(&es);
    let mut out = if truncated {
        String::from_str("{\"@\":{\"t\":true},\"items\":")
    } else {
        String::from_str("{\"items\":")
    };
    out.append(body.as_str());
    push_char(&mut out, '}');
    proof {
        reveal_strlit("{\"@\":{\"t\":true},\"items\":");
        reveal_strlit("{\"items\":");
        reveal_strlit("}");
        assert(goal == Some((entry_views(es@), truncated)));
    }
    Ok(out)
}

/// The key and stored result of each call, in request order.
pub open spec fn batch_results(reqs: Seq<BatchRequest>, outcomes: Seq<ItemOutcome>) -> Seq<(Seq<char>, Seq<char>)> {
    Seq::new(reqs.len(), |i: int| (reqs[i].key@, outcome_text(outcomes[i])))
}

/// The answer for calls whose outcomes are all known: results stored in
/// request order until the entries go over budget, then trimmed; the error
/// of a count that fails is passed on.
pub fn batch_answer(tok: &Cl100k, reqs: &Vec<BatchRequest>, outcomes: &Vec<ItemOutcome>, max: u64) -> (r: Result<String, String>)
    requires
        reqs.len() == outcomes.len(),
    ensures
        match batch_text(batch_results(reqs@, outcomes@), max as nat) {
            Some(t) => r matches Ok(s) && s@ == t,
            None => r is Err,
        },
{
    let ghost results = batch_results(reqs@, outcomes@);
    let mut fill = batch_start();
    let ghost goal = fill_from(results, seq![], max as nat);
    let mut i: usize = 0;
    proof {
        assert(results.skip(0) =~= results);
    }
    while i < reqs.len()
        invariant_except_break
            !fill.stopped,
            goal == fill_from(results.skip(i as int), entry_views(fill.entries@), max as nat),
        invariant
            i <= reqs.len(),
            reqs.len() == outcomes.len(),
            results == batch_results(reqs@, outcomes@),
            goal == fill_from(results, seq![], max as nat),
        ensures
            goal == Some((entry_views(fill.entries@), fill.stopped)),
        decreases reqs.len() - i,
    {
        proof {
            assert(results.skip(i as int)[0] == (reqs@[i as int].key@, outcome_text(outcomes@[i as int])));
            assert(results.skip(i as int).drop_first() =~= results.skip(i + 1));
        }
        let ghost before = entry_views(fill.entries@);
        match batch_feed(tok, &mut fill, reqs[i].key.as_str(), &outcomes[i], max) {
            Ok(()) => {},
            Err(e) => {
                proof {
                    assert(feed_step(before, reqs@[i as int].key@, outcome_text(outcomes@[i as int]), max as nat) is None);
                    assert(goal is None);
                }
                return Err(e);
            },
        }
        if fill.stopped {
            break;
        }
        i += 1;
    }
    batch_finish(tok, fill, max)
}

/// Loads the tokenizer the batch budget is counted with.
pub fn batch_tokenizer() -> (r: Result<Cl100k, ToolError>)
    ensures
        r is Ok,
{
    match crate::budget::load_cl100k() {
        Ok(t) => Ok(t),
        Err(e) => {
            let mut msg = String::from_str("tokenizer: ");
            msg.append(e.as_str());
            proof {
                reveal_strlit("tokenizer: ");
                assert(msg@.take(11) =~= "tokenizer: "@);
            }
            Err(ToolError { kind: ToolErrorKind::Other, message: msg })
        },
    }
}

/// Storing into entries whose keys all sort after `a`, a key after `a`
/// keeps every key after `a`.
proof fn lemma_put_bound(es: Seq<(Seq<char>, Seq<char>)>, k: Seq<char>, v: Seq<char>, a: Seq<char>)
    requires
        seq_lt(a, k),
        forall|j: int| 0 <= j < es.len() ==> #[trigger] seq_lt(a, es[j].0),
    ensures
        forall|j: int| 0 <= j < put_entry(es, k, v).len() ==> #[trigger] seq_lt(a, put_entry(es, k, v)[j].0),
    decreases es.len(),
{
    if es.len() > 0 && es[0].0 != k && !seq_lt(k, es[0].0) {
        let rest = es.drop_first();
        assert forall|j: int| 0 <= j < rest.len() implies #[trigger] seq_lt(a, rest[j].0) by {
            assert(rest[j] == es[j + 1]);
        }
        lemma_put_bound(rest, k, v, a);
        let r = put_entry(es, k, v);
        assert forall|j: int| 0 <= j < r.len() implies #[trigger] seq_lt(a, r[j].0) by {
            if j > 0 {
                assert(r[j] == put_entry(rest, k, v)[j - 1]);
            }
        }
    } else if es.len() > 0 && es[0].0 == k {
        let r = put_entry(es, k, v);
        assert forall|j: int| 0 <= j < r.len() implies #[trigger] seq_lt(a, r[j].0) by {
            if j > 0 {
                assert(r[j] == es[j]);
            }
        }
    } else if es.len() > 0 {
        let r = put_entry(es, k, v);
        assert forall|j: int| 0 <= j < r.len() implies #[trigger] seq_lt(a, r[j].0) by {
            if j > 0 {
                assert(r[j] == es[j - 1]);
            }
        }
    }
}

/// Storing keeps the keys strictly increasing.
proof fn lemma_put_ordered(es: Seq<(Seq<char>, Seq<char>)>, k: Seq<char>, v: Seq<char>)
    requires
        keys_ordered(es),
    ensures
        keys_ordered(put_entry(es, k, v)),
    decreases es.len(),
{
    let r = put_entry(es, k, v);
    if es.len() == 0 {
    } else if es[0].0 == k {
        assert forall|i: int, j: int| 0 <= i < j < r.len() implies seq_lt(#[trigger] r[i].0, #[trigger] r[j].0) by {
            assert(r[j] == es[j]);
            if i > 0 {
                assert(r[i] == es[i]);
            }
        }
    } else if seq_lt(k, es[0].0) {
        assert forall|i: int, j: int| 0 <= i < j < r.len() implies seq_lt(#[trigger] r[i].0, #[trigger] r[j].0) by {
            assert(r[j] == es[j - 1]);
            if i > 0 {
                assert(r[i] == es[i - 1]);
            } else if j > 1 {
                lemma_seq_lt_trans(k, es[0].0, es[j - 1].0);
            }
        }
    } else {
        let rest = es.drop_first();
        assert forall|i: int, j: int| 0 <= i < j < rest.len() implies seq_lt(#[trigger] rest[i].0, #[trigger] rest[j].0) by {
            assert(rest[i] == es[i + 1]);
            assert(rest[j] == es[j + 1]);
        }
        lemma_put_ordered(rest, k, v);
        lemma_seq_lt_total(es[0].0, k);
        assert forall|j: int| 0 <= j < rest.len() implies #[trigger] seq_lt(es[0].0, rest[j].0) by {
            assert(rest[j] == es[j + 1]);
        }
        lemma_put_bound(rest, k, v, es[0].0);
        let pr = put_entry(rest, k, v);
        assert forall|i: int, j: int| 0 <= i < j < r.len() implies seq_lt(#[trigger] r[i].0, #[trigger] r[j].0) by {
            assert(r[j] == pr[j - 1]);
            if i > 0 {
                assert(r[i] == pr[i - 1]);
            }
        }
    }
}

/// `{"items":..}` of the entries counts at most `max` tokens.
pub open spec fn items_fit(es: Seq<(Seq<char>, Seq<char>)>, max: nat) -> bool {
    match cl100k_count(items_text(es)) {
        Some(n) => n <= max,
        None => false,
    }
}

/// Filling keeps the keys strictly increasing.
proof fn lemma_fill_ordered(results: Seq<(Seq<char>, Seq<char>)>, es: Seq<(Seq<char>, Seq<char>)>, max: nat)
    requires
        keys_ordered(es),
    ensures
        fill_from(results, es, max) matches Some((filled, _)) ==> keys_ordered(filled),
    decreases results.len(),
{
    if results.len() > 0 {
        lemma_put_ordered(es, results[0].0, results[0].1);
        let next = put_entry(es, results[0].0, results[0].1);
        lemma_fill_ordered(results.drop_first(), next, max);
    }
}

/// Trimming keeps a prefix of the entries, and what it keeps fits unless
/// it kept nothing.
proof fn lemma_trim(es: Seq<(Seq<char>, Seq<char>)>, truncated: bool, max: nat)
    ensures
        trim_entries(es, truncated, max) matches Some((kept, t)) ==> {
            &&& kept.len() <= es.len()
            &&& kept == es.take(kept.len() as int)
            &&& (kept.len() > 0 ==> items_fit(kept, max))
            &&& (t <==> (truncated || kept.len() < es.len()))
        },
    decreases es.len(),
{
    if cl100k_count(items_text(es)) is None {
    } else if items_fit(es, max) || es.len() == 0 {
        assert(es.take(es.len() as int) =~= es);
    } else if es.len() == 1 {
        assert(es.drop_last() =~= es.take(0));
    } else {
        lemma_trim(es.drop_last(), true, max);
        match trim_entries(es.drop_last(), true, max) {
            Some((kept, t)) => {
                assert(kept =~= es.take(kept.len() as int));
            },
            None => {},
        }
    }
}

/// The kept results of a batch are listed once per key in key order, they
/// are the entries with the smallest keys of those stored, their
/// `{"items":..}` object fits the budget unless nothing is kept, and the
/// answer is marked truncated exactly when the fill went over budget or
/// trimming dropped an entry.
pub proof fn law_batch_budget(results: Seq<(Seq<char>, Seq<char>)>, max: nat)
    ensures
        fill_from(results, seq![], max) matches Some((filled, stopped)) ==>
            (trim_entries(filled, stopped, max) matches Some((kept, truncated)) ==> {
                &&& keys_ordered(kept)
                &&& kept == filled.take(kept.len() as int)
                &&& (kept.len() > 0 ==> items_fit(kept, max))
                &&& (truncated <==> (stopped || kept.len() < filled.len()))
            }),
{
    lemma_fill_ordered(results, seq![], max);
    match fill_from(results, seq![], max) {
        Some((filled, stopped)) => {
            lemma_trim(filled, stopped, max);
            match trim_entries(filled, stopped, max) {
                Some((kept, truncated)) => {
                    assert forall|i: int, j: int| 0 <= i < j < kept.len() implies seq_lt(#[trigger] kept[i].0, #[trigger] kept[j].0) by {
                        assert(kept[i] == filled[i]);
                        assert(kept[j] == filled[j]);
                    }
                },
                None => {},
            }
        },
        None => {},
    }
}

} // verus!
