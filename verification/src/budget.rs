//! Token budgets: rows are dropped from the end until the JSON a tool would
//! return fits in the cl100k token count asked for, and the result says
//! whether anything was dropped.

use vstd::prelude::*;
use vstd::string::StringExecFns;
use crate::error::{ToolError, ToolErrorKind};
use crate::json::{json_quote, json_quoted};
use crate::rows::{join_with, views};

verus! {

#[verifier::external_type_specification]
#[verifier::external_body]
pub struct ExCoreBPE(tiktoken_rs::CoreBPE);

/// The cl100k_base tokenizer.
pub struct Cl100k {
    bpe: tiktoken_rs::CoreBPE,
}

/// What encoding `text` with the cl100k_base tokenizer, every special token
/// allowed, gives: the number of tokens, or nothing when the encoder's
/// pattern engine gives up on the text.
pub uninterp spec fn cl100k_count(text: Seq<char>) -> Option<nat>;

/// Loads the cl100k_base tokenizer.
///
/// Wraps `tiktoken_rs::cl100k_base`, which builds the tokenizer from a rank
/// file embedded in the crate and a fixed pattern; nothing else goes into
/// it, so it succeeds.
#[verifier::external_body]
pub fn load_cl100k() -> (r: Result<Cl100k, String>)
    ensures
        r is Ok,
{
    match tiktoken_rs::cl100k_base() {
        Ok(bpe) => Ok(Cl100k { bpe }),
        Err(e) => Err(format!("{e}")),
    }
}

/// Counts the tokens of `text`.
///
/// Wraps `CoreBPE::encode` on the cl100k_base tokenizer (the only one a
/// `Cl100k` holds) with all its special tokens allowed, and takes the length
/// of the tokens. The result depends on the text alone, so the contract
/// names it `cl100k_count`; the encoder reports an error when its pattern
/// engine gives up, and that message is passed on. (Its scan for special
/// tokens runs a plain alternation of literals, which cannot fail.)
#[verifier::external_body]
pub fn count_tokens(tok: &Cl100k, text: &str) -> (r: Result<usize, String>)
    ensures
        match cl100k_count(text@) {
            Some(n) => r matches Ok(k) && k == n,
            None => r is Err,
        },
{
    let allowed = tok.bpe.special_tokens();
    match tok.bpe.encode(text, &allowed) {
        Ok((tokens, _)) => Ok(tokens.len()),
        Err(e) => Err(e.message),
    }
}

/// The first `k` rows joined by newlines.
pub open spec fn joined(rows: Seq<Seq<char>>, k: nat) -> Seq<char> {
    join_with(rows.take(k as int), seq!['\n'])
}

/// The JSON object a tool would measure around `text`: `pre` (everything
/// before the rows' string; `pre_cut` once rows were dropped), the rows as a
/// string literal, then `tail` (the members after it and the closing brace).
pub open spec fn frame(text: Seq<char>, truncated: bool, pre: Seq<char>, pre_cut: Seq<char>, tail: Seq<char>) -> Seq<char> {
    (if truncated { pre_cut } else { pre }) + json_quoted(text) + tail
}

/// The first `k` rows, framed, can be counted.
pub open spec fn counted(rows: Seq<Seq<char>>, k: nat, truncated: bool, pre: Seq<char>, pre_cut: Seq<char>, tail: Seq<char>) -> bool {
    cl100k_count(frame(joined(rows, k), truncated, pre, pre_cut, tail)) is Some
}

/// The first `k` rows, framed, fit in `max` tokens.
pub open spec fn fits(rows: Seq<Seq<char>>, k: nat, truncated: bool, pre: Seq<char>, pre_cut: Seq<char>, tail: Seq<char>, max: nat) -> bool {
    match cl100k_count(frame(joined(rows, k), truncated, pre, pre_cut, tail)) {
        Some(n) => n <= max,
        None => false,
    }
}

/// Trimming from `k` rows down, marked truncated; nothing when a candidate
/// cannot be counted.
pub open spec fn trim_from(rows: Seq<Seq<char>>, k: nat, pre: Seq<char>, pre_cut: Seq<char>, tail: Seq<char>, max: nat) -> Option<(Seq<char>, bool)>
    decreases k,
{
    if !counted(rows, k, true, pre, pre_cut, tail) {
        None
    } else if fits(rows, k, true, pre, pre_cut, tail, max) {
        Some((joined(rows, k), true))
    } else if k == 0 {
        Some((seq![], true))
    } else {
        trim_from(rows, (k - 1) as nat, pre, pre_cut, tail, max)
    }
}

/// What a budget keeps: all rows when they fit unmarked, else the longest
/// prefix that fits with the truncation marker, else nothing; no answer
/// when a text it measures cannot be counted.
pub open spec fn budget_choice(rows: Seq<Seq<char>>, pre: Seq<char>, pre_cut: Seq<char>, tail: Seq<char>, max: nat) -> Option<(Seq<char>, bool)> {
    if !counted(rows, rows.len(), false, pre, pre_cut, tail) {
        None
    } else if fits(rows, rows.len(), false, pre, pre_cut, tail, max) {
        Some((joined(rows, rows.len()), false))
    } else if rows.len() == 0 {
        Some((seq![], true))
    } else {
        trim_from(rows, (rows.len() - 1) as nat, pre, pre_cut, tail, max)
    }
}

/// The trimmed result is the longest prefix that fits: every longer prefix
/// was tried and did not fit.
pub proof fn law_budget_longest_prefix(rows: Seq<Seq<char>>, pre: Seq<char>, pre_cut: Seq<char>, tail: Seq<char>, max: nat)
    ensures
        budget_choice(rows, pre, pre_cut, tail, max) matches Some((text, truncated)) ==> {
            &&& (!truncated <==> fits(rows, rows.len(), false, pre, pre_cut, tail, max))
            &&& (!truncated ==> text == joined(rows, rows.len()))
            &&& (truncated ==> exists|k: nat| #![trigger joined(rows, k)]
                (k < rows.len() || rows.len() == 0) && text == joined(rows, k)
                && (forall|j: nat| k < j < rows.len() ==> !fits(rows, j, true, pre, pre_cut, tail, max)))
        },
{
    let n = rows.len();
    if !fits(rows, n, false, pre, pre_cut, tail, max) && n > 0 {
        lemma_trim_from_longest(rows, (n - 1) as nat, pre, pre_cut, tail, max);
    } else if !fits(rows, n, false, pre, pre_cut, tail, max) {
        assert(joined(rows, 0) =~= Seq::<char>::empty());
    }
}

/// `trim_from(k)` keeps the longest prefix up to `k` that fits.
pub proof fn lemma_trim_from_longest(rows: Seq<Seq<char>>, k: nat, pre: Seq<char>, pre_cut: Seq<char>, tail: Seq<char>, max: nat)
    requires
        k < rows.len(),
        forall|j: nat| k < j < rows.len() ==> !fits(rows, j, true, pre, pre_cut, tail, max),
    ensures
        trim_from(rows, k, pre, pre_cut, tail, max) matches Some((text, truncated)) ==> {
            &&& truncated
            &&& exists|m: nat| #![trigger joined(rows, m)] m <= k && text == joined(rows, m)
                && (forall|j: nat| m < j < rows.len() ==> !fits(rows, j, true, pre, pre_cut, tail, max))
        },
    decreases k,
{
    if fits(rows, k, true, pre, pre_cut, tail, max) {
        assert(joined(rows, k) == joined(rows, k));
    } else if k == 0 {
        assert(joined(rows, 0) =~= Seq::<char>::empty());
    } else {
        lemma_trim_from_longest(rows, (k - 1) as nat, pre, pre_cut, tail, max);
    }
}

/// The first `k` rows joined by newlines.
pub fn join_prefix(rows: &Vec<String>, k: usize) -> (r: String)
    requires
        k <= rows.len(),
    ensures
        r@ == joined(views(rows@), k as nat),
{
    let ghost vs = views(rows@);
    let mut out = String::new();
    let mut i: usize = 0;
    proof {
        assert(vs.take(0) =~= Seq::<Seq<char>>::empty());
    }
    while i < k
        invariant
            i <= k,
            k <= rows.len(),
            vs == views(rows@),
            out@ == join_with(vs.take(i as int), seq!['\n']),
        decreases k - i,
    {
        let ghost before = out@;
        proof {
            assert(vs.take(i + 1).drop_last() =~= vs.take(i as int));
            assert(vs.take(i + 1).last() == rows@[i as int]@);
        }
        if i > 0 {
            crate::text::push_char(&mut out, '\n');
        }
        out.append(rows[i].as_str());
        proof {
            if i == 0 {
                assert(before =~= Seq::<char>::empty());
                assert(out@ =~= vs.take(1)[0]);
            } else {
                assert(out@ =~= join_with(vs.take(i as int), seq!['\n']) + seq!['\n'] + vs.take(i + 1).last());
            }
        }
        i += 1;
    }
    out
}

/// The framed JSON text for `text`.
pub fn frame_text(text: &str, truncated: bool, pre: &str, pre_cut: &str, tail: &str) -> (r: String)
    ensures
        r@ == frame(text@, truncated, pre@, pre_cut@, tail@),
{
    let mut out = if truncated { String::from_str(pre_cut) } else { String::from_str(pre) };
    let q = json_quote(text);
    out.append(q.as_str());
    out.append(tail);
    out
}

/// Trims `rows` to the budget with a loaded tokenizer; the error of a text
/// that cannot be counted is passed on.
pub fn budget_with(tok: &Cl100k, rows: &Vec<String>, pre: &str, pre_cut: &str, tail: &str, max_tokens: usize) -> (r: Result<(String, bool), String>)
    ensures
        match budget_choice(views(rows@), pre@, pre_cut@, tail@, max_tokens as nat) {
            Some(c) => r matches Ok(q) && (q.0@, q.1) == c,
            None => r is Err,
        },
{
    let ghost vs = views(rows@);
    let n = rows.len();
    let all = join_prefix(rows, n);
    let candidate = frame_text(all.as_str(), false, pre, pre_cut, tail);
    let c = match count_tokens(tok, candidate.as_str()) {
        Ok(c) => c,
        Err(e) => return Err(e),
    };
    if c <= max_tokens {
        return Ok((all, false));
    }
    if n == 0 {
        proof {
            reveal_strlit("");
        }
        return Ok((String::new(), true));
    }
    let mut k: usize = n - 1;
    loop
        invariant
            k < n,
            n == rows.len(),
            vs == views(rows@),
            budget_choice(vs, pre@, pre_cut@, tail@, max_tokens as nat) == trim_from(vs, k as nat, pre@, pre_cut@, tail@, max_tokens as nat),
        decreases k,
    {
        let text = join_prefix(rows, k);
        let candidate = frame_text(text.as_str(), true, pre, pre_cut, tail);
        let c = match count_tokens(tok, candidate.as_str()) {
            Ok(c) => c,
            Err(e) => return Err(e),
        };
        if c <= max_tokens {
            return Ok((text, true));
        }
        if k == 0 {
            return Ok((String::new(), true));
        }
        k -= 1;
    }
}

} // verus!
