//! Character-level helpers shared by the row encoders and the heuristics.

use vstd::prelude::*;
use vstd::std_specs::iter::IteratorSpec;

verus! {

/// Appends one character to a string.
///
/// Wraps `String::push`; the contract claims what std documents: the string
/// afterwards is the old one followed by `c`.
#[verifier::external_body]
pub fn push_char(s: &mut String, c: char)
    ensures
        final(s)@ == old(s)@.push(c),
{
    s.push(c);
}

/// The characters of `s`, in order.
pub fn chars_of(s: &str) -> (v: Vec<char>)
    ensures
        v@ == s@,
{
    let mut it = s.chars();
    let mut v: Vec<char> = Vec::new();
    loop
        invariant
            v@ + it.remaining() == s@,
            it.decrease() is Some,
        ensures
            v@ == s@,
        decreases it.decrease()->0,
    {
        match it.next() {
            Some(c) => {
                v.push(c);
            },
            None => {
                break;
            },
        }
    }
    v
}


/// The decimal digit `d` (0 to 9) as a character.
pub open spec fn digit_char(d: nat) -> char {
    ((48 + d) as u8) as char
}

/// Decimal representation of `n`, most significant digit first, no leading zeros.
pub open spec fn decimal(n: nat) -> Seq<char>
    decreases n,
{
    if n < 10 {
        seq![digit_char(n)]
    } else {
        decimal(n / 10).push(digit_char(n % 10))
    }
}

/// Appends the decimal representation of `n` to `out`.
pub fn push_decimal(out: &mut String, n: usize)
    ensures
        final(out)@ == old(out)@ + decimal(n as nat),
    decreases n,
{
    if n >= 10 {
        push_decimal(out, n / 10);
    }
    let d: u8 = (n % 10) as u8;
    push_char(out, (48u8 + d) as char);
    proof {
        assert(final(out)@ =~= old(out)@ + decimal(n as nat));
    }
}

/// Appends the decimal representation of a 64-bit `n` to `out`.
pub fn push_decimal_u64(out: &mut String, n: u64)
    ensures
        final(out)@ == old(out)@ + decimal(n as nat),
    decreases n,
{
    if n >= 10 {
        push_decimal_u64(out, n / 10);
    }
    let d: u8 = (n % 10) as u8;
    push_char(out, (48u8 + d) as char);
    proof {
        assert(final(out)@ =~= old(out)@ + decimal(n as nat));
    }
}

/// The decimal representation of `n` as a new string (what `n.to_string()` gives).
pub fn decimal_string(n: usize) -> (s: String)
    ensures
        s@ == decimal(n as nat),
{
    let mut s = String::new();
    push_decimal(&mut s, n);
    proof {
        assert(s@ =~= decimal(n as nat));
    }
    s
}

/// A string holding exactly the characters of `v`.
pub fn string_from_chars(v: &Vec<char>) -> (s: String)
    ensures
        s@ == v@,
{
    let mut s = String::new();
    let mut i: usize = 0;
    while i < v.len()
        invariant
            i <= v.len(),
            s@ == v@.take(i as int),
        decreases v.len() - i,
    {
        push_char(&mut s, v[i]);
        i += 1;
        proof {
            assert(s@ =~= v@.take(i as int));
        }
    }
    proof {
        assert(v@.take(v.len() as int) =~= v@);
    }
    s
}


/// `needle` occurs in `hay` starting at position `i`.
pub open spec fn matches_at(hay: Seq<char>, needle: Seq<char>, i: int) -> bool {
    0 <= i && i + needle.len() <= hay.len() && hay.subrange(i, i + needle.len()) == needle
}

/// `needle` occurs somewhere in `hay` (the empty needle occurs everywhere).
pub open spec fn contains_seq(hay: Seq<char>, needle: Seq<char>) -> bool {
    exists|i: int| matches_at(hay, needle, i)
}

/// Position of the first occurrence of `needle` in `hay`, if any.
pub open spec fn first_match(hay: Seq<char>, needle: Seq<char>) -> Option<int> {
    if contains_seq(hay, needle) {
        Some(choose|i: int| matches_at(hay, needle, i) && forall|j: int| 0 <= j < i ==> !matches_at(hay, needle, j))
    } else {
        None
    }
}

/// Whether `needle` occurs in `hay` at position `i`.
pub fn match_at(hay: &Vec<char>, needle: &Vec<char>, i: usize) -> (b: bool)
    ensures
        b == matches_at(hay@, needle@, i as int),
{
    if i > hay.len() || needle.len() > hay.len() - i {
        return false;
    }
    let mut k: usize = 0;
    while k < needle.len()
        invariant
            k <= needle.len(),
            i + needle.len() <= hay.len(),
            forall|t: int| 0 <= t < k ==> hay@[i + t] == needle@[t],
        decreases needle.len() - k,
    {
        if hay[i + k] != needle[k] {
            proof {
                assert(hay@.subrange(i as int, i + needle.len())[k as int] != needle@[k as int]);
            }
            return false;
        }
        k += 1;
    }
    proof {
        assert(hay@.subrange(i as int, i + needle.len()) =~= needle@);
    }
    true
}

/// The first position where `needle` occurs in `hay`.
pub fn find_chars(hay: &Vec<char>, needle: &Vec<char>) -> (r: Option<usize>)
    ensures
        match r {
            Some(i) => matches_at(hay@, needle@, i as int) && forall|j: int|
                0 <= j < i ==> !matches_at(hay@, needle@, j),
            None => !contains_seq(hay@, needle@),
        },
        r matches Some(i) ==> first_match(hay@, needle@) == Some(i as int),
        r is None ==> first_match(hay@, needle@) is None,
{
    if needle.len() > hay.len() {
        return None;
    }
    let last = hay.len() - needle.len();
    let mut i: usize = 0;
    loop
        invariant
            last == hay.len() - needle.len(),
            i <= last,
            forall|j: int| 0 <= j < i ==> !matches_at(hay@, needle@, j),
        decreases last - i,
    {
        if match_at(hay, needle, i) {
            proof {
                let c = choose|c: int| matches_at(hay@, needle@, c) && forall|j: int| 0 <= j < c ==> !matches_at(hay@, needle@, j);
                assert(matches_at(hay@, needle@, c) && forall|j: int| 0 <= j < c ==> !matches_at(hay@, needle@, j));
                if c < i { assert(!matches_at(hay@, needle@, c)); }
                if c > i { assert(!matches_at(hay@, needle@, i as int)); }
            }
            return Some(i);
        }
        if i == last {
            proof {
                assert forall|j: int| matches_at(hay@, needle@, j) implies false by {
                    assert(j <= last);
                }
            }
            return None;
        }
        i += 1;
    }
}

/// Whether `needle` occurs anywhere in `hay`.
pub fn contains_chars(hay: &Vec<char>, needle: &Vec<char>) -> (b: bool)
    ensures
        b == contains_seq(hay@, needle@),
{
    match find_chars(hay, needle) {
        Some(_) => true,
        None => false,
    }
}

/// Strict lexicographic order on character sequences, by code point
/// (the order `String` comparison gives, since UTF-8 keeps code point order).
pub open spec fn seq_lt(a: Seq<char>, b: Seq<char>) -> bool
    decreases a.len(),
{
    if b.len() == 0 {
        false
    } else if a.len() == 0 {
        true
    } else if a[0] != b[0] {
        a[0] < b[0]
    } else {
        seq_lt(a.drop_first(), b.drop_first())
    }
}

/// Three-way comparison of two character sequences: -1, 0 or 1.
pub open spec fn seq_three_way(a: Seq<char>, b: Seq<char>) -> int {
    if a == b {
        0
    } else if seq_lt(a, b) {
        -1
    } else {
        1
    }
}

/// `seq_lt` is irreflexive and total on distinct sequences.
pub proof fn lemma_seq_lt_total(a: Seq<char>, b: Seq<char>)
    ensures
        !seq_lt(a, a),
        a != b ==> (seq_lt(a, b) != seq_lt(b, a)),
    decreases a.len(),
{
    if a.len() > 0 {
        lemma_seq_lt_total(a.drop_first(), a.drop_first());
    }
    if a != b && a.len() > 0 && b.len() > 0 && a[0] == b[0] {
        lemma_seq_lt_total(a.drop_first(), b.drop_first());
        if a.drop_first() == b.drop_first() {
            assert(a =~= seq![a[0]] + a.drop_first());
            assert(b =~= seq![b[0]] + b.drop_first());
        }
    }
    if a.len() == 0 && b.len() == 0 {
        assert(a =~= b);
    }
}

/// `seq_lt` is transitive.
pub proof fn lemma_seq_lt_trans(a: Seq<char>, b: Seq<char>, c: Seq<char>)
    requires
        seq_lt(a, b),
        seq_lt(b, c),
    ensures
        seq_lt(a, c),
    decreases a.len(),
{
    if a.len() > 0 && b.len() > 0 && c.len() > 0 && a[0] == b[0] && b[0] == c[0] {
        lemma_seq_lt_trans(a.drop_first(), b.drop_first(), c.drop_first());
    }
}

/// Three-way comparison of two character sequences by code point.
pub fn compare_chars(a: &Vec<char>, b: &Vec<char>) -> (r: i8)
    ensures
        r == seq_three_way(a@, b@),
{
    proof {
        lemma_seq_lt_total(a@, b@);
    }
    let mut i: usize = 0;
    proof {
        assert(a@.skip(0) =~= a@);
        assert(b@.skip(0) =~= b@);
    }
    while i < a.len() && i < b.len()
        invariant
            i <= a.len(),
            i <= b.len(),
            a@.take(i as int) == b@.take(i as int),
            seq_lt(a@, b@) == seq_lt(a@.skip(i as int), b@.skip(i as int)),
        decreases a.len() - i,
    {
        if a[i] != b[i] {
            proof {
                assert(a@.skip(i as int)[0] == a@[i as int]);
                assert(b@.skip(i as int)[0] == b@[i as int]);
                assert(a@[i as int] != b@[i as int] ==> a@ != b@);
            }
            if a[i] < b[i] {
                return -1;
            } else {
                return 1;
            }
        }
        proof {
            assert(a@.skip(i as int).drop_first() =~= a@.skip(i + 1));
            assert(b@.skip(i as int).drop_first() =~= b@.skip(i + 1));
            assert(a@.take(i + 1) =~= a@.take(i as int).push(a@[i as int]));
            assert(b@.take(i + 1) =~= b@.take(i as int).push(b@[i as int]));
        }
        i += 1;
    }
    if a.len() == b.len() {
        proof {
            assert(a@ =~= a@.take(i as int));
            assert(b@ =~= b@.take(i as int));
        }
        0
    } else if a.len() < b.len() {
        proof {
            assert(a@.skip(i as int).len() == 0);
            assert(b@.skip(i as int).len() > 0);
            assert(a@.len() != b@.len());
        }
        -1
    } else {
        proof {
            assert(b@.skip(i as int).len() == 0);
            assert(a@.len() != b@.len());
        }
        1
    }
}


/// The Unicode lowercase form of a string, as `str::to_lowercase` computes it.
pub uninterp spec fn lowercase(s: Seq<char>) -> Seq<char>;

/// Lowercases a string.
///
/// Wraps `str::to_lowercase`. Its result depends on the characters of `s`
/// alone (Unicode's lowercase mapping); the contract names it `lowercase`
/// and claims nothing more about it.
#[verifier::external_body]
pub fn to_lower(s: &str) -> (r: String)
    ensures
        r@ == lowercase(s@),
{
    s.to_lowercase()
}

/// The ASCII lowercase form of one character (other characters unchanged).
pub open spec fn ascii_lower_char(c: char) -> char {
    if 'A' <= c && c <= 'Z' {
        ((c as u32) + 32) as char
    } else {
        c
    }
}

/// The ASCII lowercase form of a string, as `str::to_ascii_lowercase` gives it.
pub open spec fn ascii_lower(s: Seq<char>) -> Seq<char> {
    s.map_values(|c: char| ascii_lower_char(c))
}

/// ASCII lowercase of the characters in `v`.
pub fn ascii_lower_chars(v: &Vec<char>) -> (r: Vec<char>)
    ensures
        r@ == ascii_lower(v@),
{
    let mut r: Vec<char> = Vec::new();
    let mut i: usize = 0;
    while i < v.len()
        invariant
            i <= v.len(),
            r@ == ascii_lower(v@.take(i as int)),
        decreases v.len() - i,
    {
        let c = v[i];
        let l = if 'A' <= c && c <= 'Z' {
            ((c as u8) + 32) as char
        } else {
            c
        };
        proof {
            if 'A' <= c && c <= 'Z' {
                assert((c as u8) as u32 == c as u32);
            }
        }
        r.push(l);
        i += 1;
        proof {
            assert(r@ =~= ascii_lower(v@.take(i as int)));
        }
    }
    proof {
        assert(v@.take(v.len() as int) =~= v@);
    }
    r
}


/// Whether two strings hold the same characters.
pub fn str_eq(a: &str, b: &str) -> (r: bool)
    ensures
        r == (a@ == b@),
{
    let x = chars_of(a);
    let y = chars_of(b);
    compare_chars(&x, &y) == 0
}

/// The first index below `n` where `p` holds.
pub open spec fn first_at(n: nat, p: spec_fn(int) -> bool) -> Option<int>
    decreases n,
{
    if n == 0 {
        None
    } else {
        match first_at((n - 1) as nat, p) {
            Some(i) => Some(i),
            None => if p(n - 1) {
                Some(n - 1)
            } else {
                None
            },
        }
    }
}

/// `first_at` picks the least index where `p` holds.
pub proof fn lemma_first_at(n: nat, p: spec_fn(int) -> bool)
    ensures
        match first_at(n, p) {
            Some(i) => 0 <= i < n && p(i) && forall|j: int| 0 <= j < i ==> !#[trigger] p(j),
            None => forall|j: int| 0 <= j < n ==> !#[trigger] p(j),
        },
    decreases n,
{
    if n > 0 {
        lemma_first_at((n - 1) as nat, p);
    }
}


/// Once `first_at` finds an index, looking further keeps it.
pub proof fn lemma_first_at_extend(n: nat, m: nat, p: spec_fn(int) -> bool)
    requires
        n <= m,
        first_at(n, p) is Some,
    ensures
        first_at(m, p) == first_at(n, p),
    decreases m - n,
{
    if m > n {
        lemma_first_at_extend(n, (m - 1) as nat, p);
    }
}

/// Whether `needle` occurs in `hay`.
pub fn str_contains(hay: &str, needle: &str) -> (b: bool)
    ensures
        b == contains_seq(hay@, needle@),
{
    let h = chars_of(hay);
    let n = chars_of(needle);
    contains_chars(&h, &n)
}

/// `s` starts with `p`.
pub open spec fn has_prefix(s: Seq<char>, p: Seq<char>) -> bool {
    p.len() <= s.len() && s.subrange(0, p.len() as int) == p
}

/// `s` ends with `p`.
pub open spec fn has_suffix(s: Seq<char>, p: Seq<char>) -> bool {
    p.len() <= s.len() && s.subrange(s.len() - p.len(), s.len() as int) == p
}

/// Whether `s` starts with `p`.
pub fn str_starts_with(s: &str, p: &str) -> (b: bool)
    ensures
        b == has_prefix(s@, p@),
{
    let v = chars_of(s);
    let w = chars_of(p);
    match_at(&v, &w, 0)
}

/// Whether `s` ends with `p`.
pub fn str_ends_with(s: &str, p: &str) -> (b: bool)
    ensures
        b == has_suffix(s@, p@),
{
    let v = chars_of(s);
    let w = chars_of(p);
    if w.len() > v.len() {
        false
    } else {
        match_at(&v, &w, v.len() - w.len())
    }
}

/// Three-way comparison of two strings by code point (`str` ordering).
pub fn str_three_way(a: &str, b: &str) -> (r: i8)
    ensures
        r == seq_three_way(a@, b@),
{
    let x = chars_of(a);
    let y = chars_of(b);
    compare_chars(&x, &y)
}

/// Non-overlapping occurrences of a non-empty `needle` in `hay` from `i` on,
/// taken leftmost first.
pub open spec fn count_from(hay: Seq<char>, needle: Seq<char>, i: int) -> nat
    decreases hay.len() - i,
{
    if needle.len() == 0 || i < 0 || i + needle.len() > hay.len() {
        0
    } else if matches_at(hay, needle, i) {
        1 + count_from(hay, needle, i + needle.len())
    } else {
        count_from(hay, needle, i + 1)
    }
}

/// How many times `str::matches` finds `needle` in `hay`: the empty needle
/// matches at every character boundary.
pub open spec fn match_count(hay: Seq<char>, needle: Seq<char>) -> nat {
    if needle.len() == 0 {
        hay.len() + 1
    } else {
        count_from(hay, needle, 0)
    }
}

/// There are no more matches from `i` than characters left.
pub proof fn lemma_count_from_bound(hay: Seq<char>, needle: Seq<char>, i: int)
    requires
        0 <= i,
    ensures
        count_from(hay, needle, i) <= if i <= hay.len() { hay.len() - i } else { 0 },
    decreases hay.len() - i,
{
    if needle.len() > 0 && i + needle.len() <= hay.len() {
        if matches_at(hay, needle, i) {
            lemma_count_from_bound(hay, needle, i + needle.len());
        } else {
            lemma_count_from_bound(hay, needle, i + 1);
        }
    }
}

/// Counts the matches of `needle` in `hay` (saturating at `usize::MAX`,
/// which only the empty needle could reach).
pub fn count_matches(hay: &Vec<char>, needle: &Vec<char>) -> (n: usize)
    ensures
        n == (if match_count(hay@, needle@) < usize::MAX { match_count(hay@, needle@) } else { usize::MAX as nat }),
{
    if needle.len() == 0 {
        return if hay.len() < usize::MAX { hay.len() + 1 } else { usize::MAX };
    }
    let mut count: usize = 0;
    let mut i: usize = 0;
    while i <= hay.len() && needle.len() <= hay.len() - i
        invariant
            needle.len() > 0,
            i <= hay.len() + 1,
            count <= i,
            count + count_from(hay@, needle@, i as int) == count_from(hay@, needle@, 0),
        decreases hay.len() + 1 - i,
    {
        proof {
            lemma_count_from_bound(hay@, needle@, i as int);
        }
        if match_at(hay, needle, i) {
            count += 1;
            i += needle.len();
        } else {
            i += 1;
        }
    }
    count
}

} // verus!
