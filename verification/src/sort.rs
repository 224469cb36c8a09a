//! Stable sorting by a key order, specified as insertion sort.

use vstd::prelude::*;

verus! {

/// A type with a strict order on its sort key.
pub trait Ordered: Sized {
    /// `self` sorts strictly before `other`.
    spec fn before(&self, other: &Self) -> bool;

    /// Executable form of `before`.
    fn is_before(&self, other: &Self) -> (r: bool)
        ensures
            r == self.before(other),
    ;
}

/// `x` inserted into `s` after every element that does not sort after it.
pub open spec fn insert_sorted<T: Ordered>(x: T, s: Seq<T>) -> Seq<T>
    decreases s.len(),
{
    if s.len() == 0 {
        seq![x]
    } else if x.before(&s[0]) {
        seq![x] + s
    } else {
        seq![s[0]] + insert_sorted(x, s.drop_first())
    }
}

/// The stable sort of `s`: its elements inserted one by one, first to last.
pub open spec fn sorted_by<T: Ordered>(s: Seq<T>) -> Seq<T>
    decreases s.len(),
{
    if s.len() == 0 {
        seq![]
    } else {
        insert_sorted(s.last(), sorted_by(s.drop_last()))
    }
}

/// Inserting before the first element that `x` sorts before is `insert_sorted`.
pub proof fn lemma_insert_position<T: Ordered>(x: T, s: Seq<T>, p: int)
    requires
        0 <= p <= s.len(),
        forall|k: int| 0 <= k < p ==> !x.before(&s[k]),
        p < s.len() ==> x.before(&s[p]),
    ensures
        insert_sorted(x, s) == s.insert(p, x),
    decreases s.len(),
{
    if s.len() == 0 {
        assert(s.insert(p, x) =~= seq![x]);
    } else if p == 0 {
        assert(s.insert(p, x) =~= seq![x] + s);
    } else {
        let t = s.drop_first();
        assert forall|k: int| 0 <= k < p - 1 implies !x.before(&t[k]) by {
            assert(t[k] == s[k + 1]);
        }
        if p - 1 < t.len() {
            assert(t[p - 1] == s[p]);
        }
        lemma_insert_position(x, t, p - 1);
        assert(s.insert(p, x) =~= seq![s[0]] + t.insert(p - 1, x));
    }
}

/// The elements of `v` in stable sorted order.
pub fn sort_stable<T: Ordered>(v: Vec<T>) -> (r: Vec<T>)
    ensures
        r@ == sorted_by(v@),
{
    let ghost orig = v@;
    let n = v.len();
    let mut rest = v;
    let mut out: Vec<T> = Vec::new();
    let mut i: usize = 0;
    while rest.len() > 0
        invariant
            i <= orig.len(),
            orig.len() == n,
            rest@ == orig.skip(i as int),
            out@ == sorted_by(orig.take(i as int)),
        decreases rest.len(),
    {
        let x = rest.remove(0);
        let mut p: usize = 0;
        while p < out.len()
            invariant
                p <= out.len(),
                forall|k: int| 0 <= k < p ==> !x.before(&out@[k]),
            ensures
                p <= out.len(),
                forall|k: int| 0 <= k < p ==> !x.before(&out@[k]),
                p < out.len() ==> x.before(&out@[p as int]),
            decreases out.len() - p,
        {
            if x.is_before(&out[p]) {
                break;
            }
            p += 1;
        }
        proof {
            assert(x == orig[i as int]);
            lemma_insert_position(x, out@, p as int);
            assert(orig.take(i + 1).drop_last() =~= orig.take(i as int));
            assert(orig.take(i + 1).last() == x);
        }
        out.insert(p, x);
        i += 1;
        proof {
            assert(rest@ =~= orig.skip(i as int));
        }
    }
    proof {
        assert(orig.take(i as int) =~= orig);
    }
    out
}

/// A type sorted by a strict order on its view.
pub trait ViewOrdered: View + Sized {
    /// `a` sorts strictly before `b`.
    spec fn view_before(a: Self::V, b: Self::V) -> bool;

    /// Executable form of `view_before`.
    fn is_before(&self, other: &Self) -> (r: bool)
        ensures
            r == Self::view_before(self@, other@),
    ;
}

/// The views of a sequence.
pub open spec fn view_seq<T: View>(s: Seq<T>) -> Seq<T::V> {
    s.map_values(|x: T| x@)
}

/// `x` inserted into `s` after every element that does not sort after it.
pub open spec fn insert_view<T: ViewOrdered>(x: T::V, s: Seq<T::V>) -> Seq<T::V>
    decreases s.len(),
{
    if s.len() == 0 {
        seq![x]
    } else if T::view_before(x, s[0]) {
        seq![x] + s
    } else {
        seq![s[0]] + insert_view::<T>(x, s.drop_first())
    }
}

/// The stable sort of `s` by `T::view_before`: elements inserted first to last.
pub open spec fn sorted_view<T: ViewOrdered>(s: Seq<T::V>) -> Seq<T::V>
    decreases s.len(),
{
    if s.len() == 0 {
        seq![]
    } else {
        insert_view::<T>(s.last(), sorted_view::<T>(s.drop_last()))
    }
}

/// Inserting before the first element that `x` sorts before is `insert_view`.
pub proof fn lemma_insert_view_position<T: ViewOrdered>(x: T::V, s: Seq<T::V>, p: int)
    requires
        0 <= p <= s.len(),
        forall|k: int| 0 <= k < p ==> !T::view_before(x, s[k]),
        p < s.len() ==> T::view_before(x, s[p]),
    ensures
        insert_view::<T>(x, s) == s.insert(p, x),
    decreases s.len(),
{
    if s.len() == 0 {
        assert(s.insert(p, x) =~= seq![x]);
    } else if p == 0 {
        assert(s.insert(p, x) =~= seq![x] + s);
    } else {
        let t = s.drop_first();
        assert forall|k: int| 0 <= k < p - 1 implies !T::view_before(x, t[k]) by {
            assert(t[k] == s[k + 1]);
        }
        if p - 1 < t.len() {
            assert(t[p - 1] == s[p]);
        }
        lemma_insert_view_position::<T>(x, t, p - 1);
        assert(s.insert(p, x) =~= seq![s[0]] + t.insert(p - 1, x));
    }
}

/// `T::view_before` is a strict order: irreflexive and transitive.
pub open spec fn strict_order<T: ViewOrdered>() -> bool {
    &&& forall|a: T::V| !#[trigger] T::view_before(a, a)
    &&& forall|a: T::V, b: T::V, c: T::V| #[trigger] T::view_before(a, b) && #[trigger] T::view_before(b, c) ==> T::view_before(a, c)
}

/// No element of `s` sorts strictly before one that comes earlier.
pub open spec fn view_sorted<T: ViewOrdered>(s: Seq<T::V>) -> bool {
    forall|i: int, j: int| 0 <= i < j < s.len() ==> !T::view_before(#[trigger] s[j], #[trigger] s[i])
}

/// Inserting into a sorted sequence keeps it sorted.
proof fn lemma_insert_view_sorted<T: ViewOrdered>(x: T::V, s: Seq<T::V>)
    requires
        strict_order::<T>(),
        view_sorted::<T>(s),
    ensures
        view_sorted::<T>(insert_view::<T>(x, s)),
        insert_view::<T>(x, s).len() == s.len() + 1,
        forall|k: int| 0 <= k < insert_view::<T>(x, s).len() ==>
            #[trigger] insert_view::<T>(x, s)[k] == x || s.contains(insert_view::<T>(x, s)[k]),
    decreases s.len(),
{
    let r = insert_view::<T>(x, s);
    if s.len() == 0 {
    } else if T::view_before(x, s[0]) {
        assert forall|i: int, j: int| 0 <= i < j < r.len() implies !T::view_before(#[trigger] r[j], #[trigger] r[i]) by {
            if i == 0 {
                assert(r[j] == s[j - 1]);
                if T::view_before(s[j - 1], x) {
                    assert(T::view_before(s[j - 1], s[0]));
                    if j - 1 == 0 {
                        assert(!T::view_before(s[0], s[0]));
                    }
                }
            } else {
                assert(r[i] == s[i - 1]);
                assert(r[j] == s[j - 1]);
            }
        }
        assert forall|k: int| 0 <= k < r.len() implies #[trigger] r[k] == x || s.contains(r[k]) by {
            if k > 0 {
                assert(r[k] == s[k - 1]);
            }
        }
    } else {
        let t = s.drop_first();
        assert forall|i: int, j: int| 0 <= i < j < t.len() implies !T::view_before(#[trigger] t[j], #[trigger] t[i]) by {
            assert(t[i] == s[i + 1]);
            assert(t[j] == s[j + 1]);
        }
        lemma_insert_view_sorted::<T>(x, t);
        let rt = insert_view::<T>(x, t);
        assert forall|i: int, j: int| 0 <= i < j < r.len() implies !T::view_before(#[trigger] r[j], #[trigger] r[i]) by {
            assert(r[j] == rt[j - 1]);
            if i == 0 {
                assert(r[0] == s[0]);
                let y = rt[j - 1];
                if y == x {
                } else {
                    assert(t.contains(y));
                    let m = choose|m: int| 0 <= m < t.len() && t[m] == y;
                    assert(t[m] == s[m + 1]);
                }
            } else {
                assert(r[i] == rt[i - 1]);
            }
        }
        assert forall|k: int| 0 <= k < r.len() implies #[trigger] r[k] == x || s.contains(r[k]) by {
            if k == 0 {
                assert(r[0] == s[0]);
            } else {
                assert(r[k] == rt[k - 1]);
                if rt[k - 1] != x {
                    assert(t.contains(rt[k - 1]));
                    let m = choose|m: int| 0 <= m < t.len() && t[m] == rt[k - 1];
                    assert(t[m] == s[m + 1]);
                }
            }
        }
    }
}

/// The stable sort orders its elements: none sorts before an earlier one.
pub proof fn lemma_sorted_view_sorted<T: ViewOrdered>(s: Seq<T::V>)
    requires
        strict_order::<T>(),
    ensures
        view_sorted::<T>(sorted_view::<T>(s)),
    decreases s.len(),
{
    if s.len() > 0 {
        lemma_sorted_view_sorted::<T>(s.drop_last());
        lemma_insert_view_sorted::<T>(s.last(), sorted_view::<T>(s.drop_last()));
    }
}

/// The elements of `v` in stable order of their views.
pub fn sort_by_view<T: ViewOrdered>(v: Vec<T>) -> (r: Vec<T>)
    ensures
        view_seq(r@) == sorted_view::<T>(view_seq(v@)),
{
    let ghost orig = view_seq(v@);
    let ghost ov = v@;
    let n = v.len();
    let mut rest = v;
    let mut out: Vec<T> = Vec::new();
    let mut i: usize = 0;
    proof {
        assert(view_seq(out@) =~= sorted_view::<T>(orig.take(0)));
        assert(rest@ =~= ov.skip(0));
    }
    while rest.len() > 0
        invariant
            i <= ov.len(),
            ov.len() == n,
            orig == view_seq(ov),
            rest@ == ov.skip(i as int),
            view_seq(out@) == sorted_view::<T>(orig.take(i as int)),
        decreases rest.len(),
    {
        let x = rest.remove(0);
        let mut p: usize = 0;
        while p < out.len()
            invariant
                p <= out.len(),
                forall|k: int| 0 <= k < p ==> !T::view_before(x@, out@[k]@),
            ensures
                p <= out.len(),
                forall|k: int| 0 <= k < p ==> !T::view_before(x@, out@[k]@),
                p < out.len() ==> T::view_before(x@, out@[p as int]@),
            decreases out.len() - p,
        {
            if x.is_before(&out[p]) {
                break;
            }
            p += 1;
        }
        proof {
            assert(x == ov[i as int]);
            let so = view_seq(out@);
            assert forall|k: int| 0 <= k < p implies !T::view_before(x@, so[k]) by {
                assert(so[k] == out@[k]@);
            }
            if p < out.len() {
                assert(so[p as int] == out@[p as int]@);
            }
            lemma_insert_view_position::<T>(x@, so, p as int);
            assert(orig.take(i + 1).drop_last() =~= orig.take(i as int));
            assert(orig.take(i + 1).last() == x@);
        }
        let ghost before = out@;
        out.insert(p, x);
        proof {
            assert(view_seq(out@) =~= view_seq(before).insert(p as int, x@));
        }
        i += 1;
        proof {
            assert(rest@ =~= ov.skip(i as int));
        }
    }
    proof {
        assert(orig.take(i as int) =~= orig);
    }
    out
}

/// Inserting adds exactly `x` to the elements.
pub proof fn lemma_insert_view_members<T: ViewOrdered>(x: T::V, t: Seq<T::V>)
    ensures
        insert_view::<T>(x, t).len() == t.len() + 1,
        forall|j: int| 0 <= j < t.len() + 1 ==> #[trigger] insert_view::<T>(x, t)[j] == x
            || exists|w: int| 0 <= w < t.len() && t[w] == insert_view::<T>(x, t)[j],
    decreases t.len(),
{
    if t.len() > 0 && !T::view_before(x, t[0]) {
        let r = insert_view::<T>(x, t.drop_first());
        lemma_insert_view_members::<T>(x, t.drop_first());
        assert forall|j: int| 0 <= j < t.len() + 1 implies #[trigger] insert_view::<T>(x, t)[j] == x
            || exists|w: int| 0 <= w < t.len() && t[w] == insert_view::<T>(x, t)[j] by {
            if j == 0 {
                assert(t[0] == insert_view::<T>(x, t)[0]);
            } else {
                assert(insert_view::<T>(x, t)[j] == r[j - 1]);
                if r[j - 1] != x {
                    let w = choose|w: int| 0 <= w < t.len() - 1 && t.drop_first()[w] == r[j - 1];
                    assert(t[w + 1] == r[j - 1]);
                }
            }
        }
    } else if t.len() > 0 {
        assert forall|j: int| 0 <= j < t.len() + 1 implies #[trigger] insert_view::<T>(x, t)[j] == x
            || exists|w: int| 0 <= w < t.len() && t[w] == insert_view::<T>(x, t)[j] by {
            if j > 0 {
                assert(t[j - 1] == insert_view::<T>(x, t)[j]);
            }
        }
    }
}

/// Sorting keeps the length, and every element of the result comes from the input.
pub proof fn lemma_sorted_view_members<T: ViewOrdered>(s: Seq<T::V>)
    ensures
        sorted_view::<T>(s).len() == s.len(),
        forall|j: int| 0 <= j < s.len() ==> exists|w: int| 0 <= w < s.len() && s[w] == #[trigger] sorted_view::<T>(s)[j],
    decreases s.len(),
{
    if s.len() > 0 {
        let t = sorted_view::<T>(s.drop_last());
        lemma_sorted_view_members::<T>(s.drop_last());
        lemma_insert_view_members::<T>(s.last(), t);
        assert forall|j: int| 0 <= j < s.len() implies exists|w: int| 0 <= w < s.len() && s[w] == #[trigger] sorted_view::<T>(s)[j] by {
            let e = sorted_view::<T>(s)[j];
            if e == s.last() {
                assert(s[s.len() - 1] == e);
            } else {
                let w1 = choose|w: int| 0 <= w < t.len() && t[w] == e;
                let w2 = choose|w: int| 0 <= w < s.len() - 1 && s.drop_last()[w] == t[w1];
                assert(s[w2] == e);
            }
        }
    }
}

/// Inserting keeps every element and adds `x`.
pub proof fn lemma_insert_view_keeps<T: ViewOrdered>(x: T::V, t: Seq<T::V>, y: T::V)
    requires
        y == x || t.contains(y),
    ensures
        insert_view::<T>(x, t).contains(y),
    decreases t.len(),
{
    let r = insert_view::<T>(x, t);
    if t.len() == 0 {
        assert(r[0] == x);
    } else if T::view_before(x, t[0]) {
        if y == x {
            assert(r[0] == x);
        } else {
            let w = choose|w: int| 0 <= w < t.len() && t[w] == y;
            assert(r[w + 1] == y);
        }
    } else {
        let u = t.drop_first();
        if y == x || u.contains(y) {
            lemma_insert_view_keeps::<T>(x, u, y);
            let w = choose|w: int| 0 <= w < insert_view::<T>(x, u).len() && insert_view::<T>(x, u)[w] == y;
            assert(r[w + 1] == y);
        } else {
            let w = choose|w: int| 0 <= w < t.len() && t[w] == y;
            if w > 0 {
                assert(u[w - 1] == y);
            }
            assert(r[0] == y);
        }
    }
}

/// Sorting keeps every element of the input.
pub proof fn lemma_sorted_view_keeps<T: ViewOrdered>(s: Seq<T::V>, y: T::V)
    requires
        s.contains(y),
    ensures
        sorted_view::<T>(s).contains(y),
    decreases s.len(),
{
    let w = choose|w: int| 0 <= w < s.len() && s[w] == y;
    if w < s.len() - 1 {
        assert(s.drop_last()[w] == y);
        lemma_sorted_view_keeps::<T>(s.drop_last(), y);
    }
    lemma_insert_view_keeps::<T>(s.last(), sorted_view::<T>(s.drop_last()), y);
}

impl ViewOrdered for String {
    /// Strings order as their characters do (`Ord for String`).
    open spec fn view_before(a: Seq<char>, b: Seq<char>) -> bool {
        crate::text::seq_lt(a, b)
    }

    fn is_before(&self, other: &Self) -> (r: bool) {
        proof {
            crate::text::lemma_seq_lt_total(self@, other@);
        }
        crate::text::str_three_way(self.as_str(), other.as_str()) < 0
    }
}

/// `s` with each run of equal neighbours cut to its first element.
pub open spec fn dedup_runs(s: Seq<Seq<char>>) -> Seq<Seq<char>>
    decreases s.len(),
{
    if s.len() == 0 {
        seq![]
    } else if s.len() >= 2 && s[s.len() - 2] == s.last() {
        dedup_runs(s.drop_last())
    } else {
        dedup_runs(s.drop_last()).push(s.last())
    }
}

/// Drops neighbours equal to the one before (`Vec::dedup`).
pub fn dedup_strings(v: &Vec<String>) -> (r: Vec<String>)
    ensures
        crate::rows::views(r@) == dedup_runs(crate::rows::views(v@)),
{
    let ghost vs = crate::rows::views(v@);
    let mut out: Vec<String> = Vec::new();
    let mut i: usize = 0;
    proof {
        assert(vs.take(0) =~= Seq::<Seq<char>>::empty());
    }
    while i < v.len()
        invariant
            i <= v.len(),
            vs == crate::rows::views(v@),
            crate::rows::views(out@) == dedup_runs(vs.take(i as int)),
        decreases v.len() - i,
    {
        let ghost t = vs.take(i + 1);
        proof {
            assert(t.drop_last() =~= vs.take(i as int));
            assert(t.last() == v@[i as int]@);
            if i >= 1 {
                assert(t[t.len() - 2] == v@[i - 1]@);
            }
        }
        if i == 0 || !crate::text::str_eq(v[i - 1].as_str(), v[i].as_str()) {
            let ghost before = out@;
            out.push(v[i].clone());
            proof {
                assert(crate::rows::views(out@) =~= crate::rows::views(before).push(v@[i as int]@));
            }
        }
        i += 1;
    }
    proof {
        assert(vs.take(v.len() as int) =~= vs);
    }
    out
}

/// Cutting runs of equal neighbours keeps every value.
pub proof fn lemma_dedup_runs_keeps(s: Seq<Seq<char>>, y: Seq<char>)
    requires
        s.contains(y),
    ensures
        dedup_runs(s).contains(y),
    decreases s.len(),
{
    let w = choose|w: int| 0 <= w < s.len() && s[w] == y;
    let d = s.drop_last();
    if s.len() >= 2 && s[s.len() - 2] == s.last() {
        if w == s.len() - 1 {
            assert(d[s.len() - 2] == y);
        } else {
            assert(d[w] == y);
        }
        lemma_dedup_runs_keeps(d, y);
    } else if w == s.len() - 1 {
        assert(dedup_runs(s).last() == y);
    } else {
        assert(d[w] == y);
        lemma_dedup_runs_keeps(d, y);
        let v = choose|v: int| 0 <= v < dedup_runs(d).len() && dedup_runs(d)[v] == y;
        assert(dedup_runs(s)[v] == y);
    }
}

} // verus!
