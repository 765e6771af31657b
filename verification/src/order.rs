//! Lexicographic order on text and the stable insertion order that the
//! client's sorts produce.

use vstd::prelude::*;

verus! {

/// Three-way lexicographic order of two char sequences by code point: `-1`,
/// `0` or `1`. This is the order of `String`'s `Ord`, since UTF-8 keeps the
/// order of code points.
pub open spec fn lex_order(a: Seq<char>, b: Seq<char>) -> int
    decreases a.len(),
{
    if a.len() == 0 {
        if b.len() == 0 {
            0
        } else {
            -1
        }
    } else if b.len() == 0 {
        1
    } else if a[0] < b[0] {
        -1
    } else if a[0] > b[0] {
        1
    } else {
        lex_order(a.drop_first(), b.drop_first())
    }
}

proof fn lemma_lex_order_skip(a: Seq<char>, b: Seq<char>, i: int)
    requires
        0 <= i <= a.len(),
        i <= b.len(),
        forall|j: int| 0 <= j < i ==> a[j] == b[j],
    ensures
        lex_order(a, b) == lex_order(a.skip(i), b.skip(i)),
    decreases i,
{
    if i == 0 {
        assert(a.skip(0) =~= a);
        assert(b.skip(0) =~= b);
    } else {
        assert(a.drop_first().skip(i - 1) =~= a.skip(i));
        assert(b.drop_first().skip(i - 1) =~= b.skip(i));
        assert(a[0] == b[0]);
        lemma_lex_order_skip(a.drop_first(), b.drop_first(), i - 1);
    }
}

/// Three-way lexicographic order of two char vectors.
pub fn lex_compare(a: &Vec<char>, b: &Vec<char>) -> (r: i8)
    ensures
        r as int == lex_order(a@, b@),
{
    let mut i: usize = 0;
    while i < a.len() && i < b.len() && a[i] == b[i]
        invariant
            i <= a.len(),
            i <= b.len(),
            forall|j: int| 0 <= j < i ==> a@[j] == b@[j],
        decreases a.len() - i,
    {
        i = i + 1;
    }
    proof {
        lemma_lex_order_skip(a@, b@, i as int);
    }
    let ghost sa = a@.skip(i as int);
    let ghost sb = b@.skip(i as int);
    if i == a.len() {
        if i == b.len() {
            0
        } else {
            -1
        }
    } else if i == b.len() {
        1
    } else {
        assert(sa[0] == a@[i as int]);
        assert(sb[0] == b@[i as int]);
        if a[i] < b[i] {
            -1
        } else {
            1
        }
    }
}

/// `x` inserted into `s` after the last element that is not greater than it:
/// one step of a stable insertion sort under `gt`.
pub open spec fn insert_stable<T>(s: Seq<T>, x: T, gt: spec_fn(T, T) -> bool) -> Seq<T>
    decreases s.len(),
{
    if s.len() == 0 {
        seq![x]
    } else if gt(s.last(), x) {
        insert_stable(s.drop_last(), x, gt).push(s.last())
    } else {
        s.push(x)
    }
}

/// `s` sorted stably under `gt`: elements that are not greater than one
/// another keep their order. For a total preorder this is the one result that
/// a stable sort such as `slice::sort_by` can give.
pub open spec fn sort_stable<T>(s: Seq<T>, gt: spec_fn(T, T) -> bool) -> Seq<T>
    decreases s.len(),
{
    if s.len() == 0 {
        s
    } else {
        insert_stable(sort_stable(s.drop_last(), gt), s.last(), gt)
    }
}

/// Inserting at the position found by scanning from the right.
pub proof fn lemma_insert_stable_at<T>(s: Seq<T>, x: T, gt: spec_fn(T, T) -> bool, j: int)
    requires
        0 <= j <= s.len(),
        forall|k: int| j <= k < s.len() ==> gt(#[trigger] s[k], x),
        j == 0 || !gt(s[j - 1], x),
    ensures
        insert_stable(s, x, gt) == s.take(j).push(x) + s.skip(j),
    decreases s.len() - j,
{
    if j == s.len() {
        if s.len() > 0 {
            assert(!gt(s.last(), x));
        }
        assert(s.take(j).push(x) + s.skip(j) =~= s.push(x));
    } else {
        assert(gt(s.last(), x));
        let t = s.drop_last();
        assert forall|k: int| j <= k < t.len() implies gt(#[trigger] t[k], x) by {
            assert(t[k] == s[k]);
        }
        if j > 0 {
            assert(t[j - 1] == s[j - 1]);
        }
        lemma_insert_stable_at(t, x, gt, j);
        assert(t.take(j).push(x) + t.skip(j) + seq![s.last()] =~= s.take(j).push(x) + s.skip(j));
    }
}

/// One step of the sort: the order of the first `i + 1` elements follows from
/// that of the first `i`.
pub proof fn lemma_sort_stable_step<T>(s: Seq<T>, gt: spec_fn(T, T) -> bool, i: int)
    requires
        0 <= i < s.len(),
    ensures
        sort_stable(s.take(i + 1), gt) == insert_stable(sort_stable(s.take(i), gt), s[i], gt),
{
    assert(s.take(i + 1).drop_last() =~= s.take(i));
}

/// Inserting adds exactly the one element.
pub proof fn lemma_insert_stable_multiset<T>(s: Seq<T>, x: T, gt: spec_fn(T, T) -> bool)
    ensures
        insert_stable(s, x, gt).to_multiset() == s.to_multiset().insert(x),
    decreases s.len(),
{
    broadcast use vstd::seq_lib::group_to_multiset_ensures, vstd::multiset::group_multiset_axioms;

    if s.len() > 0 && gt(s.last(), x) {
        let t = s.drop_last();
        lemma_insert_stable_multiset(t, x, gt);
        assert(s =~= t.push(s.last()));
        assert(insert_stable(s, x, gt).to_multiset() =~= s.to_multiset().insert(x));
    }
}

/// The stable sort is a permutation: it keeps every element as often as it
/// occurs.
pub proof fn lemma_sort_stable_multiset<T>(s: Seq<T>, gt: spec_fn(T, T) -> bool)
    ensures
        sort_stable(s, gt).to_multiset() == s.to_multiset(),
    decreases s.len(),
{
    broadcast use vstd::seq_lib::group_to_multiset_ensures, vstd::multiset::group_multiset_axioms;

    if s.len() > 0 {
        let t = s.drop_last();
        lemma_sort_stable_multiset(t, gt);
        lemma_insert_stable_multiset(sort_stable(t, gt), s.last(), gt);
        assert(s =~= t.push(s.last()));
    }
}

/// Swapping the arguments of the lexicographic order negates it.
pub proof fn lemma_lex_order_antisymmetric(a: Seq<char>, b: Seq<char>)
    ensures
        lex_order(a, b) == -lex_order(b, a),
    decreases a.len(),
{
    if a.len() > 0 && b.len() > 0 && a[0] == b[0] {
        lemma_lex_order_antisymmetric(a.drop_first(), b.drop_first());
    }
}

/// "Not after" in the lexicographic order is transitive.
pub proof fn lemma_lex_order_transitive(a: Seq<char>, b: Seq<char>, c: Seq<char>)
    requires
        lex_order(a, b) <= 0,
        lex_order(b, c) <= 0,
    ensures
        lex_order(a, c) <= 0,
    decreases a.len(),
{
    if a.len() > 0 && b.len() > 0 && c.len() > 0 && a[0] == b[0] && b[0] == c[0] {
        lemma_lex_order_transitive(a.drop_first(), b.drop_first(), c.drop_first());
    }
}

/// Lexicographic "not after" is transitive, and ties only through ties.
pub proof fn lemma_lex_weak(a: Seq<char>, b: Seq<char>, c: Seq<char>)
    requires
        lex_order(a, b) <= 0,
        lex_order(b, c) <= 0,
    ensures
        lex_order(a, c) <= 0,
        lex_order(a, c) == 0 ==> lex_order(a, b) == 0 && lex_order(b, c) == 0,
{
    lemma_lex_order_transitive(a, b, c);
    if lex_order(a, c) == 0 {
        lemma_lex_order_zero(a, c);
        lemma_lex_order_antisymmetric(a, b);
        lemma_lex_order_antisymmetric(b, c);
    }
}

/// `s` is in order under `gt`: no element is greater than one after it.
pub open spec fn sorted_by<T>(s: Seq<T>, gt: spec_fn(T, T) -> bool) -> bool {
    forall|i: int, j: int| 0 <= i < j < s.len() ==> !gt(#[trigger] s[i], #[trigger] s[j])
}

/// `gt` is a strict order whose "not greater" relation is transitive, as the
/// strict part of a total preorder is.
pub open spec fn strict_weak<T>(gt: spec_fn(T, T) -> bool) -> bool {
    &&& forall|a: T, b: T| #[trigger] gt(a, b) ==> !gt(b, a)
    &&& forall|a: T, b: T, c: T| #![trigger gt(a, b), gt(b, c)] !gt(a, b) && !gt(b, c) ==> !gt(a, c)
}

proof fn lemma_insert_stable_sorted<T>(s: Seq<T>, x: T, gt: spec_fn(T, T) -> bool)
    requires
        strict_weak(gt),
        sorted_by(s, gt),
    ensures
        sorted_by(insert_stable(s, x, gt), gt),
    decreases s.len(),
{
    broadcast use vstd::seq_lib::group_to_multiset_ensures;

    if s.len() == 0 {
    } else if gt(s.last(), x) {
        let t = s.drop_last();
        let l = s.last();
        lemma_insert_stable_sorted(t, x, gt);
        let u = insert_stable(t, x, gt);
        lemma_insert_stable_multiset(t, x, gt);
        let r = u.push(l);
        assert forall|i: int, j: int| 0 <= i < j < r.len() implies !gt(#[trigger] r[i], #[trigger] r[j]) by {
            if j == r.len() - 1 {
                assert(r[j] == l);
                assert(r[i] == u[i]);
                assert(u.to_multiset().count(u[i]) > 0);
                if u[i] != x {
                    assert(t.to_multiset().count(u[i]) > 0);
                    let k = choose|k: int| 0 <= k < t.len() && t[k] == u[i];
                    assert(s[k] == t[k]);
                    assert(s[s.len() - 1] == l);
                }
            } else {
                assert(r[i] == u[i]);
                assert(r[j] == u[j]);
            }
        }
    } else {
        let r = s.push(x);
        assert forall|i: int, j: int| 0 <= i < j < r.len() implies !gt(#[trigger] r[i], #[trigger] r[j]) by {
            if j == r.len() - 1 {
                assert(r[i] == s[i]);
                if i < s.len() - 1 {
                    assert(!gt(s[i], s[s.len() - 1]));
                }
            } else {
                assert(r[i] == s[i]);
                assert(r[j] == s[j]);
            }
        }
    }
}

/// The stable sort puts its elements in order, for a strict weak order.
pub proof fn lemma_sort_stable_sorted<T>(s: Seq<T>, gt: spec_fn(T, T) -> bool)
    requires
        strict_weak(gt),
    ensures
        sorted_by(sort_stable(s, gt), gt),
    decreases s.len(),
{
    if s.len() > 0 {
        lemma_sort_stable_sorted(s.drop_last(), gt);
        lemma_insert_stable_sorted(sort_stable(s.drop_last(), gt), s.last(), gt);
    }
}

/// Text is level with only itself in the lexicographic order.
pub proof fn lemma_lex_order_zero(a: Seq<char>, b: Seq<char>)
    requires
        lex_order(a, b) == 0,
    ensures
        a == b,
    decreases a.len(),
{
    if a.len() > 0 {
        lemma_lex_order_zero(a.drop_first(), b.drop_first());
        assert(a =~= seq![a[0]] + a.drop_first());
        assert(b =~= seq![b[0]] + b.drop_first());
    } else {
        assert(a =~= b);
    }
}

} // verus!
