use vstd::multiset::Multiset;
use vstd::prelude::*;

verus! {

/// `s` with `x` placed before the first element that `x` comes before
/// (after all elements that it does not come before): one step of a stable
/// insertion sort.
pub open spec fn insert_by<T>(s: Seq<T>, x: T, before: spec_fn(T, T) -> bool) -> Seq<T>
    decreases s.len(),
{
    if s.len() == 0 {
        seq![x]
    } else if before(x, s[0]) {
        seq![x] + s
    } else {
        seq![s[0]] + insert_by(s.drop_first(), x, before)
    }
}

/// The stable sort of `s` by the strict order `before`: elements that neither
/// comes before the other keep their order in `s`.
pub open spec fn stable_sort<T>(s: Seq<T>, before: spec_fn(T, T) -> bool) -> Seq<T>
    decreases s.len(),
{
    if s.len() == 0 {
        s
    } else {
        insert_by(stable_sort(s.drop_last(), before), s.last(), before)
    }
}

pub open spec fn sorted_by<T>(s: Seq<T>, before: spec_fn(T, T) -> bool) -> bool {
    forall|i: int, j: int| 0 <= i < j < s.len() ==> !before(s[j], s[i])
}

/// `before` is irreflexive and transitive.
pub open spec fn strict_order<T>(before: spec_fn(T, T) -> bool) -> bool {
    &&& forall|a: T| !#[trigger] before(a, a)
    &&& forall|a: T, b: T, c: T| #[trigger] before(a, b) && #[trigger] before(b, c) ==> before(a, c)
}

proof fn lemma_insert_by_shape<T>(s: Seq<T>, x: T, before: spec_fn(T, T) -> bool)
    ensures
        insert_by(s, x, before).len() == s.len() + 1,
        insert_by(s, x, before).to_multiset() == s.to_multiset().insert(x),
        forall|y: T| #[trigger] insert_by(s, x, before).contains(y) <==> (y == x || s.contains(y)),
    decreases s.len(),
{
    broadcast use vstd::multiset::group_multiset_axioms;
    broadcast use vstd::seq_lib::group_to_multiset_ensures;
    let r = insert_by(s, x, before);
    if s.len() == 0 {
        assert(s.to_multiset() =~= Multiset::empty());
        assert(r =~= seq![x]);
        assert(seq![x] == Seq::<T>::empty().push(x));
        assert(r.to_multiset() =~= Multiset::empty().insert(x));
        assert forall|y: T| r.contains(y) <==> (y == x || s.contains(y)) by {
            if r.contains(y) {
                let k = choose|k: int| 0 <= k < r.len() && r[k] == y;
                assert(k == 0);
            }
            if y == x {
                assert(r[0] == y);
            }
        }
    } else if before(x, s[0]) {
        assert(r == seq![x] + s);
        vstd::seq_lib::lemma_multiset_commutative(seq![x], s);
        assert(seq![x] == Seq::<T>::empty().push(x));
        assert(seq![x].to_multiset() =~= Multiset::empty().insert(x));
        assert(r.to_multiset() =~= s.to_multiset().insert(x));
        assert forall|y: T| r.contains(y) <==> (y == x || s.contains(y)) by {
            if r.contains(y) {
                let k = choose|k: int| 0 <= k < r.len() && r[k] == y;
                if k > 0 {
                    assert(s[k - 1] == y);
                }
            }
            if s.contains(y) {
                let k = choose|k: int| 0 <= k < s.len() && s[k] == y;
                assert(r[k + 1] == y);
            }
            if y == x {
                assert(r[0] == y);
            }
        }
    } else {
        let t = s.drop_first();
        lemma_insert_by_shape(t, x, before);
        let it = insert_by(t, x, before);
        assert(r == seq![s[0]] + it);
        vstd::seq_lib::lemma_multiset_commutative(seq![s[0]], it);
        vstd::seq_lib::lemma_multiset_commutative(seq![s[0]], t);
        assert(s == seq![s[0]] + t);
        assert(r.to_multiset() =~= s.to_multiset().insert(x));
        assert forall|y: T| r.contains(y) <==> (y == x || s.contains(y)) by {
            if r.contains(y) {
                let k = choose|k: int| 0 <= k < r.len() && r[k] == y;
                if k > 0 {
                    assert(it[k - 1] == y);
                    assert(it.contains(y));
                    if t.contains(y) {
                        let m = choose|m: int| 0 <= m < t.len() && t[m] == y;
                        assert(s[m + 1] == y);
                    }
                } else {
                    assert(s[0] == y);
                }
            }
            if s.contains(y) {
                let k = choose|k: int| 0 <= k < s.len() && s[k] == y;
                if k == 0 {
                    assert(r[0] == y);
                } else {
                    assert(t[k - 1] == y);
                    assert(it.contains(y));
                    let m = choose|m: int| 0 <= m < it.len() && it[m] == y;
                    assert(r[m + 1] == y);
                }
            }
            if y == x {
                assert(it.contains(y));
                let m = choose|m: int| 0 <= m < it.len() && it[m] == y;
                assert(r[m + 1] == y);
            }
        }
    }
}

proof fn lemma_insert_by_sorted<T>(s: Seq<T>, x: T, before: spec_fn(T, T) -> bool)
    requires
        strict_order(before),
        sorted_by(s, before),
    ensures
        sorted_by(insert_by(s, x, before), before),
    decreases s.len(),
{
    let r = insert_by(s, x, before);
    lemma_insert_by_shape(s, x, before);
    if s.len() == 0 {
    } else if before(x, s[0]) {
        assert forall|i: int, j: int| 0 <= i < j < r.len() implies !before(r[j], r[i]) by {
            if i == 0 {
                // r[j] = s[j-1]; before(s[j-1], x) with before(x, s[0]) would give before(s[j-1], s[0])
                if before(r[j], x) {
                    assert(before(s[j - 1], s[0]));
                    if j - 1 == 0 {
                    } else {
                        assert(!before(s[j - 1], s[0]));
                    }
                }
            } else {
                assert(r[i] == s[i - 1] && r[j] == s[j - 1]);
            }
        }
    } else {
        let t = s.drop_first();
        assert(sorted_by(t, before)) by {
            assert forall|i: int, j: int| 0 <= i < j < t.len() implies !before(t[j], t[i]) by {
                assert(t[i] == s[i + 1] && t[j] == s[j + 1]);
            }
        }
        lemma_insert_by_sorted(t, x, before);
        let it = insert_by(t, x, before);
        lemma_insert_by_shape(t, x, before);
        assert forall|i: int, j: int| 0 <= i < j < r.len() implies !before(r[j], r[i]) by {
            if i == 0 {
                assert(r[j] == it[j - 1]);
                assert(it.contains(it[j - 1]));
                if it[j - 1] == x {
                } else {
                    assert(t.contains(it[j - 1]));
                    let m = choose|m: int| 0 <= m < t.len() && t[m] == it[j - 1];
                    assert(s[m + 1] == it[j - 1]);
                }
            } else {
                assert(r[i] == it[i - 1] && r[j] == it[j - 1]);
            }
        }
    }
}

/// The stable sort is ordered by `before` and holds the same elements.
pub proof fn lemma_stable_sort<T>(s: Seq<T>, before: spec_fn(T, T) -> bool)
    requires
        strict_order(before),
    ensures
        sorted_by(stable_sort(s, before), before),
        stable_sort(s, before).to_multiset() == s.to_multiset(),
        stable_sort(s, before).len() == s.len(),
    decreases s.len(),
{
    broadcast use vstd::seq_lib::group_to_multiset_ensures;
    if s.len() > 0 {
        let d = s.drop_last();
        lemma_stable_sort(d, before);
        lemma_insert_by_sorted(stable_sort(d, before), s.last(), before);
        lemma_insert_by_shape(stable_sort(d, before), s.last(), before);
        assert(s == d.push(s.last()));
    } else {
        assert(sorted_by(s, before));
    }
}

/// `insert_by` at a position found by scanning: the prefix before `p` stays.
pub proof fn lemma_insert_by_step<T>(s: Seq<T>, x: T, before: spec_fn(T, T) -> bool, p: int)
    requires
        0 <= p < s.len(),
        !before(x, s[p]),
        insert_by(s, x, before) == s.take(p) + insert_by(s.skip(p), x, before),
    ensures
        insert_by(s, x, before) == s.take(p + 1) + insert_by(s.skip(p + 1), x, before),
{
    let t = s.skip(p);
    assert(t.drop_first() =~= s.skip(p + 1));
    assert(insert_by(t, x, before) == seq![t[0]] + insert_by(t.drop_first(), x, before));
    assert(s.take(p + 1) =~= s.take(p) + seq![s[p]]);
    assert(s.take(p) + (seq![s[p]] + insert_by(s.skip(p + 1), x, before)) =~= s.take(p + 1)
        + insert_by(s.skip(p + 1), x, before));
}

/// Where the scan stops, `x` goes in at `p`.
pub proof fn lemma_insert_by_stop<T>(s: Seq<T>, x: T, before: spec_fn(T, T) -> bool, p: int)
    requires
        0 <= p <= s.len(),
        p == s.len() || before(x, s[p]),
        insert_by(s, x, before) == s.take(p) + insert_by(s.skip(p), x, before),
    ensures
        insert_by(s, x, before) == s.insert(p, x),
{
    let t = s.skip(p);
    if p == s.len() {
        assert(t.len() == 0);
    } else {
        assert(t[0] == s[p]);
    }
    assert(s.take(p) + insert_by(t, x, before) =~= s.insert(p, x));
}

} // verus!
