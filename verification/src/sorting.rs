//! Stable insertion sort, as a specification and for lists of strings.
use vstd::prelude::*;

use crate::order::{compare_str, lemma_str_order_antisym, lemma_str_order_trans, lemma_str_order_zero, str_order, string_views, Rel};

verus! {

/// Inserts `x` into `s` after every element that does not sort after it.
pub open spec fn ins_sorted<T>(s: Seq<T>, x: T, gt: spec_fn(T, T) -> bool) -> Seq<T>
    decreases s.len(),
{
    if s.len() == 0 {
        seq![x]
    } else if gt(s.last(), x) {
        ins_sorted(s.drop_last(), x, gt).push(s.last())
    } else {
        s.push(x)
    }
}

/// Stable sort of `s`: elements are inserted one by one in their original
/// order, each after every element that does not sort after it.
pub open spec fn isort<T>(s: Seq<T>, gt: spec_fn(T, T) -> bool) -> Seq<T>
    decreases s.len(),
{
    if s.len() == 0 {
        s
    } else {
        ins_sorted(isort(s.drop_last(), gt), s.last(), gt)
    }
}

/// Inserting at the position found by scanning back from the end.
pub proof fn lemma_ins_sorted_at<T>(s: Seq<T>, x: T, gt: spec_fn(T, T) -> bool, j: int)
    requires
        0 <= j <= s.len(),
        forall|k: int| j <= k < s.len() ==> gt(#[trigger] s[k], x),
        j == 0 || !gt(s[j - 1], x),
    ensures
        ins_sorted(s, x, gt) == s.insert(j, x),
    decreases s.len(),
{
    if s.len() == 0 {
        assert(s.insert(j, x) =~= seq![x]);
    } else if j == s.len() {
        assert(s.insert(j, x) =~= s.push(x));
    } else {
        assert(gt(s[s.len() - 1], x));
        lemma_ins_sorted_at(s.drop_last(), x, gt, j);
        assert(s.insert(j, x) =~= s.drop_last().insert(j, x).push(s.last()));
    }
}

/// Strict "sorts after" on strings.
pub open spec fn str_gt() -> spec_fn(Seq<char>, Seq<char>) -> bool {
    |a: Seq<char>, b: Seq<char>| str_order(a, b) > 0
}

/// Sorts strings into std order (stable; equal strings are identical).
pub fn sort_strings(v: &[String]) -> (r: Vec<String>)
    ensures
        string_views(r@) == isort(string_views(v@), str_gt()),
{
    let mut r: Vec<String> = Vec::new();
    let mut i: usize = 0;
    while i < v.len()
        invariant
            i <= v@.len(),
            string_views(r@) == isort(string_views(v@.subrange(0, i as int)), str_gt()),
        decreases v@.len() - i,
    {
        let x = v[i].clone();
        let mut j = r.len();
        let mut scanning = true;
        while scanning && j > 0
            invariant
                j <= r@.len(),
                forall|k: int| j <= k < r@.len() ==> str_order(#[trigger] r@[k]@, x@) > 0,
                !scanning ==> j > 0 && str_order(r@[j - 1]@, x@) <= 0,
            decreases j + (if scanning { 1int } else { 0int }),
        {
            match compare_str(r[j - 1].as_str(), x.as_str()) {
                Rel::Greater => {
                    j -= 1;
                },
                _ => {
                    scanning = false;
                },
            }
        }
        proof {
            let sv = string_views(r@);
            assert forall|k: int| j <= k < sv.len() implies (#[trigger] str_gt()(sv[k], x@)) by {
                assert(sv[k] == r@[k]@);
            }
            if j > 0 {
                assert(sv[j - 1] == r@[j - 1]@);
            }
            lemma_ins_sorted_at(sv, x@, str_gt(), j as int);
            assert(string_views(v@.subrange(0, i + 1)).drop_last() =~= string_views(v@.subrange(0, i as int)));
            assert(string_views(v@.subrange(0, i + 1)).last() == x@);
        }
        let ghost old_r = r@;
        r.insert(j, x);
        proof {
            assert(string_views(r@) =~= string_views(old_r).insert(j as int, x@));
        }
        i += 1;
    }
    assert(v@.subrange(0, v@.len() as int) =~= v@);
    r
}

/// Whether strings are in std order.
pub open spec fn str_sorted(s: Seq<Seq<char>>) -> bool {
    forall|i: int, j: int| 0 <= i < j < s.len() ==> str_order(#[trigger] s[i], #[trigger] s[j]) <= 0
}

proof fn lemma_ins_sorted_strings(s: Seq<Seq<char>>, x: Seq<char>)
    requires
        str_sorted(s),
    ensures
        str_sorted(ins_sorted(s, x, str_gt())),
        ins_sorted(s, x, str_gt()).to_multiset() == s.to_multiset().insert(x),
        forall|i: int|
            0 <= i < ins_sorted(s, x, str_gt()).len() ==> #[trigger] ins_sorted(s, x, str_gt())[i] == x || s.contains(
                ins_sorted(s, x, str_gt())[i],
            ),
    decreases s.len(),
{
    broadcast use vstd::seq_lib::group_to_multiset_ensures;

    let r = ins_sorted(s, x, str_gt());
    if s.len() == 0 {
        assert(r =~= Seq::<Seq<char>>::empty().push(x));
        assert(s =~= Seq::<Seq<char>>::empty());
    } else {
        let d = s.drop_last();
        let l = s.last();
        assert(s =~= d.push(l));
        assert(str_sorted(d)) by {
            assert forall|i: int, j: int| 0 <= i < j < d.len() implies str_order(#[trigger] d[i], #[trigger] d[j]) <= 0 by {
                assert(d[i] == s[i] && d[j] == s[j]);
            }
        }
        if str_order(l, x) > 0 {
            lemma_ins_sorted_strings(d, x);
            let t = ins_sorted(d, x, str_gt());
            assert(r == t.push(l));
            lemma_str_order_antisym(l, x);
            assert forall|i: int| 0 <= i < t.len() implies str_order(#[trigger] t[i], l) <= 0 by {
                if t[i] != x {
                    assert(d.contains(t[i]));
                    let k = choose|k: int| 0 <= k < d.len() && d[k] == t[i];
                    assert(s[k] == d[k] && s[s.len() - 1] == l);
                }
            }
            assert forall|i: int, j: int| 0 <= i < j < r.len() implies str_order(#[trigger] r[i], #[trigger] r[j]) <= 0 by {
                if j < t.len() {
                    assert(r[i] == t[i] && r[j] == t[j]);
                } else {
                    assert(r[i] == t[i] && r[j] == l);
                }
            }
            assert forall|i: int| 0 <= i < r.len() implies #[trigger] r[i] == x || s.contains(r[i]) by {
                if i < t.len() {
                    assert(r[i] == t[i]);
                    if t[i] != x {
                        let k = choose|k: int| 0 <= k < d.len() && d[k] == t[i];
                        assert(s[k] == d[k]);
                    }
                } else {
                    assert(s[s.len() - 1] == l);
                }
            }
            assert(r.to_multiset() =~= s.to_multiset().insert(x));
        } else {
            assert(r == s.push(x));
            assert forall|i: int, j: int| 0 <= i < j < r.len() implies str_order(#[trigger] r[i], #[trigger] r[j]) <= 0 by {
                if j < s.len() {
                    assert(r[i] == s[i] && r[j] == s[j]);
                } else {
                    assert(r[j] == x && r[i] == s[i]);
                    if i < s.len() - 1 {
                        assert(str_order(s[i], s[s.len() - 1]) <= 0);
                        lemma_str_order_trans(s[i], l, x);
                    }
                }
            }
            assert forall|i: int| 0 <= i < r.len() implies #[trigger] r[i] == x || s.contains(r[i]) by {
                if i < s.len() {
                    assert(r[i] == s[i]);
                }
            }
        }
    }
}

proof fn lemma_isort_strings(s: Seq<Seq<char>>)
    ensures
        str_sorted(isort(s, str_gt())),
        isort(s, str_gt()).to_multiset() == s.to_multiset(),
    decreases s.len(),
{
    broadcast use vstd::seq_lib::group_to_multiset_ensures;

    if s.len() == 0 {
    } else {
        lemma_isort_strings(s.drop_last());
        lemma_ins_sorted_strings(isort(s.drop_last(), str_gt()), s.last());
        assert(s =~= s.drop_last().push(s.last()));
    }
}

proof fn lemma_sorted_unique(a: Seq<Seq<char>>, b: Seq<Seq<char>>)
    requires
        str_sorted(a),
        str_sorted(b),
        a.to_multiset() == b.to_multiset(),
    ensures
        a == b,
    decreases a.len(),
{
    broadcast use vstd::seq_lib::group_to_multiset_ensures;
    broadcast use vstd::multiset::group_multiset_axioms;

    assert(a.len() == a.to_multiset().len());
    assert(b.len() == b.to_multiset().len());
    if a.len() == 0 {
        assert(a =~= b);
    } else {
        let n = a.len();
        let la = a.last();
        let lb = b.last();
        assert(a.to_multiset().count(la) > 0) by {
            assert(a.contains(la)) by {
                assert(a[n - 1] == la);
            }
        }
        assert(b.contains(la));
        let kb = choose|k: int| 0 <= k < b.len() && b[k] == la;
        if kb < n - 1 {
            assert(str_order(b[kb], b[n - 1]) <= 0);
        } else {
            lemma_str_order_zero(la, lb);
        }
        assert(b.to_multiset().count(lb) > 0) by {
            assert(b.contains(lb)) by {
                assert(b[n - 1] == lb);
            }
        }
        assert(a.contains(lb));
        let ka = choose|k: int| 0 <= k < a.len() && a[k] == lb;
        if ka < n - 1 {
            assert(str_order(a[ka], a[n - 1]) <= 0);
        } else {
            lemma_str_order_zero(lb, la);
        }
        lemma_str_order_antisym(la, lb);
        lemma_str_order_zero(la, lb);
        assert(la == lb);
        let da = a.drop_last();
        let db = b.drop_last();
        assert(a =~= da.push(la));
        assert(b =~= db.push(lb));
        assert(da.to_multiset().insert(la) == db.to_multiset().insert(la));
        assert(da.to_multiset() =~= db.to_multiset()) by {
            assert forall|v: Seq<char>| da.to_multiset().count(v) == db.to_multiset().count(v) by {
                assert(da.to_multiset().insert(la).count(v) == db.to_multiset().insert(la).count(v));
            }
        }
        assert(str_sorted(da)) by {
            assert forall|i: int, j: int| 0 <= i < j < da.len() implies str_order(#[trigger] da[i], #[trigger] da[j]) <= 0 by {
                assert(da[i] == a[i] && da[j] == a[j]);
            }
        }
        assert(str_sorted(db)) by {
            assert forall|i: int, j: int| 0 <= i < j < db.len() implies str_order(#[trigger] db[i], #[trigger] db[j]) <= 0 by {
                assert(db[i] == b[i] && db[j] == b[j]);
            }
        }
        lemma_sorted_unique(da, db);
    }
}

/// Sorting strings depends only on which strings there are, not on the
/// order they come in: lists holding the same strings (with the same
/// repetitions) sort to the same list.
pub proof fn lemma_sort_ignores_order(a: Seq<Seq<char>>, b: Seq<Seq<char>>)
    requires
        a.to_multiset() == b.to_multiset(),
    ensures
        isort(a, str_gt()) == isort(b, str_gt()),
{
    lemma_isort_strings(a);
    lemma_isort_strings(b);
    lemma_sorted_unique(isort(a, str_gt()), isort(b, str_gt()));
}

} // verus!
