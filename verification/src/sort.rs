//! Sorting by a total order.

use vstd::multiset::Multiset;
use vstd::prelude::*;

verus! {

/// A type with a total order.
pub trait Ordered: Sized {
    /// Whether `self` may stand before `other`.
    spec fn before(&self, other: &Self) -> bool;

    proof fn before_is_total(a: &Self, b: &Self)
        ensures
            a.before(b) || b.before(a),
    ;

    proof fn before_is_transitive(a: &Self, b: &Self, c: &Self)
        requires
            a.before(b),
            b.before(c),
        ensures
            a.before(c),
    ;

    /// Whether `self` may stand before `other`.
    fn goes_before(&self, other: &Self) -> (r: bool)
        ensures
            r == self.before(other),
    ;
}

/// No element stands before one that must go before it.
pub open spec fn in_order<T: Ordered>(s: Seq<T>) -> bool {
    forall|i: int, j: int| #![trigger s[i], s[j]] 0 <= i < j < s.len() ==> s[i].before(&s[j])
}

/// As [`in_order`], from the back to the front.
spec fn in_reverse<T: Ordered>(s: Seq<T>) -> bool {
    forall|i: int, j: int| #![trigger s[j], s[i]] 0 <= i < j < s.len() ==> s[j].before(&s[i])
}

proof fn lemma_pop<T>(s: Seq<T>)
    requires
        s.len() > 0,
    ensures
        s.to_multiset() == s.drop_last().to_multiset().insert(s.last()),
{
    broadcast use vstd::seq_lib::group_to_multiset_ensures;

    assert(s =~= s.drop_last().push(s.last()));
}

/// Turns a list round.
fn turn_round<T: Ordered>(v: Vec<T>) -> (r: Vec<T>)
    requires
        in_reverse(v@),
    ensures
        in_order(r@),
        r@.to_multiset() == v@.to_multiset(),
{
    broadcast use vstd::seq_lib::group_to_multiset_ensures;

    let mut from = v;
    let mut out: Vec<T> = Vec::new();
    let ghost n = v@.len();
    proof {
        assert(out@.to_multiset().add(from@.to_multiset()) =~= v@.to_multiset());
    }
    while from.len() > 0
        invariant
            from@.len() <= n,
            n == v@.len(),
            from@ == v@.take(from@.len() as int),
            out@.len() == n - from@.len(),
            forall|i: int| 0 <= i < out@.len() ==> out@[i] == v@[n - 1 - i],
            out@.to_multiset().add(from@.to_multiset()) =~= v@.to_multiset(),
        decreases from@.len(),
    {
        let ghost before = from@;
        let ghost gathered = out@;
        if let Some(x) = from.pop() {
            out.push(x);
            proof {
                lemma_pop(before);
                assert(before.drop_last() =~= from@);
                lemma_pop(out@);
                    assert(out@.drop_last() =~= gathered);
                assert(from@ =~= v@.take(from@.len() as int));
            }
        }
    }
    proof {
        assert(from@ =~= Seq::<T>::empty());
        assert(out@.to_multiset() =~= v@.to_multiset());
        assert forall|i: int, j: int| #![trigger out@[i], out@[j]] 0 <= i < j < out@.len() implies out@[i].before(&out@[j]) by {
            assert(out@[i] == v@[n - 1 - i]);
            assert(out@[j] == v@[n - 1 - j]);
        }
    }
    out
}

/// Merges two sorted lists.
fn merge<T: Ordered>(first: Vec<T>, second: Vec<T>) -> (r: Vec<T>)
    requires
        in_order(first@),
        in_order(second@),
    ensures
        in_order(r@),
        r@.to_multiset() == first@.to_multiset().add(second@.to_multiset()),
{
    broadcast use vstd::seq_lib::group_to_multiset_ensures;

    let mut a = first;
    let mut b = second;
    let mut out: Vec<T> = Vec::new();
    let ghost all = first@.to_multiset().add(second@.to_multiset());
    assert(out@.to_multiset().add(a@.to_multiset()).add(b@.to_multiset()) =~= all);
    while a.len() > 0 || b.len() > 0
        invariant
            in_order(a@),
            in_order(b@),
            in_reverse(out@),
            forall|i: int, j: int|
                #![trigger a@[i], out@[j]]
                0 <= i < a@.len() && 0 <= j < out@.len() ==> a@[i].before(&out@[j]),
            forall|i: int, j: int|
                #![trigger b@[i], out@[j]]
                0 <= i < b@.len() && 0 <= j < out@.len() ==> b@[i].before(&out@[j]),
            out@.to_multiset().add(a@.to_multiset()).add(b@.to_multiset()) =~= all,
        decreases a@.len() + b@.len(),
    {
        let ghost a0 = a@;
        let ghost b0 = b@;
        let ghost gathered = out@;
        let from_a = if b.len() == 0 {
            true
        } else if a.len() == 0 {
            false
        } else {
            b[b.len() - 1].goes_before(&a[a.len() - 1])
        };
        proof {
            if a0.len() > 0 && b0.len() > 0 {
                T::before_is_total(&a0.last(), &b0.last());
            }
        }
        if from_a {
            if let Some(x) = a.pop() {
                out.push(x);
                proof {
                    lemma_pop(a0);
                    assert(a0.drop_last() =~= a@);
                    assert(x == a0[a0.len() - 1]);
                    lemma_pop(out@);
                    assert(out@.drop_last() =~= gathered);
                    assert forall|i: int, j: int|
                        #![trigger b@[i], out@[j]]
                        0 <= i < b@.len() && 0 <= j < out@.len() implies b@[i].before(&out@[j]) by {
                        if j == out@.len() - 1 {
                            let l = b0.len() - 1;
                            if i < l {
                                assert(b0[i].before(&b0[l]));
                                T::before_is_transitive(&b0[i], &b0[l], &x);
                            }
                        } else {
                            assert(out@[j] == gathered[j]);
                        }
                    }
                    assert forall|i: int, j: int|
                        #![trigger a@[i], out@[j]]
                        0 <= i < a@.len() && 0 <= j < out@.len() implies a@[i].before(&out@[j]) by {
                        assert(a@[i] == a0[i]);
                        if j == out@.len() - 1 {
                            assert(a0[i].before(&a0[a0.len() - 1]));
                        } else {
                            assert(out@[j] == gathered[j]);
                        }
                    }
                    assert forall|i: int, j: int| #![trigger out@[j], out@[i]] 0 <= i < j < out@.len() implies out@[j].before(&out@[i]) by {
                        assert(out@[i] == gathered[i]);
                        if j == out@.len() - 1 {
                            assert(a0[a0.len() - 1].before(&gathered[i]));
                        } else {
                            assert(out@[j] == gathered[j]);
                        }
                    }
                    assert forall|i: int, j: int| #![trigger a@[i], a@[j]] 0 <= i < j < a@.len() implies a@[i].before(&a@[j]) by {
                        assert(a@[i] == a0[i] && a@[j] == a0[j]);
                    }
                }
            }
        } else {
            if let Some(x) = b.pop() {
                out.push(x);
                proof {
                    lemma_pop(b0);
                    assert(b0.drop_last() =~= b@);
                    assert(x == b0[b0.len() - 1]);
                    lemma_pop(out@);
                    assert(out@.drop_last() =~= gathered);
                    assert forall|i: int, j: int|
                        #![trigger a@[i], out@[j]]
                        0 <= i < a@.len() && 0 <= j < out@.len() implies a@[i].before(&out@[j]) by {
                        if j == out@.len() - 1 {
                            let l = a0.len() - 1;
                            if i < l {
                                assert(a0[i].before(&a0[l]));
                                T::before_is_transitive(&a0[i], &a0[l], &x);
                            }
                        } else {
                            assert(out@[j] == gathered[j]);
                        }
                    }
                    assert forall|i: int, j: int|
                        #![trigger b@[i], out@[j]]
                        0 <= i < b@.len() && 0 <= j < out@.len() implies b@[i].before(&out@[j]) by {
                        assert(b@[i] == b0[i]);
                        if j == out@.len() - 1 {
                            assert(b0[i].before(&b0[b0.len() - 1]));
                        } else {
                            assert(out@[j] == gathered[j]);
                        }
                    }
                    assert forall|i: int, j: int| #![trigger out@[j], out@[i]] 0 <= i < j < out@.len() implies out@[j].before(&out@[i]) by {
                        assert(out@[i] == gathered[i]);
                        if j == out@.len() - 1 {
                            assert(b0[b0.len() - 1].before(&gathered[i]));
                        } else {
                            assert(out@[j] == gathered[j]);
                        }
                    }
                    assert forall|i: int, j: int| #![trigger b@[i], b@[j]] 0 <= i < j < b@.len() implies b@[i].before(&b@[j]) by {
                        assert(b@[i] == b0[i] && b@[j] == b0[j]);
                    }
                }
            }
        }
    }
    proof {
        assert(a@ =~= Seq::<T>::empty());
        assert(b@ =~= Seq::<T>::empty());
        assert(out@.to_multiset() =~= all);
    }
    turn_round(out)
}

/// Sorts a list.
pub fn sort<T: Ordered>(v: Vec<T>) -> (r: Vec<T>)
    ensures
        in_order(r@),
        r@.to_multiset() == v@.to_multiset(),
        r@.len() == v@.len(),
    decreases v@.len(),
{
    broadcast use vstd::seq_lib::group_to_multiset_ensures;

    if v.len() < 2 {
        return v;
    }
    let ghost all = v@;
    let mut first = v;
    let second = first.split_off(first.len() / 2);
    proof {
        assert(first@ + second@ =~= all);
        vstd::seq_lib::lemma_multiset_commutative(first@, second@);
    }
    let a = sort(first);
    let b = sort(second);
    let r = merge(a, b);
    proof {
        assert(r@.to_multiset() =~= all.to_multiset());
        assert(r@.len() == r@.to_multiset().len());
        assert(all.len() == all.to_multiset().len());
    }
    r
}

} // verus!
