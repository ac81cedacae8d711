//! A stable sort for anything that can be ranked.
use vstd::prelude::*;

verus! {

/// Something that can be put in order by rank.
pub trait Ranked: Sized {
    /// Whether `self` may stand before `other`.
    spec fn ranks(self, other: Self) -> bool;

    proof fn ranks_total(a: Self, b: Self)
        ensures
            a.ranks(b) || b.ranks(a),
    ;

    proof fn ranks_transitive(a: Self, b: Self, c: Self)
        requires
            a.ranks(b),
            b.ranks(c),
        ensures
            a.ranks(c),
    ;

    fn before(&self, other: &Self) -> (r: bool)
        ensures
            r == self.ranks(*other),
    ;
}

/// `x` placed in front of the first item that it ranks before.
pub open spec fn placed<T: Ranked>(s: Seq<T>, x: T) -> Seq<T>
    decreases s.len(),
{
    if s.len() == 0 || x.ranks(s[0]) {
        seq![x] + s
    } else {
        seq![s[0]] + placed(s.drop_first(), x)
    }
}

/// The items in order; those of equal rank keep the order they came in.
pub open spec fn ordered<T: Ranked>(s: Seq<T>) -> Seq<T>
    decreases s.len(),
{
    if s.len() == 0 {
        s
    } else {
        placed(ordered(s.drop_first()), s[0])
    }
}

pub open spec fn in_order<T: Ranked>(s: Seq<T>) -> bool {
    forall|i: int, j: int| 0 <= i <= j < s.len() ==> (#[trigger] s[i]).ranks(#[trigger] s[j])
}

proof fn lemma_placed_at<T: Ranked>(s: Seq<T>, x: T, k: int)
    requires
        0 <= k <= s.len(),
        forall|j: int| 0 <= j < k ==> !x.ranks(#[trigger] s[j]),
        k == s.len() || x.ranks(s[k]),
    ensures
        placed(s, x) == s.insert(k, x),
    decreases s.len(),
{
    if k == 0 {
        assert(seq![x] + s == s.insert(0, x));
    } else {
        let t = s.drop_first();
        assert(!x.ranks(s[0]));
        assert forall|j: int| 0 <= j < k - 1 implies !x.ranks(#[trigger] t[j]) by {
            assert(t[j] == s[j + 1]);
        }
        lemma_placed_at(t, x, k - 1);
        assert(seq![s[0]] + t.insert(k - 1, x) == s.insert(k, x));
    }
}

proof fn lemma_placed_in_order<T: Ranked>(s: Seq<T>, x: T)
    requires
        in_order(s),
    ensures
        in_order(placed(s, x)),
        placed(s, x).to_multiset() == s.to_multiset().insert(x),
        placed(s, x).len() == s.len() + 1,
    decreases s.len(),
{
    broadcast use vstd::seq_lib::group_to_multiset_ensures;

    T::ranks_total(x, x);
    if s.len() == 0 || x.ranks(s[0]) {
        let p = seq![x] + s;
        assert forall|i: int, j: int| 0 <= i <= j < p.len() implies (#[trigger] p[i]).ranks(
            #[trigger] p[j],
        ) by {
            if i > 0 {
                assert(s[i - 1].ranks(s[j - 1]));
            } else if j > 0 {
                assert(s[0].ranks(s[j - 1]));
                T::ranks_transitive(x, s[0], s[j - 1]);
            }
        }
        assert(p == s.insert(0, x));
        vstd::seq_lib::to_multiset_insert(s, 0, x);
    } else {
        let t = s.drop_first();
        assert forall|i: int, j: int| 0 <= i <= j < t.len() implies (#[trigger] t[i]).ranks(
            #[trigger] t[j],
        ) by {
            assert(s[i + 1].ranks(s[j + 1]));
        }
        lemma_placed_in_order(t, x);
        let q = placed(t, x);
        let p = seq![s[0]] + q;
        T::ranks_total(x, s[0]);
        T::ranks_total(s[0], s[0]);
        assert forall|j: int| 0 <= j < q.len() implies s[0].ranks(#[trigger] q[j]) by {
            assert(q.to_multiset().count(q[j]) > 0) by {
                assert(q.contains(q[j]));
            }
            if q[j] != x {
                assert(t.to_multiset().count(q[j]) > 0);
                assert(t.contains(q[j]));
                let k = choose|k: int| 0 <= k < t.len() && t[k] == q[j];
                assert(s[0].ranks(s[k + 1]));
            }
        }
        assert forall|i: int, j: int| 0 <= i <= j < p.len() implies (#[trigger] p[i]).ranks(
            #[trigger] p[j],
        ) by {
            if i > 0 {
                assert(q[i - 1].ranks(q[j - 1]));
            } else if j > 0 {
                assert(s[0].ranks(q[j - 1]));
            }
        }
        assert(p == q.insert(0, s[0]));
        vstd::seq_lib::to_multiset_insert(q, 0, s[0]);
        assert(s == t.insert(0, s[0]));
        vstd::seq_lib::to_multiset_insert(t, 0, s[0]);
        assert(p.to_multiset() =~= s.to_multiset().insert(x));
    }
}

/// Sorting yields the same items, in order.
pub proof fn ordered_is_sorted_permutation<T: Ranked>(s: Seq<T>)
    ensures
        in_order(ordered(s)),
        ordered(s).to_multiset() == s.to_multiset(),
        ordered(s).len() == s.len(),
    decreases s.len(),
{
    broadcast use vstd::seq_lib::group_to_multiset_ensures;

    if s.len() > 0 {
        let t = s.drop_first();
        ordered_is_sorted_permutation(t);
        lemma_placed_in_order(ordered(t), s[0]);
        assert(s == t.insert(0, s[0]));
        vstd::seq_lib::to_multiset_insert(t, 0, s[0]);
    }
}

/// Sorting keeps exactly the items that were there.
pub proof fn ordered_contains<T: Ranked>(s: Seq<T>, x: T)
    ensures
        ordered(s).contains(x) <==> s.contains(x),
{
    broadcast use vstd::seq_lib::group_to_multiset_ensures;

    ordered_is_sorted_permutation(s);
    assert(ordered(s).contains(x) <==> ordered(s).to_multiset().count(x) > 0);
    assert(s.contains(x) <==> s.to_multiset().count(x) > 0);
}

pub fn sort<T: Ranked>(items: Vec<T>) -> (r: Vec<T>)
    ensures
        r@ == ordered(items@),
{
    let ghost all = items@;
    let mut rest = items;
    let mut out: Vec<T> = Vec::new();
    assert(all.skip(all.len() as int) == Seq::<T>::empty());
    loop
        invariant
            all == items@,
            rest.len() <= all.len(),
            rest@ == all.take(rest@.len() as int),
            out@ == ordered(all.skip(rest@.len() as int)),
        decreases rest.len(),
    {
        let ghost n = rest@.len();
        match rest.pop() {
            None => {
                assert(all.skip(0) == all);
                return out;
            },
            Some(x) => {
                let ghost tail = all.skip(n - 1);
                assert(tail[0] == x);
                assert(tail.drop_first() == all.skip(n as int));
                let mut k: usize = 0;
                while k < out.len() && !x.before(&out[k])
                    invariant
                        k <= out.len(),
                        forall|j: int| 0 <= j < k ==> !x.ranks(#[trigger] out@[j]),
                    decreases out.len() - k,
                {
                    k += 1;
                }
                proof {
                    lemma_placed_at(out@, x, k as int);
                }
                out.insert(k, x);
            },
        }
    }
}

/// What is in order already stays as it is: items of equal rank are not
/// swapped.
pub proof fn what_is_in_order_stays<T: Ranked>(s: Seq<T>)
    requires
        in_order(s),
    ensures
        ordered(s) == s,
    decreases s.len(),
{
    if s.len() > 0 {
        let t = s.drop_first();
        assert forall|i: int, j: int| 0 <= i <= j < t.len() implies (#[trigger] t[i]).ranks(
            #[trigger] t[j],
        ) by {
            assert(s[i + 1].ranks(s[j + 1]));
        }
        what_is_in_order_stays(t);
        if t.len() > 0 {
            assert(s[0].ranks(s[1]));
        }
        assert(seq![s[0]] + t =~= s);
    }
}

} // verus!
