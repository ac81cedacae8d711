//! Facts about sequences that the tables are searched with.
use vstd::prelude::*;

verus! {

/// Taking one more item adds it to what is kept, if it is kept.
pub proof fn lemma_filter_step<T>(s: Seq<T>, keep: spec_fn(T) -> bool, i: int)
    requires
        0 <= i < s.len(),
    ensures
        s.take(i + 1).filter(keep) == if keep(s[i]) {
            s.take(i).filter(keep).push(s[i])
        } else {
            s.take(i).filter(keep)
        },
{
    reveal(Seq::filter);
    assert(s.take(i + 1).drop_last() == s.take(i));
    assert(s.take(i + 1).last() == s[i]);
}

/// What is kept was there, and satisfies the condition; what satisfies it is
/// kept.
pub proof fn lemma_filter_contains<T>(s: Seq<T>, keep: spec_fn(T) -> bool)
    ensures
        forall|x: T| #[trigger]
            s.filter(keep).contains(x) <==> s.contains(x) && keep(x),
    decreases s.len(),
{
    reveal(Seq::filter);
    if s.len() > 0 {
        let rest = s.drop_last();
        lemma_filter_contains(rest, keep);
        assert forall|x: T| #[trigger]
            s.filter(keep).contains(x) <==> s.contains(x) && keep(x) by {
            let kept = rest.filter(keep);
            if s.contains(x) && x != s.last() {
                let i = choose|i: int| 0 <= i < s.len() && s[i] == x;
                assert(rest[i] == x);
            }
            if rest.contains(x) {
                let i = choose|i: int| 0 <= i < rest.len() && rest[i] == x;
                assert(s[i] == x);
            }
            if keep(s.last()) {
                assert(s.filter(keep) == kept.push(s.last()));
                assert(kept.push(s.last())[kept.len() as int] == s.last());
                if kept.contains(x) {
                    let i = choose|i: int| 0 <= i < kept.len() && kept[i] == x;
                    assert(kept.push(s.last())[i] == x);
                }
            }
        }
    }
}

/// The first item that satisfies the condition.
pub open spec fn first<T>(s: Seq<T>, wanted: spec_fn(T) -> bool) -> Option<T>
    decreases s.len(),
{
    if s.len() == 0 {
        None
    } else if wanted(s[0]) {
        Some(s[0])
    } else {
        first(s.drop_first(), wanted)
    }
}

/// Where the first such item stands decides which it is.
pub proof fn lemma_first<T>(s: Seq<T>, wanted: spec_fn(T) -> bool, k: int)
    requires
        0 <= k <= s.len(),
        forall|j: int| 0 <= j < k ==> !wanted(#[trigger] s[j]),
        k < s.len() ==> wanted(s[k]),
    ensures
        first(s, wanted) == if k < s.len() {
            Some(s[k])
        } else {
            None
        },
    decreases s.len(),
{
    if k > 0 {
        let t = s.drop_first();
        assert(!wanted(s[0]));
        assert forall|j: int| 0 <= j < k - 1 implies !wanted(#[trigger] t[j]) by {
            assert(t[j] == s[j + 1]);
        }
        lemma_first(t, wanted, k - 1);
    }
}

/// Something is found exactly if something is there to be found.
pub proof fn lemma_first_found<T>(s: Seq<T>, wanted: spec_fn(T) -> bool)
    ensures
        match first(s, wanted) {
            Some(x) => s.contains(x) && wanted(x),
            None => forall|x: T| #[trigger] s.contains(x) ==> !wanted(x),
        },
    decreases s.len(),
{
    if s.len() > 0 && !wanted(s[0]) {
        let t = s.drop_first();
        lemma_first_found(t, wanted);
        assert forall|x: T| #[trigger] s.contains(x) implies x == s[0] || t.contains(x) by {
            let i = choose|i: int| 0 <= i < s.len() && s[i] == x;
            if i > 0 {
                assert(t[i - 1] == x);
            }
        }
        match first(t, wanted) {
            Some(x) => {
                let i = choose|i: int| 0 <= i < t.len() && t[i] == x;
                assert(s[i + 1] == x);
            },
            None => {},
        }
    } else if s.len() > 0 {
        assert(s.contains(s[0]));
    }
}

/// An item at the end is found if no other is.
pub proof fn lemma_first_pushed<T>(s: Seq<T>, x: T, wanted: spec_fn(T) -> bool)
    ensures
        first(s.push(x), wanted) == match first(s, wanted) {
            Some(y) => Some(y),
            None => if wanted(x) {
                Some(x)
            } else {
                None
            },
        },
    decreases s.len(),
{
    let p = s.push(x);
    if s.len() == 0 {
        assert(p.drop_first() == Seq::<T>::empty());
        reveal_with_fuel(first, 2);
    } else if !wanted(s[0]) {
        assert(p.drop_first() == s.drop_first().push(x));
        lemma_first_pushed(s.drop_first(), x, wanted);
    }
}

/// No two items have the same key.
pub open spec fn distinct<T, K>(s: Seq<T>, key: spec_fn(T) -> K) -> bool {
    forall|i: int, j: int|
        0 <= i < j < s.len() ==> key(#[trigger] s[i]) != key(#[trigger] s[j])
}

/// Nothing is left out of a sequence where everything is kept.
pub proof fn lemma_filter_all<T>(s: Seq<T>, keep: spec_fn(T) -> bool)
    requires
        forall|i: int| 0 <= i < s.len() ==> keep(#[trigger] s[i]),
    ensures
        s.filter(keep) == s,
    decreases s.len(),
{
    reveal(Seq::filter);
    if s.len() > 0 {
        assert forall|i: int| 0 <= i < s.drop_last().len() implies keep(
            #[trigger] s.drop_last()[i],
        ) by {
            assert(s.drop_last()[i] == s[i]);
        }
        lemma_filter_all(s.drop_last(), keep);
        assert(s.drop_last().push(s.last()) == s);
    }
}

/// Leaving items out makes no two of the rest alike.
pub proof fn lemma_filter_distinct<T, K>(
    s: Seq<T>,
    keep: spec_fn(T) -> bool,
    key: spec_fn(T) -> K,
)
    requires
        distinct(s, key),
    ensures
        distinct(s.filter(keep), key),
    decreases s.len(),
{
    reveal(Seq::filter);
    if s.len() > 0 {
        let rest = s.drop_last();
        assert(distinct(rest, key)) by {
            assert forall|i: int, j: int| 0 <= i < j < rest.len() implies key(#[trigger] rest[i])
                != key(#[trigger] rest[j]) by {
                assert(key(s[i]) != key(s[j]));
            }
        }
        lemma_filter_distinct(rest, keep, key);
        let kept = rest.filter(keep);
        if keep(s.last()) {
            lemma_filter_contains(rest, keep);
            let all = kept.push(s.last());
            assert forall|i: int, j: int| 0 <= i < j < all.len() implies key(#[trigger] all[i])
                != key(#[trigger] all[j]) by {
                if j == kept.len() {
                    assert(kept.contains(kept[i]));
                    assert(rest.contains(kept[i]));
                    let k = choose|k: int| 0 <= k < rest.len() && rest[k] == kept[i];
                    assert(key(s[k]) != key(s[s.len() - 1]));
                } else {
                    assert(key(kept[i]) != key(kept[j]));
                }
            }
        }
    }
}

/// Adding an item with a key of its own keeps all apart.
pub proof fn lemma_push_distinct<T, K>(s: Seq<T>, x: T, key: spec_fn(T) -> K)
    requires
        distinct(s, key),
        forall|i: int| 0 <= i < s.len() ==> key(#[trigger] s[i]) != key(x),
    ensures
        distinct(s.push(x), key),
{
    let all = s.push(x);
    assert forall|i: int, j: int| 0 <= i < j < all.len() implies key(#[trigger] all[i]) != key(
        #[trigger] all[j],
    ) by {
        if j < s.len() {
            assert(key(s[i]) != key(s[j]));
        } else {
            assert(key(s[i]) != key(x));
        }
    }
}

/// The items that satisfy a condition, in their order.
pub fn select<T: Clone, F: Fn(&T) -> bool>(
    rows: &Vec<T>,
    wanted: F,
    holds: Ghost<spec_fn(T) -> bool>,
) -> (r: Vec<T>)
    requires
        forall|x: &T| #[trigger] wanted.requires((x,)),
        forall|x: &T, b: bool| #[trigger] wanted.ensures((x,), b) ==> b == (holds@)(*x),
        forall|x: T, y: T| #[trigger] cloned(x, y) ==> x == y,
    ensures
        r@ == rows@.filter(holds@),
{
    let mut out: Vec<T> = Vec::new();
    let mut i: usize = 0;
    assert(rows@.take(0).filter(holds@) =~= Seq::<T>::empty()) by {
        reveal(Seq::filter);
    }
    while i < rows.len()
        invariant
            i <= rows.len(),
            forall|x: &T| #[trigger] wanted.requires((x,)),
            forall|x: &T, b: bool| #[trigger] wanted.ensures((x,), b) ==> b == (holds@)(*x),
            forall|x: T, y: T| #[trigger] cloned(x, y) ==> x == y,
            out@ == rows@.take(i as int).filter(holds@),
        decreases rows.len() - i,
    {
        proof {
            lemma_filter_step(rows@, holds@, i as int);
        }
        if wanted(&rows[i]) {
            let x = rows[i].clone();
            assert(cloned(rows@[i as int], x));
            out.push(x);
        }
        i += 1;
    }
    assert(rows@.take(i as int) == rows@);
    out
}

/// A copy of the first item that satisfies a condition.
pub fn find<T: Clone, F: Fn(&T) -> bool>(
    rows: &Vec<T>,
    wanted: F,
    holds: Ghost<spec_fn(T) -> bool>,
) -> (r: Option<T>)
    requires
        forall|x: &T| #[trigger] wanted.requires((x,)),
        forall|x: &T, b: bool| #[trigger] wanted.ensures((x,), b) ==> b == (holds@)(*x),
        forall|x: T, y: T| #[trigger] cloned(x, y) ==> x == y,
    ensures
        r == first(rows@, holds@),
{
    let mut i: usize = 0;
    while i < rows.len()
        invariant
            i <= rows.len(),
            forall|x: &T| #[trigger] wanted.requires((x,)),
            forall|x: &T, b: bool| #[trigger] wanted.ensures((x,), b) ==> b == (holds@)(*x),
            forall|x: T, y: T| #[trigger] cloned(x, y) ==> x == y,
            forall|j: int| 0 <= j < i ==> !(holds@)(#[trigger] rows@[j]),
        decreases rows.len() - i,
    {
        if wanted(&rows[i]) {
            proof {
                lemma_first(rows@, holds@, i as int);
            }
            let x = rows[i].clone();
            assert(cloned(rows@[i as int], x));
            return Some(x);
        }
        i += 1;
    }
    proof {
        lemma_first(rows@, holds@, i as int);
    }
    None
}

/// What is found satisfies the condition, stands in the sequence, and nothing
/// before it does; nothing is found only where nothing satisfies it.
pub proof fn the_first_is_found<T>(s: Seq<T>, wanted: spec_fn(T) -> bool)
    ensures
        match first(s, wanted) {
            Some(x) => exists|k: int|
                0 <= k < s.len() && #[trigger] s[k] == x && wanted(x) && forall|j: int|
                    0 <= j < k ==> !wanted(#[trigger] s[j]),
            None => forall|j: int| 0 <= j < s.len() ==> !wanted(#[trigger] s[j]),
        },
    decreases s.len(),
{
    if s.len() > 0 {
        if wanted(s[0]) {
            assert(s[0] == first(s, wanted)->Some_0);
        } else {
            let t = s.drop_first();
            the_first_is_found(t, wanted);
            match first(t, wanted) {
                Some(x) => {
                    let k = choose|k: int|
                        0 <= k < t.len() && #[trigger] t[k] == x && wanted(x) && forall|j: int|
                            0 <= j < k ==> !wanted(#[trigger] t[j]);
                    assert(s[k + 1] == x);
                    assert forall|j: int| 0 <= j < k + 1 implies !wanted(#[trigger] s[j]) by {
                        if j > 0 {
                            assert(t[j - 1] == s[j]);
                        }
                    }
                },
                None => {
                    assert forall|j: int| 0 <= j < s.len() implies !wanted(#[trigger] s[j]) by {
                        if j > 0 {
                            assert(t[j - 1] == s[j]);
                        }
                    }
                },
            }
        }
    }
}

} // verus!
