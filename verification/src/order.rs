//! Stable ordering of vectors.
//!
//! A type says through [`Ranked`] which of two values has to stand first;
//! [`sort_ranked`] then arranges a vector accordingly and keeps values that
//! do not outrank one another in the order they came in.

use vstd::prelude::*;

verus! {

/// A strict weak order on the views of a type.
pub trait Ranked: View + Sized {
    /// `a` has to stand before `b`.
    spec fn outranks(a: Self::V, b: Self::V) -> bool;

    /// Decides [`Ranked::outranks`] for two values.
    fn stands_before(&self, other: &Self) -> (b: bool)
        ensures
            b == Self::outranks(self@, other@),
    ;

    /// Nothing outranks itself, outranking is transitive, and so is its
    /// absence.
    proof fn lemma_ranking(a: Self::V, b: Self::V, c: Self::V)
        ensures
            !Self::outranks(a, a),
            Self::outranks(a, b) && Self::outranks(b, c) ==> Self::outranks(a, c),
            !Self::outranks(a, b) && !Self::outranks(b, c) ==> !Self::outranks(a, c),
    ;
}

/// The views of the elements of `s`, in the same order.
pub open spec fn views_of<T: View>(s: Seq<T>) -> Seq<T::V> {
    s.map_values(|t: T| t@)
}

/// No element of `s` is outranked by a later one.
pub open spec fn in_order<T: Ranked>(s: Seq<T::V>) -> bool {
    forall|i: int, j: int| 0 <= i < j < s.len() ==> !T::outranks(s[j], s[i])
}

/// Index of the first element of `s` that `x` outranks; `s.len()` if there is
/// none.
pub open spec fn slot_for<T: Ranked>(s: Seq<T::V>, x: T::V) -> int
    decreases s.len(),
{
    if s.len() == 0 || T::outranks(x, s[0]) {
        0
    } else {
        1 + slot_for::<T>(s.drop_first(), x)
    }
}

/// `s` with `x` put in front of the first element that it outranks.
pub open spec fn placed<T: Ranked>(s: Seq<T::V>, x: T::V) -> Seq<T::V> {
    s.insert(slot_for::<T>(s, x), x)
}

/// The stable arrangement of `s`: its elements placed one after another, in
/// the order in which they stand in `s`.
pub open spec fn arranged<T: Ranked>(s: Seq<T::V>) -> Seq<T::V>
    decreases s.len(),
{
    if s.len() == 0 {
        s
    } else {
        placed::<T>(arranged::<T>(s.drop_last()), s.last())
    }
}

/// [`slot_for`] lies within the sequence, `x` outranks nothing in front of
/// it, and `x` outranks the element that stands there.
pub proof fn lemma_slot_bounds<T: Ranked>(s: Seq<T::V>, x: T::V)
    ensures
        0 <= slot_for::<T>(s, x) <= s.len(),
        forall|j: int| 0 <= j < slot_for::<T>(s, x) ==> !T::outranks(x, #[trigger] s[j]),
        slot_for::<T>(s, x) < s.len() ==> T::outranks(x, s[slot_for::<T>(s, x)]),
    decreases s.len(),
{
    if s.len() == 0 || T::outranks(x, s[0]) {
    } else {
        let rest = s.drop_first();
        lemma_slot_bounds::<T>(rest, x);
        let k = slot_for::<T>(rest, x);
        assert forall|j: int| 0 <= j < k + 1 implies !T::outranks(x, #[trigger] s[j]) by {
            if j > 0 {
                assert(s[j] == rest[j - 1]);
            }
        }
        if k < rest.len() {
            assert(rest[k] == s[k + 1]);
        }
    }
}

/// The index in front of which `x` outranks nothing and at which it outranks
/// the element is [`slot_for`].
pub proof fn lemma_slot_is<T: Ranked>(s: Seq<T::V>, x: T::V, k: int)
    requires
        0 <= k <= s.len(),
        forall|j: int| 0 <= j < k ==> !T::outranks(x, #[trigger] s[j]),
        k < s.len() ==> T::outranks(x, s[k]),
    ensures
        slot_for::<T>(s, x) == k,
    decreases s.len(),
{
    if s.len() == 0 {
    } else if k == 0 {
    } else {
        assert(!T::outranks(x, s[0]));
        let rest = s.drop_first();
        assert forall|j: int| 0 <= j < k - 1 implies !T::outranks(x, #[trigger] rest[j]) by {
            assert(rest[j] == s[j + 1]);
        }
        if k - 1 < rest.len() {
            assert(rest[k - 1] == s[k]);
        }
        lemma_slot_is::<T>(rest, x, k - 1);
    }
}

/// Placing an element into an ordered sequence leaves it ordered.
pub proof fn lemma_placed_in_order<T: Ranked>(s: Seq<T::V>, x: T::V)
    requires
        in_order::<T>(s),
    ensures
        in_order::<T>(placed::<T>(s, x)),
{
    lemma_slot_bounds::<T>(s, x);
    let k = slot_for::<T>(s, x);
    let r = placed::<T>(s, x);
    assert forall|i: int, j: int| 0 <= i < j < r.len() implies !T::outranks(r[j], r[i]) by {
        if j == k {
            assert(r[i] == s[i]);
        } else if i == k {
            assert(r[j] == s[j - 1]);
            assert(T::outranks(x, s[k]));
            if j - 1 > k {
                assert(!T::outranks(s[j - 1], s[k]));
            }
            T::lemma_ranking(x, s[j - 1], s[k]);
            T::lemma_ranking(x, s[j - 1], x);
        } else {
            let a = if i < k {
                i
            } else {
                i - 1
            };
            let b = if j < k {
                j
            } else {
                j - 1
            };
            assert(r[i] == s[a]);
            assert(r[j] == s[b]);
        }
    }
}

/// The stable arrangement is ordered and as long as the sequence.
pub proof fn lemma_arranged_in_order<T: Ranked>(s: Seq<T::V>)
    ensures
        in_order::<T>(arranged::<T>(s)),
        arranged::<T>(s).len() == s.len(),
    decreases s.len(),
{
    if s.len() > 0 {
        lemma_arranged_in_order::<T>(s.drop_last());
        lemma_slot_bounds::<T>(arranged::<T>(s.drop_last()), s.last());
        lemma_placed_in_order::<T>(arranged::<T>(s.drop_last()), s.last());
    }
}

/// The stable arrangement holds each element as often as the sequence does.
pub proof fn lemma_arranged_permutes<T: Ranked>(s: Seq<T::V>)
    ensures
        arranged::<T>(s).to_multiset() == s.to_multiset(),
    decreases s.len(),
{
    broadcast use vstd::seq_lib::group_to_multiset_ensures;

    if s.len() > 0 {
        let front = arranged::<T>(s.drop_last());
        lemma_arranged_permutes::<T>(s.drop_last());
        lemma_slot_bounds::<T>(front, s.last());
        vstd::seq_lib::to_multiset_insert(front, slot_for::<T>(front, s.last()), s.last());
        assert(s.drop_last().push(s.last()) == s);
    }
}

/// A sequence that is ordered already is its own stable arrangement.
pub proof fn lemma_arranged_fixes_ordered<T: Ranked>(s: Seq<T::V>)
    requires
        in_order::<T>(s),
    ensures
        arranged::<T>(s) == s,
    decreases s.len(),
{
    if s.len() > 0 {
        let front = s.drop_last();
        lemma_arranged_fixes_ordered::<T>(front);
        lemma_slot_is::<T>(front, s.last(), front.len() as int);
        assert(front.insert(front.len() as int, s.last()) == s);
    }
}

/// Arranges `v` stably: afterwards no element is outranked by a later one,
/// and elements that do not outrank one another keep their order.
pub fn sort_ranked<T: Ranked>(v: &mut Vec<T>)
    ensures
        views_of(final(v)@) == arranged::<T>(views_of(old(v)@)),
        final(v)@.len() == old(v)@.len(),
{
    let ghost orig: Seq<T> = v@;
    let n: usize = v.len();
    let mut i: usize = 0;
    assert(views_of(v@.take(0)) == arranged::<T>(views_of(orig.take(0))));
    while i < n
        invariant
            i <= n,
            v@.len() == n,
            orig.len() == n,
            views_of(v@.take(i as int)) == arranged::<T>(views_of(orig.take(i as int))),
            v@.skip(i as int) == orig.skip(i as int),
        decreases n - i,
    {
        let ghost before: Seq<T> = v@;
        let ghost front: Seq<T::V> = views_of(before.take(i as int));
        let ghost x: T::V = before[i as int]@;
        proof {
            lemma_arranged_in_order::<T>(views_of(orig.take(i as int)));
            assert(before[i as int] == before.skip(i as int)[0]);
            assert(orig[i as int] == orig.skip(i as int)[0]);
        }
        let mut k: usize = i;
        while k > 0 && v[i].stands_before(&v[k - 1])
            invariant
                k <= i,
                i < n,
                v@ == before,
                before.len() == n,
                x == before[i as int]@,
                forall|j: int| k <= j < i ==> T::outranks(x, #[trigger] before[j]@),
            decreases k,
        {
            k -= 1;
        }
        proof {
            assert forall|j: int| 0 <= j < k implies !T::outranks(x, #[trigger] front[j]) by {
                assert(front[j] == before[j]@);
                assert(front[k - 1] == before[k - 1]@);
                if j < k - 1 {
                    assert(!T::outranks(front[k - 1], front[j]));
                }
                T::lemma_ranking(x, front[k - 1], front[j]);
            }
            if k < i {
                assert(front[k as int] == before[k as int]@);
            }
            lemma_slot_is::<T>(front, x, k as int);
        }
        if k < i {
            let moved = v.remove(i);
            v.insert(k, moved);
        }
        proof {
            let grown = orig.take(i + 1);
            assert(grown.drop_last() == orig.take(i as int));
            assert(views_of(grown).drop_last() == views_of(orig.take(i as int)));
            assert(views_of(grown).last() == x);
            assert(views_of(v@.take(i + 1)) == front.insert(k as int, x));
            assert forall|j: int| i < j < n implies v@[j] == orig[j] by {
                assert(before[j] == before.skip(i as int)[j - i]);
                assert(orig[j] == orig.skip(i as int)[j - i]);
            }
            assert(v@.skip(i + 1) == orig.skip(i + 1));
        }
        i += 1;
    }
    assert(v@.take(n as int) == v@);
    assert(orig.take(n as int) == orig);
}

} // verus!
