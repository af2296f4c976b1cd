//! A stable sort, specified functionally.
//!
//! [`stable_sorted`] is the canonical stably sorted permutation of a
//! sequence under a strict order `lt`: elements are taken in input order
//! and each is placed after every earlier element not strictly above it,
//! so elements that compare equal keep their input order.  The executable
//! sorts elsewhere in the crate each prove their result equal to this one
//! sequence, which pins tie-breaking down exactly.

use vstd::prelude::*;
use vstd::multiset::Multiset;
use vstd::seq_lib::group_to_multiset_ensures;
use vstd::seq_lib::lemma_multiset_commutative;

verus! {

/// `s` with `x` inserted before the first element strictly above it.
pub open spec fn ordered_insert<A>(s: Seq<A>, x: A, lt: spec_fn(A, A) -> bool) -> Seq<A>
    decreases s.len(),
{
    if s.len() == 0 {
        seq![x]
    } else if lt(x, s[0]) {
        seq![x] + s
    } else {
        seq![s[0]] + ordered_insert(s.drop_first(), x, lt)
    }
}

/// The stably sorted permutation of `s` under `lt`.
pub open spec fn stable_sorted<A>(s: Seq<A>, lt: spec_fn(A, A) -> bool) -> Seq<A>
    decreases s.len(),
{
    if s.len() == 0 {
        Seq::empty()
    } else {
        ordered_insert(stable_sorted(s.drop_last(), lt), s.last(), lt)
    }
}

/// Nondecreasing with respect to the strict order `lt`: no later element
/// is strictly below an earlier one.
pub open spec fn sorted_le<A>(s: Seq<A>, lt: spec_fn(A, A) -> bool) -> bool {
    forall|i: int, j: int| 0 <= i < j < s.len() ==> !lt(s[j], s[i])
}

/// What the sorting results here require of `lt`: the strict part of a
/// total preorder, as every lexicographic comparison of integer keys is.
pub open spec fn strict_total_preorder<A>(lt: spec_fn(A, A) -> bool) -> bool {
    &&& forall|a: A, b: A| #[trigger] lt(a, b) ==> !lt(b, a)
    &&& forall|a: A, b: A, c: A| lt(a, b) && #[trigger] lt(b, c) ==> #[trigger] lt(a, c)
    &&& forall|a: A, b: A, c: A| #[trigger] lt(a, b) && !lt(c, b) ==> #[trigger] lt(a, c)
}

/// Inserting `x` at a position bounded below by elements not above `x`
/// and bounded above by an element strictly above `x` is exactly
/// [`ordered_insert`].
pub proof fn lemma_ordered_insert_splice<A>(
    s: Seq<A>,
    x: A,
    lt: spec_fn(A, A) -> bool,
    pos: int,
)
    requires
        strict_total_preorder(lt),
        sorted_le(s, lt),
        0 <= pos <= s.len(),
        pos > 0 ==> !lt(x, s[pos - 1]),
        pos < s.len() ==> lt(x, s[pos]),
    ensures
        ordered_insert(s, x, lt) == s.insert(pos, x),
    decreases s.len(),
{
    if s.len() == 0 {
        assert(ordered_insert(s, x, lt) =~= s.insert(0, x));
    } else if lt(x, s[0]) {
        assert(pos == 0) by {
            if pos > 0 {
                assert(!lt(s[pos - 1], s[0]));
                assert(lt(x, s[pos - 1]));
            }
        }
        assert(seq![x] + s =~= s.insert(0, x));
    } else {
        assert(pos > 0);
        let rest = s.drop_first();
        assert(sorted_le(rest, lt)) by {
            assert(forall|i: int, j: int|
                0 <= i < j < rest.len() ==> rest[j] == s[j + 1] && rest[i] == s[i + 1]);
        }
        lemma_ordered_insert_splice(rest, x, lt, pos - 1);
        assert(seq![s[0]] + rest.insert(pos - 1, x) =~= s.insert(pos, x));
    }
}

/// [`ordered_insert`] keeps the sequence sorted and grows it by one.
pub proof fn lemma_ordered_insert_sorted<A>(s: Seq<A>, x: A, lt: spec_fn(A, A) -> bool)
    requires
        strict_total_preorder(lt),
        sorted_le(s, lt),
    ensures
        sorted_le(ordered_insert(s, x, lt), lt),
        ordered_insert(s, x, lt).len() == s.len() + 1,
    decreases s.len(),
{
    if s.len() == 0 {
    } else if lt(x, s[0]) {
        let r = seq![x] + s;
        assert forall|i: int, j: int| 0 <= i < j < r.len() implies !lt(r[j], r[i]) by {
            if i == 0 {
                assert(r[j] == s[j - 1]);
                if lt(s[j - 1], x) {
                    assert(lt(s[j - 1], s[0])) by {
                        if j > 1 {
                            assert(lt(s[j - 1], x) && !lt(s[0], x));
                        }
                    }
                    assert(!lt(s[j - 1], s[0]));
                }
            } else {
                assert(r[i] == s[i - 1] && r[j] == s[j - 1]);
            }
        }
    } else {
        let rest = s.drop_first();
        assert(sorted_le(rest, lt)) by {
            assert(forall|i: int, j: int|
                0 <= i < j < rest.len() ==> rest[j] == s[j + 1] && rest[i] == s[i + 1]);
        }
        lemma_ordered_insert_sorted(rest, x, lt);
        let ri = ordered_insert(rest, x, lt);
        let r = seq![s[0]] + ri;
        assert forall|i: int, j: int| 0 <= i < j < r.len() implies !lt(r[j], r[i]) by {
            if i == 0 {
                assert(r[j] == ri[j - 1]);
                lemma_ordered_insert_element(rest, x, lt, j - 1);
                if lt(ri[j - 1], s[0]) {
                    if ri[j - 1] == x {
                        assert(!lt(x, s[0]));
                    } else {
                        assert(rest.contains(ri[j - 1]));
                        let k = choose|k: int| 0 <= k < rest.len() && rest[k] == ri[j - 1];
                        assert(rest[k] == s[k + 1]);
                        assert(!lt(s[k + 1], s[0]));
                    }
                }
            } else {
                assert(r[i] == ri[i - 1] && r[j] == ri[j - 1]);
            }
        }
    }
}

/// Every element of [`ordered_insert`]`(s, x)` is `x` or one of `s`.
pub proof fn lemma_ordered_insert_element<A>(
    s: Seq<A>,
    x: A,
    lt: spec_fn(A, A) -> bool,
    i: int,
)
    requires
        0 <= i < ordered_insert(s, x, lt).len(),
    ensures
        ordered_insert(s, x, lt)[i] == x || s.contains(ordered_insert(s, x, lt)[i]),
    decreases s.len(),
{
    if s.len() == 0 {
    } else if lt(x, s[0]) {
    } else {
        if i > 0 {
            lemma_ordered_insert_element(s.drop_first(), x, lt, i - 1);
            let e = ordered_insert(s, x, lt)[i];
            if e != x {
                assert(s.drop_first().contains(e));
                let k = choose|k: int| 0 <= k < s.drop_first().len() && s.drop_first()[k] == e;
                assert(s[k + 1] == e);
            }
        }
    }
}

/// [`ordered_insert`] adds exactly `x` to the sequence's contents.
pub proof fn lemma_ordered_insert_multiset<A>(s: Seq<A>, x: A, lt: spec_fn(A, A) -> bool)
    ensures
        ordered_insert(s, x, lt).to_multiset() == s.to_multiset().insert(x),
    decreases s.len(),
{
    broadcast use group_to_multiset_ensures;

    if s.len() == 0 {
        assert(seq![x] =~= Seq::<A>::empty().push(x));
        assert(Seq::<A>::empty().push(x).to_multiset() =~= Seq::<A>::empty().to_multiset().insert(x));
        assert(seq![x].to_multiset() =~= s.to_multiset().insert(x));
    } else if lt(x, s[0]) {
        lemma_multiset_commutative(seq![x], s);
        assert(seq![x].to_multiset() =~= Multiset::<A>::empty().insert(x)) by {
            assert(seq![x] =~= Seq::<A>::empty().push(x));
        }
        assert(Multiset::<A>::empty().insert(x).add(s.to_multiset()) =~= s.to_multiset().insert(x));
    } else {
        lemma_ordered_insert_multiset(s.drop_first(), x, lt);
        lemma_multiset_commutative(seq![s[0]], ordered_insert(s.drop_first(), x, lt));
        lemma_multiset_commutative(seq![s[0]], s.drop_first());
        assert(seq![s[0]] + s.drop_first() =~= s);
        assert(seq![s[0]].to_multiset().add(s.drop_first().to_multiset().insert(x)) =~= seq![
            s[0],
        ].to_multiset().add(s.drop_first().to_multiset()).insert(x));
    }
}

/// The stably sorted permutation is sorted and has the same contents and
/// length as its input.
pub proof fn lemma_stable_sorted_ensures<A>(s: Seq<A>, lt: spec_fn(A, A) -> bool)
    requires
        strict_total_preorder(lt),
    ensures
        sorted_le(stable_sorted(s, lt), lt),
        stable_sorted(s, lt).to_multiset() == s.to_multiset(),
        stable_sorted(s, lt).len() == s.len(),
    decreases s.len(),
{
    broadcast use group_to_multiset_ensures;

    if s.len() == 0 {
        assert(stable_sorted(s, lt).to_multiset() =~= s.to_multiset());
    } else {
        lemma_stable_sorted_ensures(s.drop_last(), lt);
        let prev = stable_sorted(s.drop_last(), lt);
        lemma_ordered_insert_sorted(prev, s.last(), lt);
        lemma_ordered_insert_multiset(prev, s.last(), lt);
        assert(s =~= s.drop_last().push(s.last()));
        assert(s.drop_last().push(s.last()).to_multiset() =~= s.drop_last().to_multiset().insert(
            s.last(),
        ));
    }
}

} // verus!
