//! Sums over sequences, and the facts about them that the size totals use.

use vstd::prelude::*;

verus! {

/// The sum of `f` over the elements of `s`, taken from the front.
pub open spec fn sum_of<A>(s: Seq<A>, f: spec_fn(A) -> int) -> int
    decreases s.len(),
{
    if s.len() == 0 {
        0
    } else {
        sum_of(s.drop_last(), f) + f(s.last())
    }
}

/// `f` takes no negative value on the elements of `s`.
pub open spec fn nonneg_on<A>(s: Seq<A>, f: spec_fn(A) -> int) -> bool {
    forall|i: int| 0 <= i < s.len() ==> f(#[trigger] s[i]) >= 0
}

/// Extending a prefix by one element adds that element's value.
pub proof fn lemma_sum_take_next<A>(s: Seq<A>, f: spec_fn(A) -> int, i: int)
    requires
        0 <= i < s.len(),
    ensures
        sum_of(s.take(i + 1), f) == sum_of(s.take(i), f) + f(s[i]),
{
    assert(s.take(i + 1).drop_last() =~= s.take(i));
}

/// The whole sequence is its own longest prefix.
pub proof fn lemma_sum_take_all<A>(s: Seq<A>, f: spec_fn(A) -> int)
    ensures
        sum_of(s.take(s.len() as int), f) == sum_of(s, f),
{
    assert(s.take(s.len() as int) =~= s);
}

/// With no negative values, a prefix sums to no more than the whole.
pub proof fn lemma_sum_prefix_le<A>(s: Seq<A>, f: spec_fn(A) -> int, i: int)
    requires
        0 <= i <= s.len(),
        nonneg_on(s, f),
    ensures
        0 <= sum_of(s.take(i), f) <= sum_of(s, f),
    decreases s.len() - i,
{
    if i == s.len() {
        lemma_sum_take_all(s, f);
        lemma_sum_nonneg(s, f);
    } else {
        lemma_sum_prefix_le(s, f, i + 1);
        lemma_sum_take_next(s, f, i);
        assert(f(s[i]) >= 0);
        assert(nonneg_on(s.take(i), f)) by {
            assert forall|j: int| 0 <= j < s.take(i).len() implies f(#[trigger] s.take(i)[j])
                >= 0 by {
                assert(s.take(i)[j] == s[j]);
            }
        }
        lemma_sum_nonneg(s.take(i), f);
    }
}

/// With no negative values, the sum is not negative.
pub proof fn lemma_sum_nonneg<A>(s: Seq<A>, f: spec_fn(A) -> int)
    requires
        nonneg_on(s, f),
    ensures
        sum_of(s, f) >= 0,
    decreases s.len(),
{
    if s.len() > 0 {
        assert(nonneg_on(s.drop_last(), f)) by {
            assert forall|i: int| 0 <= i < s.drop_last().len() implies f(
                #[trigger] s.drop_last()[i],
            ) >= 0 by {
                assert(s.drop_last()[i] == s[i]);
            }
        }
        lemma_sum_nonneg(s.drop_last(), f);
        assert(f(s[s.len() - 1]) >= 0);
    }
}

/// With no negative values, a single element is at most the sum.
pub proof fn lemma_sum_element_le<A>(s: Seq<A>, f: spec_fn(A) -> int, i: int)
    requires
        0 <= i < s.len(),
        nonneg_on(s, f),
    ensures
        f(s[i]) <= sum_of(s, f),
{
    lemma_sum_prefix_le(s, f, i + 1);
    lemma_sum_prefix_le(s, f, i);
    lemma_sum_take_next(s, f, i);
}

/// Sums distribute over concatenation.
pub proof fn lemma_sum_concat<A>(a: Seq<A>, b: Seq<A>, f: spec_fn(A) -> int)
    ensures
        sum_of(a + b, f) == sum_of(a, f) + sum_of(b, f),
    decreases b.len(),
{
    if b.len() == 0 {
        assert(a + b =~= a);
    } else {
        assert((a + b).drop_last() =~= a + b.drop_last());
        lemma_sum_concat(a, b.drop_last(), f);
    }
}

/// A sum over a sequence with one element removed.
pub proof fn lemma_sum_remove<A>(s: Seq<A>, f: spec_fn(A) -> int, i: int)
    requires
        0 <= i < s.len(),
    ensures
        sum_of(s.remove(i), f) == sum_of(s, f) - f(s[i]),
{
    let left = s.take(i);
    let right = s.skip(i + 1);
    assert(s.remove(i) =~= left + right);
    assert(s =~= left + seq![s[i]] + right);
    lemma_sum_concat(left, right, f);
    lemma_sum_concat(left + seq![s[i]], right, f);
    lemma_sum_concat(left, seq![s[i]], f);
    let single = seq![s[i]];
    assert(single.drop_last() =~= Seq::<A>::empty());
    assert(sum_of(single.drop_last(), f) == 0);
    assert(sum_of(single, f) == f(s[i]));
}

/// Two functions that agree on every element give the same sum.
pub proof fn lemma_sum_congruent<A>(s: Seq<A>, f: spec_fn(A) -> int, g: spec_fn(A) -> int)
    requires
        forall|i: int| 0 <= i < s.len() ==> f(#[trigger] s[i]) == g(s[i]),
    ensures
        sum_of(s, f) == sum_of(s, g),
    decreases s.len(),
{
    if s.len() > 0 {
        assert forall|i: int| 0 <= i < s.drop_last().len() implies f(
            #[trigger] s.drop_last()[i],
        ) == g(s.drop_last()[i]) by {
            assert(s.drop_last()[i] == s[i]);
        }
        lemma_sum_congruent(s.drop_last(), f, g);
        assert(f(s[s.len() - 1]) == g(s[s.len() - 1]));
    }
}

/// Pointwise smaller values give a smaller sum.
pub proof fn lemma_sum_pointwise_le<A>(s: Seq<A>, f: spec_fn(A) -> int, g: spec_fn(A) -> int)
    requires
        forall|i: int| 0 <= i < s.len() ==> f(#[trigger] s[i]) <= g(s[i]),
    ensures
        sum_of(s, f) <= sum_of(s, g),
    decreases s.len(),
{
    if s.len() > 0 {
        assert forall|i: int| 0 <= i < s.drop_last().len() implies f(
            #[trigger] s.drop_last()[i],
        ) <= g(s.drop_last()[i]) by {
            assert(s.drop_last()[i] == s[i]);
        }
        lemma_sum_pointwise_le(s.drop_last(), f, g);
        assert(f(s[s.len() - 1]) <= g(s[s.len() - 1]));
    }
}

/// The sum of differences is the difference of sums.
pub proof fn lemma_sum_difference<A>(
    s: Seq<A>,
    f: spec_fn(A) -> int,
    g: spec_fn(A) -> int,
    h: spec_fn(A) -> int,
)
    requires
        forall|x: A| #[trigger] h(x) == f(x) - g(x),
    ensures
        sum_of(s, h) == sum_of(s, f) - sum_of(s, g),
    decreases s.len(),
{
    if s.len() > 0 {
        lemma_sum_difference(s.drop_last(), f, g, h);
    }
}

} // verus!
