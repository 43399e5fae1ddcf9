use vstd::prelude::*;

verus! {

/// The sum of `f` over every element of `s`.  The engine uses it twice: to
/// account the bytes of the live stacks, and as the termination measure of
/// the interpreter (how many actions are still to run).
pub open spec fn sum_by<T>(s: Seq<T>, f: spec_fn(T) -> int) -> int
    decreases s.len(),
{
    if s.len() == 0 {
        0
    } else {
        sum_by(s.drop_last(), f) + f(s.last())
    }
}

/// Appending an element adds its contribution to the sum.
pub proof fn lemma_sum_by_push<T>(s: Seq<T>, x: T, f: spec_fn(T) -> int)
    ensures
        sum_by(s.push(x), f) == sum_by(s, f) + f(x),
{
    assert(s.push(x).drop_last() =~= s);
    assert(s.push(x).last() == x);
}

/// Replacing the element at `i` changes the sum by the difference of the
/// two contributions.
pub proof fn lemma_sum_by_update<T>(s: Seq<T>, i: int, x: T, f: spec_fn(T) -> int)
    requires
        0 <= i < s.len(),
    ensures
        sum_by(s.update(i, x), f) == sum_by(s, f) - f(s[i]) + f(x),
    decreases s.len(),
{
    if i == s.len() - 1 {
        assert(s.update(i, x).drop_last() =~= s.drop_last());
        assert(s.update(i, x).last() == x);
        assert(s.last() == s[i]);
    } else {
        assert(s.update(i, x).drop_last() =~= s.drop_last().update(i, x));
        assert(s.update(i, x).last() == s.last());
        lemma_sum_by_update(s.drop_last(), i, x, f);
    }
}

/// A sum of pointwise nonnegative contributions is nonnegative.
pub proof fn lemma_sum_by_nonneg<T>(s: Seq<T>, f: spec_fn(T) -> int)
    requires
        forall|j: int| 0 <= j < s.len() ==> #[trigger] f(s[j]) >= 0,
    ensures
        sum_by(s, f) >= 0,
    decreases s.len(),
{
    if s.len() > 0 {
        assert(forall|j: int|
            0 <= j < s.drop_last().len() ==> #[trigger] f(s.drop_last()[j]) == f(s[j]));
        lemma_sum_by_nonneg(s.drop_last(), f);
        assert(f(s.last()) == f(s[s.len() - 1]));
    }
}

/// No single nonnegative contribution exceeds the whole sum.
pub proof fn lemma_sum_by_bound<T>(s: Seq<T>, i: int, f: spec_fn(T) -> int)
    requires
        forall|j: int| 0 <= j < s.len() ==> #[trigger] f(s[j]) >= 0,
        0 <= i < s.len(),
    ensures
        f(s[i]) <= sum_by(s, f),
    decreases s.len(),
{
    assert(forall|j: int|
        0 <= j < s.drop_last().len() ==> #[trigger] f(s.drop_last()[j]) == f(s[j]));
    if i == s.len() - 1 {
        lemma_sum_by_nonneg(s.drop_last(), f);
        assert(s.last() == s[i]);
    } else {
        lemma_sum_by_bound(s.drop_last(), i, f);
        assert(f(s.last()) == f(s[s.len() - 1]));
    }
}

} // verus!
