//! The state of an operator.
//!
//! An operator with one worker owns its state and changes it in its
//! callbacks. A parallel operator has an [`AppendableState`]: each worker
//! works out a partial result on its own, and the partial results are merged
//! into the state one after the other, in the order in which the workers
//! finish. With a merge that is associative and commutative that order does
//! not matter.
use vstd::prelude::*;

verus! {

/// The value that merging `partials` into `init` gives, one after the
/// other, first to last.
pub open spec fn merge_all<U>(combine: spec_fn(U, U) -> U, init: U, partials: Seq<U>) -> U
    decreases partials.len(),
{
    if partials.len() == 0 {
        init
    } else {
        combine(merge_all(combine, init, partials.drop_last()), partials.last())
    }
}

pub open spec fn is_commutative<U>(combine: spec_fn(U, U) -> U) -> bool {
    forall|a: U, b: U| #[trigger] combine(a, b) == combine(b, a)
}

pub open spec fn is_associative<U>(combine: spec_fn(U, U) -> U) -> bool {
    forall|a: U, b: U, c: U| #[trigger] combine(combine(a, b), c) == combine(a, combine(b, c))
}

/// Whether `merge` computes `combine`: whatever a call of it returns is the
/// value of `combine` on the arguments.
pub open spec fn computes<U, F: Fn(&U, &U) -> U>(merge: F, combine: spec_fn(U, U) -> U) -> bool {
    forall|a: U, b: U, merged: U| #[trigger]
        call_ensures(merge, (&a, &b), merged) ==> merged == combine(a, b)
}

/// State into which the workers of a parallel operator merge their partial
/// results.
pub struct AppendableState<U, F> {
    value: U,
    merge: F,
}

impl<U, F: Fn(&U, &U) -> U> AppendableState<U, F> {
    /// The merged value.
    pub closed spec fn value(&self) -> U {
        self.value
    }

    /// The merge function.
    pub closed spec fn merge(&self) -> F {
        self.merge
    }

    /// Whether the merge function can be called on all values.
    pub open spec fn wf(&self) -> bool {
        forall|a: U, b: U| call_requires(self.merge(), (&a, &b))
    }

    /// State that starts at `initial` and merges with `merge`.
    pub fn new(initial: U, merge: F) -> (state: Self)
        ensures
            state.value() == initial,
            state.merge() == merge,
    {
        AppendableState { value: initial, merge }
    }

    /// The merged value.
    pub fn get(&self) -> (value: &U)
        ensures
            *value == self.value(),
    {
        &self.value
    }

    /// Merges `partial` into the state.
    pub fn append(&mut self, partial: U)
        requires
            old(self).wf(),
        ensures
            final(self).merge() == old(self).merge(),
            call_ensures(old(self).merge(), (&old(self).value(), &partial), final(self).value()),
            forall|combine: spec_fn(U, U) -> U|
                computes(old(self).merge(), combine) ==> final(self).value() == #[trigger] combine(
                    old(self).value(),
                    partial,
                ),
    {
        assert(call_requires(self.merge(), (&self.value(), &partial)));
        let merged = (self.merge)(&self.value, &partial);
        self.value = merged;
    }
}

/// Merging one more partial result at any place gives what merging it last
/// gives.
pub proof fn lemma_merge_last<U>(combine: spec_fn(U, U) -> U, init: U, partials: Seq<U>, p: int)
    requires
        is_commutative(combine),
        is_associative(combine),
        0 <= p < partials.len(),
    ensures
        merge_all(combine, init, partials) == combine(
            merge_all(combine, init, partials.remove(p)),
            partials[p],
        ),
    decreases partials.len(),
{
    if p == partials.len() - 1 {
        assert(partials.remove(p) =~= partials.drop_last());
    } else {
        let rest = partials.drop_last();
        let y = partials.last();
        let x = partials[p];
        lemma_merge_last(combine, init, rest, p);
        let a = merge_all(combine, init, rest.remove(p));
        assert(merge_all(combine, init, rest) == combine(a, x));
        assert(merge_all(combine, init, partials) == combine(combine(a, x), y));
        assert(combine(combine(a, x), y) == combine(a, combine(x, y)));
        assert(combine(x, y) == combine(y, x));
        assert(combine(combine(a, y), x) == combine(a, combine(y, x)));
        assert(partials.remove(p) =~= rest.remove(p).push(y));
        assert(partials.remove(p).drop_last() =~= rest.remove(p));
        assert(merge_all(combine, init, partials.remove(p)) == combine(a, y));
    }
}

/// The merged state does not depend on the order in which the workers
/// finish: with a merge that is associative and commutative, merging the
/// same partial results in any two orders gives the same value.
pub proof fn lemma_merge_order<U>(
    combine: spec_fn(U, U) -> U,
    init: U,
    first: Seq<U>,
    second: Seq<U>,
)
    requires
        is_commutative(combine),
        is_associative(combine),
        first.to_multiset() == second.to_multiset(),
    ensures
        merge_all(combine, init, first) == merge_all(combine, init, second),
    decreases first.len(),
{
    broadcast use vstd::seq_lib::group_to_multiset_ensures;

    first.to_multiset_ensures();
    second.to_multiset_ensures();
    assert(first.len() == second.len());
    if first.len() > 0 {
        let x = first.last();
        assert(first.contains(x));
        assert(second.to_multiset().count(x) > 0);
        assert(second.contains(x));
        let p = choose|p: int| 0 <= p < second.len() && second[p] == x;
        assert(first.drop_last() =~= first.remove(first.len() - 1));
        assert(first.drop_last().to_multiset() == second.remove(p).to_multiset());
        lemma_merge_order(combine, init, first.drop_last(), second.remove(p));
        lemma_merge_last(combine, init, second, p);
    }
}

} // verus!
