//! The workers of a parallel operator.
//!
//! A [`WorkerPool`] decides which worker gets the next message and keeps,
//! for each worker, the partial results that it has worked out and that are
//! yet to be merged into the operator's state. When a worker's result is
//! merged is up to the node: the pool hands the results of each worker out
//! in the order in which the worker finished them.
use crate::state::{
    computes, is_associative, is_commutative, lemma_merge_order, merge_all, AppendableState,
};
use std::collections::VecDeque;
use vstd::multiset::Multiset;
use vstd::prelude::*;

verus! {

/// How a pool chooses the worker for the next message.
#[derive(Clone, Copy, Debug, PartialEq, Eq, Structural)]
pub enum DispatchPolicy {
    /// The workers take turns.
    RoundRobin,
    /// The worker with the fewest results waiting; of several, the first.
    LeastLoaded,
}

/// The mathematical value of a [`WorkerPool`].
pub struct PoolView<U> {
    pub policy: DispatchPolicy,
    /// The worker whose turn it is, if the workers take turns.
    pub cursor: nat,
    /// For each worker the results that wait to be merged, oldest first.
    pub waiting: Seq<Seq<U>>,
}

impl<U> PoolView<U> {
    /// The pool has a worker, and the turn is a worker's.
    pub open spec fn wf(self) -> bool {
        self.waiting.len() > 0 && self.cursor < self.waiting.len()
    }

    /// Worker `w` has no more results waiting than any other, and fewer
    /// than the workers before it.
    pub open spec fn is_least_loaded(self, w: int) -> bool {
        &&& 0 <= w < self.waiting.len()
        &&& forall|k: int| 0 <= k < self.waiting.len() ==> self.waiting[w].len() <= (
        #[trigger] self.waiting[k]).len()
        &&& forall|k: int| 0 <= k < w ==> self.waiting[w].len() < (#[trigger] self.waiting[k]).len()
    }

    /// The worker that gets the next message.
    pub open spec fn assigned(self) -> int {
        match self.policy {
            DispatchPolicy::RoundRobin => self.cursor as int,
            DispatchPolicy::LeastLoaded => choose|w: int| self.is_least_loaded(w),
        }
    }

    /// The pool after a worker was chosen for a message.
    pub open spec fn after_assign(self) -> Self {
        match self.policy {
            DispatchPolicy::RoundRobin => PoolView {
                cursor: if self.cursor + 1 < self.waiting.len() {
                    self.cursor + 1
                } else {
                    0
                },
                ..self
            },
            DispatchPolicy::LeastLoaded => self,
        }
    }

    /// The pool after worker `w` worked out `partial`.
    pub open spec fn after_finish(self, w: int, partial: U) -> Self {
        PoolView { waiting: self.waiting.update(w, self.waiting[w].push(partial)), ..self }
    }

    /// The oldest result of worker `w` that waits, if one does.
    pub open spec fn next_of(self, w: int) -> Option<U> {
        if 0 <= w < self.waiting.len() && self.waiting[w].len() > 0 {
            Some(self.waiting[w][0])
        } else {
            None
        }
    }

    /// The pool after the oldest waiting result of worker `w` was taken to
    /// be merged. A worker without a waiting result, and a number that is no
    /// worker's, leave the pool as it is.
    pub open spec fn after_complete(self, w: int) -> Self {
        if self.next_of(w) is Some {
            PoolView { waiting: self.waiting.update(w, self.waiting[w].skip(1)), ..self }
        } else {
            self
        }
    }
}

impl<U> PoolView<U> {
    /// The oldest waiting result of worker `w`, as a sequence: empty if
    /// there is none.
    pub open spec fn taken_from(self, w: int) -> Seq<U> {
        match self.next_of(w) {
            Some(partial) => seq![partial],
            None => Seq::empty(),
        }
    }

    /// The results that are merged, in the order in which they are merged,
    /// when the workers complete in the order `schedule`: each entry names
    /// the worker whose oldest waiting result is merged next.
    pub open spec fn merged_by(self, schedule: Seq<int>) -> Seq<U>
        decreases schedule.len(),
    {
        if schedule.len() == 0 {
            Seq::empty()
        } else {
            self.taken_from(schedule[0]) + self.after_complete(schedule[0]).merged_by(
                schedule.skip(1),
            )
        }
    }

    /// The pool after the workers completed in the order `schedule`.
    pub open spec fn after_schedule(self, schedule: Seq<int>) -> Self
        decreases schedule.len(),
    {
        if schedule.len() == 0 {
            self
        } else {
            self.after_complete(schedule[0]).after_schedule(schedule.skip(1))
        }
    }

    /// No result waits to be merged.
    pub open spec fn is_drained(self) -> bool {
        forall|w: int| 0 <= w < self.waiting.len() ==> (#[trigger] self.waiting[w]).len() == 0
    }

    /// All results that wait, of all workers, however often each occurs.
    pub open spec fn all_waiting(self) -> Multiset<U> {
        bag_of(self.waiting)
    }
}

/// All results in `waiting`, however often each occurs.
pub open spec fn bag_of<U>(waiting: Seq<Seq<U>>) -> Multiset<U>
    decreases waiting.len(),
{
    if waiting.len() == 0 {
        Multiset::empty()
    } else {
        bag_of(waiting.drop_last()).add(waiting.last().to_multiset())
    }
}

proof fn lemma_bag_without_first<U>(waiting: Seq<Seq<U>>, w: int)
    requires
        0 <= w < waiting.len(),
        waiting[w].len() > 0,
    ensures
        bag_of(waiting) == bag_of(waiting.update(w, waiting[w].skip(1))).insert(waiting[w][0]),
    decreases waiting.len(),
{
    broadcast use vstd::seq_lib::group_to_multiset_ensures;

    let queue = waiting[w];
    let updated = waiting.update(w, queue.skip(1));
    if w == waiting.len() - 1 {
        assert(updated.drop_last() =~= waiting.drop_last());
        assert(queue.skip(1) =~= queue.remove(0));
        queue.to_multiset_ensures();
        assert(queue.contains(queue[0]));
        assert(queue.to_multiset() =~= queue.skip(1).to_multiset().insert(queue[0]));
        assert(bag_of(waiting) =~= bag_of(updated).insert(queue[0]));
    } else {
        lemma_bag_without_first(waiting.drop_last(), w);
        assert(updated.drop_last() =~= waiting.drop_last().update(w, queue.skip(1)));
        assert(updated.last() == waiting.last());
        assert(bag_of(waiting) =~= bag_of(updated).insert(queue[0]));
    }
}

proof fn lemma_bag_of_drained<U>(waiting: Seq<Seq<U>>)
    requires
        forall|w: int| 0 <= w < waiting.len() ==> (#[trigger] waiting[w]).len() == 0,
    ensures
        bag_of(waiting) == Multiset::<U>::empty(),
    decreases waiting.len(),
{
    broadcast use vstd::seq_lib::group_to_multiset_ensures;

    if waiting.len() > 0 {
        lemma_bag_of_drained(waiting.drop_last());
        assert(waiting.last().len() == 0);
        waiting.last().to_multiset_ensures();
        assert(waiting.last().to_multiset().len() == 0);
        assert(waiting.last().to_multiset() =~= Multiset::<U>::empty());
        assert(bag_of(waiting) =~= Multiset::<U>::empty());
    }
}

/// Every result is merged once: what a schedule merges, together with what
/// still waits after it, is what waited before it.
pub proof fn lemma_schedule_merges_once<U>(pool: PoolView<U>, schedule: Seq<int>)
    ensures
        pool.merged_by(schedule).to_multiset().add(pool.after_schedule(schedule).all_waiting())
            == pool.all_waiting(),
    decreases schedule.len(),
{
    broadcast use vstd::seq_lib::group_to_multiset_ensures;

    if schedule.len() == 0 {
        assert(pool.merged_by(schedule).to_multiset() =~= Multiset::<U>::empty());
        assert(Multiset::<U>::empty().add(pool.all_waiting()) =~= pool.all_waiting());
    } else {
        let w = schedule[0];
        let next = pool.after_complete(w);
        let rest = next.merged_by(schedule.skip(1));
        lemma_schedule_merges_once(next, schedule.skip(1));
        match pool.next_of(w) {
            Some(partial) => {
                lemma_bag_without_first(pool.waiting, w);
                vstd::seq_lib::lemma_multiset_commutative(seq![partial], rest);
                assert(seq![partial].to_multiset() =~= Multiset::<U>::empty().insert(partial)) by {
                    assert(seq![partial] =~= Seq::<U>::empty().push(partial));
                }
                assert(pool.merged_by(schedule).to_multiset().add(
                    pool.after_schedule(schedule).all_waiting(),
                ) =~= pool.all_waiting());
            },
            None => {
                assert(pool.merged_by(schedule) =~= rest);
            },
        }
    }
}

/// The merged state does not depend on the order in which the workers
/// complete: two schedules that each leave no result waiting merge the same
/// results, and with a merge that is associative and commutative they give
/// the same state.
pub proof fn lemma_schedule_does_not_matter<U>(
    combine: spec_fn(U, U) -> U,
    init: U,
    pool: PoolView<U>,
    first: Seq<int>,
    second: Seq<int>,
)
    requires
        is_commutative(combine),
        is_associative(combine),
        pool.after_schedule(first).is_drained(),
        pool.after_schedule(second).is_drained(),
    ensures
        pool.merged_by(first).to_multiset() == pool.all_waiting(),
        pool.merged_by(second).to_multiset() == pool.all_waiting(),
        merge_all(combine, init, pool.merged_by(first)) == merge_all(
            combine,
            init,
            pool.merged_by(second),
        ),
{
    lemma_schedule_merges_once(pool, first);
    lemma_schedule_merges_once(pool, second);
    lemma_bag_of_drained(pool.after_schedule(first).waiting);
    lemma_bag_of_drained(pool.after_schedule(second).waiting);
    assert(pool.merged_by(first).to_multiset().add(Multiset::<U>::empty())
        =~= pool.merged_by(first).to_multiset());
    assert(pool.merged_by(second).to_multiset().add(Multiset::<U>::empty())
        =~= pool.merged_by(second).to_multiset());
    lemma_merge_order(combine, init, pool.merged_by(first), pool.merged_by(second));
}

/// The workers of a parallel operator and their results that wait to be
/// merged.
pub struct WorkerPool<U> {
    policy: DispatchPolicy,
    cursor: usize,
    waiting: Vec<VecDeque<U>>,
}

impl<U> View for WorkerPool<U> {
    type V = PoolView<U>;

    closed spec fn view(&self) -> PoolView<U> {
        PoolView {
            policy: self.policy,
            cursor: self.cursor as nat,
            waiting: self.waiting@.map_values(|queue: VecDeque<U>| queue@),
        }
    }
}

impl<U> WorkerPool<U> {
    #[verifier::type_invariant]
    spec fn inv(self) -> bool {
        self.waiting@.len() > 0 && self.cursor < self.waiting@.len()
    }


    /// A pool of `num_workers` workers, or of one if `num_workers` is 0,
    /// none with a result waiting.
    pub fn new(num_workers: usize, policy: DispatchPolicy) -> (pool: Self)
        ensures
            pool@.wf(),
            pool@.policy == policy,
            pool@.cursor == 0,
            pool@.waiting.len() == if num_workers == 0 {
                1
            } else {
                num_workers as int
            },
            forall|w: int| 0 <= w < pool@.waiting.len() ==> (#[trigger] pool@.waiting[w]).len() == 0,
    {
        let workers: usize = if num_workers == 0 {
            1
        } else {
            num_workers
        };
        let mut waiting: Vec<VecDeque<U>> = Vec::new();
        let mut w: usize = 0;
        while w < workers
            invariant
                w <= workers,
                waiting@.len() == w,
                forall|k: int| 0 <= k < w ==> (#[trigger] waiting@[k])@.len() == 0,
            decreases workers - w,
        {
            waiting.push(VecDeque::new());
            w = w + 1;
        }
        WorkerPool { policy, cursor: 0, waiting }
    }

    /// Changes how the pool chooses the worker for the next message. The
    /// results that wait stay where they are.
    pub fn set_policy(&mut self, policy: DispatchPolicy)
        ensures
            final(self)@ == (PoolView { policy, ..old(self)@ }),
    {
        proof {
            use_type_invariant(&*self);
        }
        self.policy = policy;
    }

    /// The number of workers.
    pub fn num_workers(&self) -> (n: usize)
        ensures
            n == self@.waiting.len(),
            self@.wf(),
    {
        proof {
            use_type_invariant(self);
        }
        self.waiting.len()
    }

    /// The number of results of worker `w` that wait to be merged.
    pub fn num_waiting(&self, w: usize) -> (n: usize)
        requires
            w < self@.waiting.len(),
        ensures
            n == self@.waiting[w as int].len(),
    {
        self.waiting[w].len()
    }

    /// Chooses the worker for the next message.
    pub fn assign(&mut self) -> (w: usize)
        ensures
            old(self)@.wf(),
            final(self)@.wf(),
            w == old(self)@.assigned(),
            w < old(self)@.waiting.len(),
            final(self)@ == old(self)@.after_assign(),
    {
        match self.policy {
            DispatchPolicy::RoundRobin => {
                proof {
                    use_type_invariant(&*self);
                }
                let w = self.cursor;
                let n = self.waiting.len();
                self.cursor = if w + 1 < n {
                    w + 1
                } else {
                    0
                };
                w
            },
            DispatchPolicy::LeastLoaded => {
                proof {
                    use_type_invariant(&*self);
                }
                let mut best: usize = 0;
                let mut k: usize = 1;
                while k < self.waiting.len()
                    invariant
                        *self == *old(self),
                        best < k <= self.waiting@.len(),
                        forall|k2: int|
                            0 <= k2 < k ==> self@.waiting[best as int].len() <= (
                            #[trigger] self@.waiting[k2]).len(),
                        forall|k2: int|
                            0 <= k2 < best ==> self@.waiting[best as int].len() < (
                            #[trigger] self@.waiting[k2]).len(),
                    decreases self.waiting@.len() - k,
                {
                    if self.waiting[k].len() < self.waiting[best].len() {
                        best = k;
                    }
                    k = k + 1;
                }
                proof {
                    let view = self@;
                    assert(view.is_least_loaded(best as int));
                    let chosen = choose|w: int| view.is_least_loaded(w);
                    if chosen < best {
                        assert(view.waiting[best as int].len() < view.waiting[chosen].len());
                        assert(view.waiting[chosen].len() <= view.waiting[best as int].len());
                    } else if best < chosen {
                        assert(view.waiting[chosen].len() < view.waiting[best as int].len());
                        assert(view.waiting[best as int].len() <= view.waiting[chosen].len());
                    }
                }
                best
            },
        }
    }

    /// Keeps `partial`, which worker `w` worked out, until it is merged.
    pub fn finish(&mut self, w: usize, partial: U)
        requires
            w < old(self)@.waiting.len(),
        ensures
            final(self)@ == old(self)@.after_finish(w as int, partial),
    {
        proof {
            use_type_invariant(&*self);
        }
        self.waiting[w].push_back(partial);
        proof {
            assert(self@.waiting =~= old(self)@.waiting.update(
                w as int,
                old(self)@.waiting[w as int].push(partial),
            ));
        }
    }

    /// Takes the oldest waiting result of worker `w`, to merge it.
    pub fn complete(&mut self, w: usize) -> (partial: Option<U>)
        ensures
            partial == old(self)@.next_of(w as int),
            final(self)@ == old(self)@.after_complete(w as int),
    {
        proof {
            use_type_invariant(&*self);
        }
        if w >= self.waiting.len() {
            return None;
        }
        let partial = self.waiting[w].pop_front();
        proof {
            if partial is Some {
                assert(self@.waiting =~= old(self)@.waiting.update(
                    w as int,
                    old(self)@.waiting[w as int].skip(1),
                ));
            } else {
                assert(self@.waiting =~= old(self)@.waiting);
            }
        }
        partial
    }
}

/// The workers named by `schedule`, as the places of a schedule.
pub open spec fn places(schedule: Seq<usize>) -> Seq<int> {
    schedule.map_values(|w: usize| w as int)
}

/// What a schedule merges is what its beginning merges, then what its last
/// entry merges; and the pool after it is the pool after its beginning and
/// then its last entry.
pub proof fn lemma_schedule_by_last<U>(pool: PoolView<U>, schedule: Seq<int>)
    requires
        schedule.len() > 0,
    ensures
        pool.after_schedule(schedule) == pool.after_schedule(schedule.drop_last()).after_complete(
            schedule.last(),
        ),
        pool.merged_by(schedule) == pool.merged_by(schedule.drop_last()) + pool.after_schedule(
            schedule.drop_last(),
        ).taken_from(schedule.last()),
    decreases schedule.len(),
{
    let next = pool.after_complete(schedule[0]);
    let rest = schedule.skip(1);
    let start = schedule.drop_last();
    if schedule.len() == 1 {
        assert(rest.len() == 0 && start.len() == 0);
        assert(next.merged_by(rest) =~= Seq::<U>::empty());
        assert(next.after_schedule(rest) == next);
        assert(pool.merged_by(start) =~= Seq::<U>::empty());
        assert(pool.after_schedule(start) == pool);
        assert(pool.merged_by(schedule) =~= pool.taken_from(schedule[0]));
        assert(pool.merged_by(start) + pool.taken_from(schedule[0]) =~= pool.taken_from(
            schedule[0],
        ));
    } else {
        lemma_schedule_by_last(next, rest);
        assert(rest.drop_last() =~= start.skip(1));
        assert(rest.last() == schedule.last());
        assert(start[0] == schedule[0]);
        assert(pool.merged_by(start) == pool.taken_from(start[0]) + next.merged_by(start.skip(1)));
        assert(pool.after_schedule(start) == next.after_schedule(start.skip(1)));
        assert(pool.merged_by(schedule) =~= pool.merged_by(start) + pool.after_schedule(
            start,
        ).taken_from(schedule.last()));
    }
}

/// Merges the results of the workers into `state` in the order `schedule`:
/// for each entry the oldest waiting result of the worker that it names, if
/// the worker has one. Returns how many results were merged.
pub fn merge_in_order<U, F: Fn(&U, &U) -> U>(
    state: &mut AppendableState<U, F>,
    pool: &mut WorkerPool<U>,
    schedule: &Vec<usize>,
) -> (merged: usize)
    requires
        old(state).wf(),
    ensures
        final(state).merge() == old(state).merge(),
        final(pool)@ == old(pool)@.after_schedule(places(schedule@)),
        merged == old(pool)@.merged_by(places(schedule@)).len(),
        forall|combine: spec_fn(U, U) -> U|
            computes(old(state).merge(), combine) ==> final(state).value() == #[trigger] merge_all(
                combine,
                old(state).value(),
                old(pool)@.merged_by(places(schedule@)),
            ),
{
    let ghost all = places(schedule@);
    let mut merged: usize = 0;
    let mut i: usize = 0;
    proof {
        assert(all.take(0) =~= Seq::<int>::empty());
    }
    while i < schedule.len()
        invariant
            i <= schedule@.len(),
            all == places(schedule@),
            state.wf(),
            state.merge() == old(state).merge(),
            pool@ == old(pool)@.after_schedule(all.take(i as int)),
            merged == old(pool)@.merged_by(all.take(i as int)).len(),
            merged <= i,
            forall|combine: spec_fn(U, U) -> U|
                computes(old(state).merge(), combine) ==> state.value() == #[trigger] merge_all(
                    combine,
                    old(state).value(),
                    old(pool)@.merged_by(all.take(i as int)),
                ),
        decreases schedule@.len() - i,
    {
        let ghost before = state.value();
        let ghost done = old(pool)@.merged_by(all.take(i as int));
        let worker = schedule[i];
        let taken = pool.complete(worker);
        proof {
            let next = all.take(i + 1);
            assert(next.drop_last() =~= all.take(i as int));
            assert(next.last() == worker as int);
            lemma_schedule_by_last(old(pool)@, next);
        }
        match taken {
            Some(partial) => {
                state.append(partial);
                merged = merged + 1;
                proof {
                    let now = old(pool)@.merged_by(all.take(i + 1));
                    assert(now =~= done.push(partial));
                    assert(now.drop_last() =~= done);
                    assert forall|combine: spec_fn(U, U) -> U|
                        computes(old(state).merge(), combine) implies state.value()
                        == #[trigger] merge_all(combine, old(state).value(), now) by {
                        assert(before == merge_all(combine, old(state).value(), done));
                        assert(state.value() == combine(before, partial));
                    }
                }
            },
            None => {
                proof {
                    assert(old(pool)@.merged_by(all.take(i + 1)) =~= done);
                }
            },
        }
        i = i + 1;
    }
    proof {
        assert(all.take(schedule@.len() as int) =~= all);
    }
    merged
}

} // verus!
