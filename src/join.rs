//! A fail-fast join of a group of concurrent tasks, as a state machine: the
//! caller runs the tasks and feeds each result in as it completes; the first
//! error ends the group, and the results gathered so far are dropped.

use vstd::prelude::*;

verus! {

/// Where a group stands, mathematically.
pub enum JoinOutcome<T, E> {
    /// Still waiting; these results have come in.
    Pending(Seq<T>),
    /// Every task succeeded; their results in completion order.
    Complete(Seq<T>),
    /// A task failed with this error.
    Failed(E),
}

/// The effect of one more result on a group of `total` tasks of which
/// those in `done` have succeeded.
pub open spec fn advance<T, E>(total: nat, done: Seq<T>, event: Result<T, E>) -> JoinOutcome<T, E> {
    match event {
        Err(e) => JoinOutcome::Failed(e),
        Ok(v) => if done.len() + 1 >= total {
            JoinOutcome::Complete(done.push(v))
        } else {
            JoinOutcome::Pending(done.push(v))
        },
    }
}

/// Where a group of `total` tasks stands once `events` have come in, in
/// that order. Results that come in after the group has ended are never
/// looked at.
pub open spec fn run_join<T, E>(total: nat, events: Seq<Result<T, E>>) -> JoinOutcome<T, E>
    decreases events.len(),
{
    if events.len() == 0 {
        if total == 0 {
            JoinOutcome::Complete(Seq::empty())
        } else {
            JoinOutcome::Pending(Seq::empty())
        }
    } else {
        match run_join(total, events.drop_last()) {
            JoinOutcome::Pending(done) => advance(total, done, events.last()),
            ended => ended,
        }
    }
}

/// A group still waiting on some of its `total` tasks.
pub struct FailFastJoin<T> {
    /// How many tasks the group has.
    pub total: usize,
    /// The results of the tasks that have succeeded, in completion order.
    pub done: Vec<T>,
}

/// A group's state after a result comes in.
pub enum JoinStep<T, E> {
    /// Still waiting.
    Pending(FailFastJoin<T>),
    /// Every task succeeded.
    Complete(Vec<T>),
    /// A task failed: cancel the others and report this error.
    Failed(E),
}

impl<T, E> JoinStep<T, E> {
    pub open spec fn outcome(&self) -> JoinOutcome<T, E> {
        match self {
            JoinStep::Pending(g) => JoinOutcome::Pending(g.done@),
            JoinStep::Complete(v) => JoinOutcome::Complete(v@),
            JoinStep::Failed(e) => JoinOutcome::Failed(*e),
        }
    }

    /// A pending group is still short of results.
    pub open spec fn well_formed(&self, total: nat) -> bool {
        self matches JoinStep::Pending(g) ==> g.total == total && g.done@.len() < total
    }
}

impl<T> FailFastJoin<T> {
    /// A group of `total` tasks before any result has come in.
    pub fn start<E>(total: usize) -> (r: JoinStep<T, E>)
        ensures
            r.outcome() == run_join(total as nat, Seq::<Result<T, E>>::empty()),
            r.well_formed(total as nat),
    {
        if total == 0 {
            JoinStep::Complete(Vec::new())
        } else {
            JoinStep::Pending(FailFastJoin { total, done: Vec::new() })
        }
    }

    /// Takes in the result of one more task.
    pub fn step<E>(self, event: Result<T, E>) -> (r: JoinStep<T, E>)
        requires
            self.done@.len() < self.total,
        ensures
            r.outcome() == advance(self.total as nat, self.done@, event),
            r.well_formed(self.total as nat),
    {
        match event {
            Err(e) => JoinStep::Failed(e),
            Ok(v) => {
                let total = self.total;
                let mut done = self.done;
                done.push(v);
                if done.len() >= total {
                    JoinStep::Complete(done)
                } else {
                    JoinStep::Pending(FailFastJoin { total, done })
                }
            },
        }
    }
}

/// While every result so far is a success and fewer than `total` have come
/// in, the group is still waiting, holding exactly those results.
proof fn lemma_join_pending<T, E>(total: nat, events: Seq<Result<T, E>>)
    requires
        events.len() < total,
        forall|j: int| 0 <= j < events.len() ==> (#[trigger] events[j]) is Ok,
    ensures
        run_join(total, events) == JoinOutcome::<T, E>::Pending(
            events.map_values(|e: Result<T, E>| e->Ok_0),
        ),
    decreases events.len(),
{
    if events.len() > 0 {
        let pre = events.drop_last();
        assert forall|j: int| 0 <= j < pre.len() implies (#[trigger] pre[j]) is Ok by {
            assert(pre[j] == events[j]);
        }
        lemma_join_pending(total, pre);
        assert(events.last() == events[events.len() - 1]);
        assert(pre.map_values(|e: Result<T, E>| e->Ok_0).push(events.last()->Ok_0) =~= events.map_values(
            |e: Result<T, E>| e->Ok_0,
        ));
    } else {
        assert(events.map_values(|e: Result<T, E>| e->Ok_0) =~= Seq::<T>::empty());
    }
}

/// Once a group has ended, later results change nothing.
proof fn lemma_join_ended<T, E>(total: nat, events: Seq<Result<T, E>>, n: int)
    requires
        0 <= n <= events.len(),
        !(run_join(total, events.subrange(0, n)) is Pending),
    ensures
        run_join(total, events) == run_join(total, events.subrange(0, n)),
    decreases events.len() - n,
{
    if n < events.len() {
        let next = events.subrange(0, n + 1);
        assert(next.drop_last() =~= events.subrange(0, n));
        lemma_join_ended(total, events, n + 1);
    } else {
        assert(events.subrange(0, n) =~= events);
    }
}

/// Fail-fast: if a task of a group fails before the group has completed,
/// and every result before it was a success, then the group's result is
/// that error, whatever comes in after it; the other results are never
/// handed out.
pub proof fn lemma_fail_fast<T, E>(total: nat, events: Seq<Result<T, E>>, i: int)
    requires
        0 <= i < events.len(),
        i < total,
        events[i] is Err,
        forall|j: int| 0 <= j < i ==> (#[trigger] events[j]) is Ok,
    ensures
        run_join(total, events) == JoinOutcome::<T, E>::Failed(events[i]->Err_0),
{
    let before = events.subrange(0, i);
    assert forall|j: int| 0 <= j < before.len() implies (#[trigger] before[j]) is Ok by {
        assert(before[j] == events[j]);
    }
    lemma_join_pending(total, before);
    let upto = events.subrange(0, i + 1);
    assert(upto.drop_last() =~= before);
    assert(upto.last() == events[i]);
    lemma_join_ended(total, events, i + 1);
}

} // verus!
