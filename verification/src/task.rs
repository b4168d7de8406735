//! A task whose body awaits a sequence of countdown futures, one after the
//! other, as an `async` block awaiting `my_async_fn` calls in turn does.

use vstd::prelude::*;

use crate::countdown::{CountdownPoll, MyFuture, my_async_fn};

verus! {

/// The sum of `counts`.
pub open spec fn total(counts: Seq<i32>) -> int
    decreases counts.len(),
{
    if counts.len() == 0 {
        0
    } else {
        counts[0] + total(counts.drop_first())
    }
}

/// Whether no count is negative.
pub open spec fn all_nonnegative(counts: Seq<i32>) -> bool {
    forall|i: int| 0 <= i < counts.len() ==> counts[i] >= 0
}

/// A sum of counts none of which is negative is not negative.
pub proof fn lemma_total_nonnegative(counts: Seq<i32>)
    requires
        all_nonnegative(counts),
    ensures
        total(counts) >= 0,
    decreases counts.len(),
{
    if counts.len() > 0 {
        lemma_total_nonnegative(counts.drop_first());
    }
}

/// A task with an id, awaiting a countdown for each of its stages in turn.
/// `stages[next..]` are the stages not started yet; `current` is the
/// countdown being awaited, if one was started and has not finished.
pub struct CountdownTask {
    id: usize,
    stages: Vec<i32>,
    next: usize,
    current: Option<MyFuture>,
}

impl CountdownTask {
    /// The task's id.
    pub closed spec fn task_id(&self) -> usize {
        self.id
    }

    /// The task's id.
    pub fn id(&self) -> (r: usize)
        ensures
            r == self.task_id(),
    {
        self.id
    }

    /// The task's invariant: no stage and no running countdown is negative.
    pub closed spec fn wf(&self) -> bool {
        &&& self.next <= self.stages@.len()
        &&& all_nonnegative(self.stages@.subrange(self.next as int, self.stages@.len() as int))
        &&& (self.current matches Some(f) ==> f.0 >= 0)
    }

    /// How many more polls of the task will report `Pending` before it
    /// finishes: what is left of the running countdown plus all stages not
    /// started yet.
    pub closed spec fn pendings(&self) -> nat {
        let running: int = match self.current {
            Some(f) => f.0 as int,
            None => 0,
        };
        (running + total(self.stages@.subrange(self.next as int, self.stages@.len() as int))) as nat
    }

    /// A task that awaits a countdown from each of `stages`, in order.
    pub fn new(id: usize, stages: Vec<i32>) -> (t: CountdownTask)
        requires
            all_nonnegative(stages@),
        ensures
            t.wf(),
            t.task_id() == id,
            t.pendings() == total(stages@),
    {
        let t = CountdownTask { id, stages, next: 0, current: None };
        proof {
            assert(t.stages@.subrange(0, t.stages@.len() as int) =~= t.stages@);
            lemma_total_nonnegative(t.stages@);
        }
        t
    }

    /// Polls the task: it runs its countdowns, starting each stage as the
    /// one before finishes, until one of them is pending or all are done.
    /// A task with pending polls left passes on the running countdown's
    /// request to be woken and has one fewer left; a task with none left
    /// finishes with the value its countdowns finish with, zero.
    pub fn poll(&mut self) -> (r: CountdownPoll)
        requires
            old(self).wf(),
        ensures
            final(self).wf(),
            final(self).task_id() == old(self).task_id(),
            old(self).pendings() == 0 ==> r == CountdownPoll::Ready(0) && final(self).pendings()
                == 0,
            old(self).pendings() > 0 ==> r is WakeAndPending && final(self).pendings() == old(
                self,
            ).pendings() - 1,
    {
        let ghost start = self.pendings();
        loop
            invariant
                self.wf(),
                self.id == old(self).id,
                self.pendings() == start,
                start == old(self).pendings(),
            decreases (self.stages@.len() - self.next) * 2 + if self.current is Some {
                1int
            } else {
                0int
            },
        {
            let ghost rest = self.stages@.subrange(self.next as int, self.stages@.len() as int);
            proof {
                lemma_total_nonnegative(rest);
            }
            match self.current.take() {
                Some(mut f) => {
                    match f.poll() {
                        CountdownPoll::WakeAndPending => {
                            self.current = Some(f);
                            return CountdownPoll::WakeAndPending;
                        },
                        CountdownPoll::Ready(_) => {},
                    }
                },
                None => {
                    if self.next < self.stages.len() {
                        let c = self.stages[self.next];
                        self.current = Some(my_async_fn(c));
                        self.next = self.next + 1;
                        proof {
                            assert(rest[0] == c);
                            assert(self.stages@.subrange(self.next as int, self.stages@.len() as int)
                                =~= rest.drop_first());
                        }
                    } else {
                        proof {
                            assert(rest.len() == 0);
                        }
                        return CountdownPoll::Ready(0);
                    }
                },
            }
        }
    }
}

} // verus!
