//! An executor without wakers: it polls its tasks round-robin, putting every
//! task that is still pending at the back of its queue, until all are done.

use std::collections::VecDeque;
use vstd::prelude::*;

use crate::task::{CountdownTask, all_nonnegative, total};

verus! {

/// A queued task as the schedule sees it: its id and how many more polls of
/// it will report `Pending`.
pub type Pending = (usize, nat);

/// The sum, over `q`, of the polls each task still needs (pending ones plus
/// the finishing one).
pub open spec fn weight(q: Seq<Pending>) -> nat
    decreases q.len(),
{
    if q.len() == 0 {
        0
    } else {
        weight(q.drop_last()) + q.last().1 + 1
    }
}

/// One pass over `q`, front to back, polling every task once: the ids of
/// the tasks that finish, in order, and the tasks that stay pending, in
/// order, each with one pending poll fewer.
pub open spec fn round(q: Seq<Pending>) -> (Seq<usize>, Seq<Pending>)
    decreases q.len(),
{
    if q.len() == 0 {
        (Seq::empty(), Seq::empty())
    } else {
        let (f, n) = round(q.drop_last());
        let t = q.last();
        if t.1 == 0 {
            (f.push(t.0), n)
        } else {
            (f, n.push((t.0, (t.1 - 1) as nat)))
        }
    }
}

/// A pass takes one poll from every task of the queue.
pub proof fn lemma_round_weight(q: Seq<Pending>)
    ensures
        weight(round(q).1) + q.len() == weight(q),
        round(q).0.len() + round(q).1.len() == q.len(),
    decreases q.len(),
{
    if q.len() > 0 {
        let p = q.drop_last();
        lemma_round_weight(p);
        let (f, n) = round(p);
        let t = q.last();
        if t.1 != 0 {
            let m = n.push((t.0, (t.1 - 1) as nat));
            assert(m.drop_last() =~= n);
            assert(weight(m) == weight(n) + t.1);
        }
    }
}

/// The order in which the tasks of `q` finish when polled round-robin.
pub open spec fn finish_order(q: Seq<Pending>) -> Seq<usize>
    decreases weight(q),
{
    if q.len() == 0 {
        Seq::empty()
    } else {
        proof {
            lemma_round_weight(q);
        }
        round(q).0 + finish_order(round(q).1)
    }
}

/// The schedule's view of a queue of tasks.
pub open spec fn pending_view(q: Seq<CountdownTask>) -> Seq<Pending> {
    q.map_values(|t: CountdownTask| (t.task_id(), t.pendings()))
}

/// The weight of two queues joined together is the sum of their weights.
proof fn lemma_weight_concat(a: Seq<Pending>, b: Seq<Pending>)
    ensures
        weight(a + b) == weight(a) + weight(b),
    decreases b.len(),
{
    if b.len() == 0 {
        assert(a + b =~= a);
    } else {
        lemma_weight_concat(a, b.drop_last());
        assert((a + b).drop_last() =~= a + b.drop_last());
    }
}

proof fn lemma_weight_single(y: Pending)
    ensures
        weight(seq![y]) == y.1 + 1,
{
    assert(seq![y].drop_last() =~= Seq::<Pending>::empty());
    assert(seq![y].last() == y);
    assert(weight(Seq::<Pending>::empty()) == 0);
}

proof fn lemma_weight_front(q: Seq<Pending>)
    requires
        q.len() > 0,
    ensures
        weight(q) == q[0].1 + 1 + weight(q.drop_first()),
{
    let a = seq![q[0]];
    lemma_weight_concat(a, q.drop_first());
    assert(a + q.drop_first() =~= q);
    assert(a.drop_last() =~= Seq::<Pending>::empty());
    assert(weight(Seq::<Pending>::empty()) == 0);
    assert(weight(a) == q[0].1 + 1);
}

/// A queue of tasks polled round-robin, in the order in which they were
/// spawned; each task's id is its position at spawning.
pub struct SimpleExecutor {
    tasks: VecDeque<CountdownTask>,
}

impl SimpleExecutor {
    /// The queued tasks, front first, as the schedule sees them.
    pub closed spec fn queued(&self) -> Seq<Pending> {
        pending_view(self.tasks@)
    }

    /// Every queued task is well formed.
    pub closed spec fn wf(&self) -> bool {
        forall|i: int| 0 <= i < self.tasks@.len() ==> (#[trigger] self.tasks@[i]).wf()
    }

    /// An executor with no task.
    pub fn new() -> (e: SimpleExecutor)
        ensures
            e.wf(),
            e.queued() == Seq::<Pending>::empty(),
    {
        let e = SimpleExecutor { tasks: VecDeque::new() };
        proof {
            assert(e.queued() =~= Seq::<Pending>::empty());
        }
        e
    }

    /// Queues a task awaiting a countdown from each of `stages` in turn; its
    /// id is the number of tasks queued before it.
    pub fn spawn(&mut self, stages: Vec<i32>) -> (id: usize)
        requires
            old(self).wf(),
            all_nonnegative(stages@),
        ensures
            final(self).wf(),
            id == old(self).queued().len(),
            final(self).queued() == old(self).queued().push((id, total(stages@) as nat)),
    {
        let id = self.tasks.len();
        let t = CountdownTask::new(id, stages);
        self.tasks.push_back(t);
        proof {
            assert(self.queued() =~= old(self).queued().push((id, total(stages@) as nat)));
        }
        id
    }

    /// Runs every queued task to completion: takes the front task, polls it,
    /// and puts it at the back again while it is pending.  Returns the ids
    /// in the order in which the tasks finished.
    pub fn run(&mut self) -> (order: Vec<usize>)
        requires
            old(self).wf(),
        ensures
            final(self).wf(),
            final(self).queued().len() == 0,
            order@ == finish_order(old(self).queued()),
    {
        let ghost init = self.queued();
        let ghost mut rq: Seq<Pending> = init;
        let ghost mut j: int = 0;
        let ghost mut before: Seq<usize> = Seq::empty();
        let mut order: Vec<usize> = Vec::new();
        loop
            invariant
                self.wf(),
                0 <= j <= rq.len(),
                self.queued() == rq.skip(j) + round(rq.take(j)).1,
                order@ == before + round(rq.take(j)).0,
                before + finish_order(rq) == finish_order(init),
            ensures
                self.wf(),
                self.queued().len() == 0,
                order@ == finish_order(init),
            decreases weight(self.queued()),
        {
            proof {
                if j == rq.len() && rq.len() > 0 {
                    assert(rq.take(j) =~= rq);
                    assert(rq.skip(j) =~= Seq::<Pending>::empty());
                    lemma_round_weight(rq);
                    assert(finish_order(rq) == round(rq).0 + finish_order(round(rq).1));
                    before = before + round(rq).0;
                    rq = round(rq).1;
                    j = 0;
                    assert(rq.take(0) =~= Seq::<Pending>::empty());
                    assert(rq.skip(0) =~= rq);
                    assert(self.queued() =~= rq.skip(j) + round(rq.take(j)).1);
                    assert(before + finish_order(rq) =~= finish_order(init));
                }
            }
            let ghost q0 = self.queued();
            let ghost tasks0 = self.tasks@;
            match self.tasks.pop_front() {
                None => {
                    proof {
                        assert(q0.len() == 0);
                        if rq.len() > 0 {
                            assert(rq.skip(j).len() > 0);
                        }
                        assert(rq.len() == 0);
                        assert(rq.take(j) =~= Seq::<Pending>::empty());
                        assert(before + finish_order(rq) =~= before);
                    }
                    break ;
                },
                Some(mut task) => {
                    proof {
                        if j == rq.len() {
                            assert(rq.len() == 0);
                            assert(rq.take(j) =~= Seq::<Pending>::empty());
                            assert(false);
                        }
                        assert(self.tasks@ =~= tasks0.subrange(1, tasks0.len() as int));
                        assert(pending_view(self.tasks@) =~= q0.drop_first());
                        assert(task == tasks0[0]);
                        assert(q0[0] == rq[j]);
                        assert(task.wf());
                        assert(q0.drop_first() =~= rq.skip(j + 1) + round(rq.take(j)).1);
                        assert(rq.take(j + 1).drop_last() =~= rq.take(j));
                        lemma_weight_front(q0);
                    }
                    let r = task.poll();
                    if r.is_pending() {
                        self.tasks.push_back(task);
                    } else {
                        order.push(task.id());
                    }
                    proof {
                        let ghost x = rq[j];
                        assert(rq.take(j + 1).last() == x);
                        j = j + 1;
                        if x.1 == 0 {
                            assert(self.queued() =~= q0.drop_first());
                        } else {
                            let y: Pending = (x.0, (x.1 - 1) as nat);
                            assert(self.queued() =~= q0.drop_first().push(y));
                            lemma_weight_concat(q0.drop_first(), seq![y]);
                            assert(q0.drop_first().push(y) =~= q0.drop_first() + seq![y]);
                            lemma_weight_single(y);
                        }
                        assert(rq.skip(j - 1).drop_first() =~= rq.skip(j));
                        assert(self.queued() =~= rq.skip(j) + round(rq.take(j)).1);
                    }
                },
            }
        }
        order
    }
}

/// The ids that one pass lets finish are those of the tasks without
/// pending polls.
proof fn lemma_round_finished(q: Seq<Pending>)
    ensures
        forall|i: int| 0 <= i < q.len() && q[i].1 == 0 ==> #[trigger] round(q).0.contains(q[i].0),
        forall|x: usize| #[trigger] round(q).0.contains(x) ==> exists|i: int|
            0 <= i < q.len() && q[i].0 == x,
    decreases q.len(),
{
    if q.len() > 0 {
        let p = q.drop_last();
        lemma_round_finished(p);
        let f = round(p).0;
        let t = q.last();
        assert forall|i: int| 0 <= i < q.len() && q[i].1 == 0 implies #[trigger] round(q).0.contains(
            q[i].0,
        ) by {
            if i < q.len() - 1 {
                assert(p[i] == q[i]);
                assert(f.contains(p[i].0));
                let k = choose|k: int| 0 <= k < f.len() && f[k] == p[i].0;
                assert(round(q).0[k] == q[i].0);
            } else {
                assert(round(q).0[f.len() as int] == q[i].0);
            }
        }
        assert forall|x: usize| #[trigger] round(q).0.contains(x) implies exists|i: int|
            0 <= i < q.len() && q[i].0 == x by {
            let k = choose|k: int| 0 <= k < round(q).0.len() && round(q).0[k] == x;
            if k < f.len() {
                assert(f[k] == x);
                assert(f.contains(x));
                let i = choose|i: int| 0 <= i < p.len() && p[i].0 == x;
                assert(q[i] == p[i]);
            } else {
                assert(q[q.len() - 1].0 == x);
            }
        }
    }
}

/// The ids of the tasks that one pass keeps pending are those of the tasks
/// with pending polls.
proof fn lemma_round_kept(q: Seq<Pending>)
    ensures
        forall|i: int| 0 <= i < q.len() && q[i].1 > 0 ==> exists|k: int|
            0 <= k < round(q).1.len() && #[trigger] round(q).1[k].0 == #[trigger] q[i].0,
        forall|k: int| 0 <= k < round(q).1.len() ==> exists|i: int|
            0 <= i < q.len() && #[trigger] q[i].0 == #[trigger] round(q).1[k].0,
    decreases q.len(),
{
    if q.len() > 0 {
        let p = q.drop_last();
        lemma_round_kept(p);
        let n = round(p).1;
        let t = q.last();
        let m = round(q).1;
        assert(t == q[q.len() - 1]);
        if t.1 == 0 {
            assert(m == n);
        } else {
            assert(m == n.push((t.0, (t.1 - 1) as nat)));
            assert(m[n.len() as int].0 == t.0);
        }
        assert(forall|k: int| 0 <= k < n.len() ==> m[k] == n[k]);
        assert forall|i: int| 0 <= i < q.len() && q[i].1 > 0 implies exists|k: int|
            0 <= k < round(q).1.len() && #[trigger] round(q).1[k].0 == #[trigger] q[i].0 by {
            if i < q.len() - 1 {
                assert(p[i] == q[i]);
                let k = choose|k: int| 0 <= k < n.len() && #[trigger] n[k].0 == #[trigger] p[i].0;
                assert(m[k] == n[k]);
                assert(m[k].0 == q[i].0);
            } else {
                assert(m[n.len() as int].0 == q[i].0);
            }
        }
        assert forall|k: int| 0 <= k < round(q).1.len() implies exists|i: int|
            0 <= i < q.len() && #[trigger] q[i].0 == #[trigger] round(q).1[k].0 by {
            if k < n.len() {
                assert(round(q).1[k] == n[k]);
                let i = choose|i: int| 0 <= i < p.len() && #[trigger] p[i].0 == #[trigger] n[k].0;
                assert(q[i] == p[i]);
            } else {
                assert(q[q.len() - 1].0 == round(q).1[k].0);
            }
        }
    }
}

/// Every task finishes: the finishing order has one entry per queued task,
/// holds the id of every queued task, and no other id.
pub proof fn lemma_every_task_finishes(q: Seq<Pending>)
    ensures
        finish_order(q).len() == q.len(),
        forall|i: int| 0 <= i < q.len() ==> finish_order(q).contains(#[trigger] q[i].0),
        forall|x: usize| #[trigger] finish_order(q).contains(x) ==> exists|i: int|
            0 <= i < q.len() && q[i].0 == x,
    decreases weight(q),
{
    if q.len() > 0 {
        lemma_round_weight(q);
        let f = round(q).0;
        let n = round(q).1;
        lemma_every_task_finishes(n);
        lemma_round_finished(q);
        lemma_round_kept(q);
        let fo = finish_order(q);
        assert(fo == f + finish_order(n));
        assert forall|i: int| 0 <= i < q.len() implies fo.contains(#[trigger] q[i].0) by {
            if q[i].1 == 0 {
                assert(f.contains(q[i].0));
                let k = choose|k: int| 0 <= k < f.len() && f[k] == q[i].0;
                assert(fo[k] == q[i].0);
            } else {
                let k = choose|k: int| 0 <= k < n.len() && #[trigger] n[k].0 == #[trigger] q[i].0;
                assert(finish_order(n).contains(n[k].0));
                let m = choose|m: int|
                    0 <= m < finish_order(n).len() && finish_order(n)[m] == n[k].0;
                assert(fo[f.len() + m] == q[i].0);
            }
        }
        assert forall|x: usize| #[trigger] fo.contains(x) implies exists|i: int|
            0 <= i < q.len() && q[i].0 == x by {
            let m = choose|m: int| 0 <= m < fo.len() && fo[m] == x;
            if m < f.len() {
                assert(f[m] == x);
                assert(f.contains(x));
            } else {
                assert(finish_order(n)[m - f.len()] == x);
                assert(finish_order(n).contains(x));
                let k = choose|k: int| 0 <= k < n.len() && n[k].0 == x;
                let i = choose|i: int| 0 <= i < q.len() && #[trigger] q[i].0 == #[trigger] n[k].0;
                assert(q[i].0 == x);
            }
        }
    }
}

/// The ids of the tasks of `q` that have exactly `r` pending polls, in
/// queue order.
pub open spec fn finishing_in(q: Seq<Pending>, r: nat) -> Seq<usize>
    decreases q.len(),
{
    if q.len() == 0 {
        Seq::empty()
    } else if q.last().1 == r {
        finishing_in(q.drop_last(), r).push(q.last().0)
    } else {
        finishing_in(q.drop_last(), r)
    }
}

/// The ids of the tasks with `from`, `from + 1`, ... up to `from + k - 1`
/// pending polls, group after group.
pub open spec fn passes(q: Seq<Pending>, from: nat, k: nat) -> Seq<usize>
    decreases k,
{
    if k == 0 {
        Seq::empty()
    } else {
        finishing_in(q, from) + passes(q, from + 1, (k - 1) as nat)
    }
}

proof fn lemma_round_finishing(q: Seq<Pending>, r: nat)
    ensures
        round(q).0 == finishing_in(q, 0),
        finishing_in(round(q).1, r) == finishing_in(q, r + 1),
    decreases q.len(),
{
    if q.len() > 0 {
        let p = q.drop_last();
        lemma_round_finishing(p, r);
        let n = round(p).1;
        let t = q.last();
        if t.1 != 0 {
            let m = n.push((t.0, (t.1 - 1) as nat));
            assert(m.drop_last() =~= n);
        }
    }
}

proof fn lemma_passes_shift(q: Seq<Pending>, from: nat, k: nat)
    ensures
        passes(round(q).1, from, k) == passes(q, from + 1, k),
    decreases k,
{
    if k > 0 {
        lemma_round_finishing(q, from);
        lemma_passes_shift(q, from + 1, (k - 1) as nat);
    }
}

proof fn lemma_round_bound(q: Seq<Pending>, k: nat)
    requires
        forall|i: int| 0 <= i < q.len() ==> #[trigger] q[i].1 < k,
    ensures
        forall|i: int| 0 <= i < round(q).1.len() ==> #[trigger] round(q).1[i].1 + 1 < k,
    decreases q.len(),
{
    if q.len() > 0 {
        let p = q.drop_last();
        assert forall|i: int| 0 <= i < p.len() implies #[trigger] p[i].1 < k by {
            assert(p[i] == q[i]);
        }
        lemma_round_bound(p, k);
        let n = round(p).1;
        let t = q.last();
        assert(t == q[q.len() - 1]);
        if t.1 != 0 {
            let m = n.push((t.0, (t.1 - 1) as nat));
            assert forall|i: int| 0 <= i < m.len() implies #[trigger] m[i].1 + 1 < k by {
                if i < n.len() {
                    assert(m[i] == n[i]);
                }
            }
        }
    }
}

proof fn lemma_passes_empty(from: nat, k: nat)
    ensures
        passes(Seq::<Pending>::empty(), from, k) == Seq::<usize>::empty(),
    decreases k,
{
    if k > 0 {
        lemma_passes_empty(from + 1, (k - 1) as nat);
        assert(finishing_in(Seq::<Pending>::empty(), from) == Seq::<usize>::empty());
        assert(Seq::<usize>::empty() + Seq::<usize>::empty() =~= Seq::<usize>::empty());
    }
}

/// Round-robin finishes the tasks pass by pass: first every task without a
/// pending poll, then every task with one, then those with two, and so on,
/// each group in queue order (`k` is any bound on the pending polls).
pub proof fn lemma_finish_by_pending_polls(q: Seq<Pending>, k: nat)
    requires
        forall|i: int| 0 <= i < q.len() ==> #[trigger] q[i].1 < k,
    ensures
        finish_order(q) == passes(q, 0, k),
    decreases weight(q),
{
    if q.len() == 0 {
        lemma_passes_empty(0, k);
        assert(q =~= Seq::<Pending>::empty());
    } else {
        assert(q[0].1 < k);
        lemma_round_weight(q);
        lemma_round_bound(q, k);
        let n = round(q).1;
        assert forall|i: int| 0 <= i < n.len() implies #[trigger] n[i].1 < (k - 1) as nat by {
            assert(n[i].1 + 1 < k);
        }
        lemma_finish_by_pending_polls(n, (k - 1) as nat);
        lemma_passes_shift(q, 0, (k - 1) as nat);
        lemma_round_finishing(q, 0);
    }
}

} // verus!
