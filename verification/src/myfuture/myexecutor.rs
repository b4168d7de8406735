use vstd::prelude::*;

verus! {

/// How many tasks the run queue holds at most: a send into a full queue
/// has to wait until the run loop takes a task out.
pub const QUEUE_CAPACITY: usize = 1000;

/// The decisions of an executor that runs tasks in the order in which they
/// were sent to it.  Tasks are sent by `spawn` (a new task) and by
/// `schedule` (a woken task sending itself again); `recv` hands them out in
/// that order.  The executor is done once its spawner has been dropped, no
/// task is queued and every spawned task has been dropped (a task stays
/// alive while the queue, the run loop or a waker of it still holds it, and
/// only an alive task can send itself again): until then `recv`
/// tells the caller to wait for a wake-up.
pub struct MyExecutor<T> {
    queue: Vec<T>,
    spawner_open: bool,
    live_tasks: usize,
}

/// The abstract state of an executor: the queued tasks, oldest first,
/// whether new tasks may still be spawned, and how many spawned tasks have
/// been dropped yet.
pub struct ExecutorView<T> {
    pub queued: Seq<T>,
    pub spawner_open: bool,
    pub live_tasks: nat,
}

/// What the run loop is told to do next.
pub enum Recv<T> {
    /// Poll the given task next.
    Task(T),
    /// Nothing is queued, but a task may still be sent: wait for one.
    Wait,
    /// Nothing is queued and nothing can be sent any more: stop.
    Closed,
}

/// Sending a task: it is queued unless the queue is full.
pub open spec fn send_spec<T>(v: ExecutorView<T>, task: T) -> (ExecutorView<T>, bool) {
    if v.queued.len() < QUEUE_CAPACITY {
        (ExecutorView { queued: v.queued.push(task), ..v }, true)
    } else {
        (v, false)
    }
}

/// Spawning a task: sent as a new alive task.
pub open spec fn spawn_spec<T>(v: ExecutorView<T>, task: T) -> (ExecutorView<T>, bool) {
    let (w, sent) = send_spec(v, task);
    if sent {
        (ExecutorView { live_tasks: w.live_tasks + 1, ..w }, true)
    } else {
        (w, false)
    }
}

/// Dropping the spawner.
pub open spec fn drop_spawner_spec<T>(v: ExecutorView<T>) -> ExecutorView<T> {
    ExecutorView { spawner_open: false, ..v }
}

/// One spawned task dropped.
pub open spec fn task_dropped_spec<T>(v: ExecutorView<T>) -> ExecutorView<T> {
    ExecutorView { live_tasks: (v.live_tasks - 1) as nat, ..v }
}

/// Receiving: the oldest queued task, else wait or stop.
pub open spec fn recv_spec<T>(v: ExecutorView<T>) -> (ExecutorView<T>, Recv<T>) {
    if v.queued.len() > 0 {
        (ExecutorView { queued: v.queued.drop_first(), ..v }, Recv::Task(v.queued[0]))
    } else if !v.spawner_open && v.live_tasks == 0 {
        (v, Recv::Closed)
    } else {
        (v, Recv::Wait)
    }
}

impl<T> View for MyExecutor<T> {
    type V = ExecutorView<T>;

    closed spec fn view(&self) -> ExecutorView<T> {
        ExecutorView {
            queued: self.queue@,
            spawner_open: self.spawner_open,
            live_tasks: self.live_tasks as nat,
        }
    }
}

impl<T> MyExecutor<T> {
    /// The executor's invariant: the queue never holds more than
    /// `QUEUE_CAPACITY` tasks.
    pub closed spec fn wf(&self) -> bool {
        self.queue@.len() <= QUEUE_CAPACITY
    }

    /// A new executor: nothing queued, spawner open, no task alive.
    pub fn init() -> (e: MyExecutor<T>)
        ensures
            e.wf(),
            e@ == (ExecutorView::<T> { queued: Seq::empty(), spawner_open: true, live_tasks: 0 }),
    {
        let e = MyExecutor { queue: Vec::new(), spawner_open: true, live_tasks: 0 };
        proof {
            assert(e@.queued =~= Seq::<T>::empty());
        }
        e
    }

    /// Whether new tasks may still be spawned.
    pub fn is_spawner_open(&self) -> (r: bool)
        ensures
            r == self@.spawner_open,
    {
        self.spawner_open
    }

    /// How many spawned tasks are still alive.
    pub fn live_tasks(&self) -> (r: usize)
        ensures
            r as nat == self@.live_tasks,
    {
        self.live_tasks
    }

    /// Whether the queue is full, so that a send would be refused.
    pub fn is_full(&self) -> (r: bool)
        ensures
            r == (self@.queued.len() >= QUEUE_CAPACITY),
    {
        self.queue.len() >= QUEUE_CAPACITY
    }

    /// Spawns a new task.  A full queue hands the task back untouched, and
    /// the caller must retry once the run loop has taken a task out.
    pub fn spawn(&mut self, task: T) -> (r: Result<(), T>)
        requires
            old(self).wf(),
            old(self)@.spawner_open,
            old(self)@.live_tasks < usize::MAX,
        ensures
            final(self).wf(),
            (final(self)@, r is Ok) == spawn_spec(old(self)@, task),
            r is Err ==> r == Err::<(), T>(task),
    {
        if self.queue.len() < QUEUE_CAPACITY {
            self.queue.push(task);
            self.live_tasks = self.live_tasks + 1;
            Ok(())
        } else {
            Err(task)
        }
    }

    /// Sends an alive task again, as its waker does when it is woken.  A full
    /// queue hands the task back untouched.
    pub fn schedule(&mut self, task: T) -> (r: Result<(), T>)
        requires
            old(self).wf(),
            old(self)@.live_tasks > 0,
        ensures
            final(self).wf(),
            (final(self)@, r is Ok) == send_spec(old(self)@, task),
            r is Err ==> r == Err::<(), T>(task),
    {
        if self.queue.len() < QUEUE_CAPACITY {
            self.queue.push(task);
            Ok(())
        } else {
            Err(task)
        }
    }

    /// Drops the spawner: no task can be spawned any more.
    pub fn drop_spawner(&mut self)
        requires
            old(self).wf(),
        ensures
            final(self).wf(),
            final(self)@ == drop_spawner_spec(old(self)@),
    {
        self.spawner_open = false;
    }

    /// Records that a spawned task has been dropped: neither the queue, the
    /// run loop nor any waker holds it any more.
    pub fn task_dropped(&mut self)
        requires
            old(self).wf(),
            old(self)@.live_tasks > 0,
        ensures
            final(self).wf(),
            final(self)@ == task_dropped_spec(old(self)@),
            final(self)@.live_tasks + 1 == old(self)@.live_tasks,
            final(self)@.queued == old(self)@.queued,
            final(self)@.spawner_open == old(self)@.spawner_open,
    {
        self.live_tasks = self.live_tasks - 1;
    }

    /// Takes the oldest queued task out, or says whether to wait or stop.
    pub fn recv(&mut self) -> (r: Recv<T>)
        requires
            old(self).wf(),
        ensures
            final(self).wf(),
            (final(self)@, r) == recv_spec(old(self)@),
            final(self)@.spawner_open == old(self)@.spawner_open,
            final(self)@.live_tasks == old(self)@.live_tasks,
            r is Task ==> final(self)@.queued == old(self)@.queued.drop_first(),
            !(r is Task) ==> *final(self) == *old(self),
    {
        if self.queue.len() > 0 {
            let t = self.queue.remove(0);
            proof {
                assert(self.queue@ =~= old(self)@.queued.drop_first());
            }
            Recv::Task(t)
        } else if !self.spawner_open && self.live_tasks == 0 {
            Recv::Closed
        } else {
            Recv::Wait
        }
    }
}

/// Once the executor says `Closed`, it stays closed: receiving again
/// changes nothing and says `Closed` again, and neither spawning (spawner
/// dropped), scheduling nor dropping a task (none alive) is possible.
pub proof fn lemma_closed_is_final<T>(v: ExecutorView<T>)
    requires
        recv_spec(v).1 is Closed,
    ensures
        recv_spec(v).0 == v,
        recv_spec(recv_spec(v).0).1 is Closed,
        !v.spawner_open,
        v.live_tasks == 0,
        v.queued.len() == 0,
{
}

/// The executor says `Closed` exactly when its spawner is dropped, nothing
/// is queued and every spawned task has been dropped, and `Wait` exactly when
/// nothing is queued but one of those still may send a task.
pub proof fn lemma_recv_outcomes<T>(v: ExecutorView<T>)
    ensures
        recv_spec(v).1 is Closed <==> (!v.spawner_open && v.queued.len() == 0 && v.live_tasks
            == 0),
        recv_spec(v).1 is Wait <==> (v.queued.len() == 0 && (v.spawner_open || v.live_tasks > 0)),
        recv_spec(v).1 is Task <==> v.queued.len() > 0,
{
}

/// Sends `tasks` one after the other, as `schedule` does; `None` if the
/// queue fills up on the way.
pub open spec fn send_all<T>(v: ExecutorView<T>, tasks: Seq<T>) -> Option<ExecutorView<T>>
    decreases tasks.len(),
{
    if tasks.len() == 0 {
        Some(v)
    } else {
        let (w, sent) = send_spec(v, tasks[0]);
        if sent {
            send_all(w, tasks.drop_first())
        } else {
            None
        }
    }
}

/// Receives `n` times and collects the tasks handed out.
pub open spec fn recv_n<T>(v: ExecutorView<T>, n: nat) -> (ExecutorView<T>, Seq<T>)
    decreases n,
{
    if n == 0 {
        (v, Seq::empty())
    } else {
        let (w, r) = recv_spec(v);
        let (x, rest) = recv_n(w, (n - 1) as nat);
        match r {
            Recv::Task(t) => (x, seq![t] + rest),
            _ => (x, rest),
        }
    }
}

/// Sends accepted while there is room queue in the order they were made.
proof fn lemma_send_all_appends<T>(v: ExecutorView<T>, tasks: Seq<T>)
    requires
        v.queued.len() + tasks.len() <= QUEUE_CAPACITY,
    ensures
        send_all(v, tasks) == Some(ExecutorView { queued: v.queued + tasks, ..v }),
    decreases tasks.len(),
{
    if tasks.len() > 0 {
        let w = ExecutorView { queued: v.queued.push(tasks[0]), ..v };
        lemma_send_all_appends(w, tasks.drop_first());
        assert(w.queued + tasks.drop_first() =~= v.queued + tasks);
    } else {
        assert(v.queued + tasks =~= v.queued);
    }
}

/// Receiving as many times as tasks are queued hands them all out, oldest
/// first, and empties the queue.
proof fn lemma_recv_all<T>(v: ExecutorView<T>)
    ensures
        recv_n(v, v.queued.len()) == (
        ExecutorView { queued: Seq::<T>::empty(), ..v },
        v.queued,
        ),
    decreases v.queued.len(),
{
    if v.queued.len() > 0 {
        let w = ExecutorView { queued: v.queued.drop_first(), ..v };
        lemma_recv_all(w);
        assert(seq![v.queued[0]] + v.queued.drop_first() =~= v.queued);
    } else {
        assert(v.queued =~= Seq::<T>::empty());
    }
}

/// First in, first out: tasks sent (while the queue has room) behind the
/// ones already queued come out of `recv`, after those, in the order in
/// which they were sent, and the queue is empty afterwards.
pub proof fn lemma_fifo<T>(v: ExecutorView<T>, tasks: Seq<T>)
    requires
        v.queued.len() + tasks.len() <= QUEUE_CAPACITY,
    ensures
        send_all(v, tasks) is Some,
        recv_n(send_all(v, tasks).unwrap(), (v.queued.len() + tasks.len()) as nat).1
            == v.queued + tasks,
        recv_n(send_all(v, tasks).unwrap(), (v.queued.len() + tasks.len()) as nat).0.queued.len()
            == 0,
{
    lemma_send_all_appends(v, tasks);
    let w = ExecutorView { queued: v.queued + tasks, ..v };
    lemma_recv_all(w);
}

/// A full queue refuses a spawned or sent task and leaves the executor as
/// it was, so the queue never holds more than `QUEUE_CAPACITY` tasks.
pub proof fn lemma_full_queue_refuses<T>(v: ExecutorView<T>, task: T)
    requires
        v.queued.len() >= QUEUE_CAPACITY,
    ensures
        spawn_spec(v, task) == (v, false),
        send_spec(v, task) == (v, false),
{
}

/// Once the spawner is dropped (the first thing a run does) it stays
/// dropped, whatever is sent, received or dropped afterwards: no task can be
/// spawned any more.  Dropping it again changes nothing, and a run over an
/// executor with nothing queued and no task alive stops at once.
pub proof fn lemma_spawner_stays_dropped<T>(v: ExecutorView<T>, task: T)
    requires
        !v.spawner_open,
    ensures
        !send_spec(v, task).0.spawner_open,
        !recv_spec(v).0.spawner_open,
        !task_dropped_spec(v).spawner_open,
        drop_spawner_spec(v) == v,
        v.queued.len() == 0 && v.live_tasks == 0 ==> recv_spec(drop_spawner_spec(v)).1 is Closed,
{
}

/// Spawns `tasks` one after the other; `None` if the queue fills up on the
/// way.
pub open spec fn spawn_all<T>(v: ExecutorView<T>, tasks: Seq<T>) -> Option<ExecutorView<T>>
    decreases tasks.len(),
{
    if tasks.len() == 0 {
        Some(v)
    } else {
        let (w, sent) = spawn_spec(v, tasks[0]);
        if sent {
            spawn_all(w, tasks.drop_first())
        } else {
            None
        }
    }
}

proof fn lemma_spawn_all_appends<T>(v: ExecutorView<T>, tasks: Seq<T>)
    requires
        v.queued.len() + tasks.len() <= QUEUE_CAPACITY,
    ensures
        spawn_all(v, tasks) == Some(
            ExecutorView {
                queued: v.queued + tasks,
                live_tasks: v.live_tasks + tasks.len(),
                ..v
            },
        ),
    decreases tasks.len(),
{
    if tasks.len() > 0 {
        let w = ExecutorView {
            queued: v.queued.push(tasks[0]),
            live_tasks: v.live_tasks + 1,
            ..v
        };
        lemma_spawn_all_appends(w, tasks.drop_first());
        assert(w.queued + tasks.drop_first() =~= v.queued + tasks);
    } else {
        assert(v.queued + tasks =~= v.queued);
    }
}

/// Spawn order is run order: tasks spawned one after the other (while the
/// queue has room) are all alive, and `recv` hands them out after the tasks
/// already queued, in the order in which they were spawned, so each is
/// polled once before any of them is polled twice.
pub proof fn lemma_spawn_fifo<T>(v: ExecutorView<T>, tasks: Seq<T>)
    requires
        v.queued.len() + tasks.len() <= QUEUE_CAPACITY,
    ensures
        spawn_all(v, tasks) is Some,
        spawn_all(v, tasks).unwrap().live_tasks == v.live_tasks + tasks.len(),
        recv_n(spawn_all(v, tasks).unwrap(), (v.queued.len() + tasks.len()) as nat).1 == v.queued
            + tasks,
        recv_n(spawn_all(v, tasks).unwrap(), (v.queued.len() + tasks.len()) as nat).0.queued.len()
            == 0,
{
    lemma_spawn_all_appends(v, tasks);
    let w = ExecutorView {
        queued: v.queued + tasks,
        live_tasks: v.live_tasks + tasks.len(),
        ..v
    };
    lemma_recv_all(w);
}

/// The queue never holds more than `QUEUE_CAPACITY` tasks: every step of
/// the executor keeps that bound, whatever the number of tasks alive.
pub proof fn lemma_capacity_kept<T>(v: ExecutorView<T>, task: T)
    requires
        v.queued.len() <= QUEUE_CAPACITY,
    ensures
        spawn_spec(v, task).0.queued.len() <= QUEUE_CAPACITY,
        send_spec(v, task).0.queued.len() <= QUEUE_CAPACITY,
        recv_spec(v).0.queued.len() <= QUEUE_CAPACITY,
        drop_spawner_spec(v).queued.len() <= QUEUE_CAPACITY,
        task_dropped_spec(v).queued.len() <= QUEUE_CAPACITY,
{
}

/// A run (which first drops the spawner) stops exactly when nothing is
/// queued and every spawned task has been dropped; while a task is still
/// alive and nothing is queued it waits.
pub proof fn lemma_run_stops_when_all_dropped<T>(v: ExecutorView<T>)
    ensures
        recv_spec(drop_spawner_spec(v)).1 is Closed <==> (v.queued.len() == 0 && v.live_tasks
            == 0),
        recv_spec(drop_spawner_spec(v)).1 is Wait <==> (v.queued.len() == 0 && v.live_tasks > 0),
{
}

/// Tasks spawned on a new executor and then run are first handed out in
/// spawn order, all alive; afterwards every wake of a task (a send of it)
/// queues it exactly once more, behind what is queued, while the queue has
/// room.
pub proof fn lemma_run_polls_in_spawn_order<T>(tasks: Seq<T>, v: ExecutorView<T>, task: T)
    requires
        tasks.len() <= QUEUE_CAPACITY,
        v.queued.len() < QUEUE_CAPACITY,
    ensures
        ({
            let fresh = ExecutorView::<T> {
                queued: Seq::empty(),
                spawner_open: true,
                live_tasks: 0,
            };
            let spawned = spawn_all(fresh, tasks).unwrap();
            let run = recv_n(drop_spawner_spec(spawned), tasks.len());
            &&& spawn_all(fresh, tasks) is Some
            &&& run.1 == tasks
            &&& run.0.live_tasks == tasks.len()
            &&& run.0.queued.len() == 0
        }),
        send_spec(v, task) == (ExecutorView { queued: v.queued.push(task), ..v }, true),
{
    let fresh = ExecutorView::<T> { queued: Seq::empty(), spawner_open: true, live_tasks: 0 };
    lemma_spawn_all_appends(fresh, tasks);
    assert(Seq::<T>::empty() + tasks =~= tasks);
    let closed = ExecutorView::<T> { queued: tasks, spawner_open: false, live_tasks: tasks.len() };
    lemma_recv_all(closed);
}

/// Dropping one task lowers the number of alive tasks by exactly one and
/// changes nothing else: the queue and the spawner stay as they were.
pub proof fn lemma_task_dropped_counts_one<T>(v: ExecutorView<T>)
    requires
        v.live_tasks > 0,
    ensures
        task_dropped_spec(v).live_tasks + 1 == v.live_tasks,
        task_dropped_spec(v).queued == v.queued,
        task_dropped_spec(v).spawner_open == v.spawner_open,
{
}

/// The executor after `k` task drops.
pub open spec fn drop_tasks<T>(v: ExecutorView<T>, k: nat) -> ExecutorView<T>
    decreases k,
{
    if k == 0 {
        v
    } else {
        task_dropped_spec(drop_tasks(v, (k - 1) as nat))
    }
}

/// With the spawner dropped and nothing queued, a run stops only once every
/// alive task is dropped: after `k` of `n` alive tasks are dropped, `n - k`
/// are left, and `recv` says `Closed` exactly when `k == n` (else `Wait`).
pub proof fn lemma_closed_after_last_drop<T>(v: ExecutorView<T>, k: nat)
    requires
        k <= v.live_tasks,
        !v.spawner_open,
        v.queued.len() == 0,
    ensures
        drop_tasks(v, k).live_tasks == v.live_tasks - k,
        drop_tasks(v, k).queued == v.queued,
        !drop_tasks(v, k).spawner_open,
        recv_spec(drop_tasks(v, k)).1 is Closed <==> k == v.live_tasks,
        k < v.live_tasks ==> recv_spec(drop_tasks(v, k)).1 is Wait,
    decreases k,
{
    if k > 0 {
        lemma_closed_after_last_drop(v, (k - 1) as nat);
    }
}

/// Receiving never touches the spawner or the number of alive tasks: a
/// `Task` takes exactly the oldest task off the queue, and `Wait` or
/// `Closed` leave the executor as it was.
pub proof fn lemma_recv_keeps_spawner_and_tasks<T>(v: ExecutorView<T>)
    ensures
        recv_spec(v).0.spawner_open == v.spawner_open,
        recv_spec(v).0.live_tasks == v.live_tasks,
        recv_spec(v).1 is Task ==> recv_spec(v).0.queued.len() + 1 == v.queued.len()
            && recv_spec(v).1 == Recv::Task(v.queued[0]) && forall|i: int|
            0 <= i < recv_spec(v).0.queued.len() ==> recv_spec(v).0.queued[i] == v.queued[i + 1],
        !(recv_spec(v).1 is Task) ==> recv_spec(v).0 == v,
{
}

/// An executor whose spawner is held keeps waiting however often it is
/// asked: with nothing queued, every `recv` says `Wait` and changes nothing.
pub proof fn lemma_open_spawner_keeps_waiting<T>(v: ExecutorView<T>, n: nat)
    requires
        v.spawner_open,
        v.queued.len() == 0,
    ensures
        recv_n(v, n).0 == v,
        recv_n(v, n).1.len() == 0,
        recv_spec(v).1 is Wait,
    decreases n,
{
    if n > 0 {
        lemma_open_spawner_keeps_waiting(v, (n - 1) as nat);
    }
}

} // verus!
