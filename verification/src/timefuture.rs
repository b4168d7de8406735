//! A future that finishes once a sleeping thread marks it completed.

use std::task::Waker;
use std::time::Duration;
use vstd::prelude::*;

use crate::poll::Poll;

verus! {

/// The waker through which a task asks to be polled again.
#[verifier::external_type_specification]
#[verifier::external_body]
pub struct ExWaker(Waker);

/// The state that a sleeping future shares with the thread that sleeps for
/// it: how long the thread sleeps, whether it has woken up, and the waker
/// of the task that polled the future last, if any.
pub struct TimeFuture {
    pub duration: Duration,
    pub completed: bool,
    pub waker: Option<Waker>,
}

/// One poll with the polling task's waker: finished once completed, else
/// the waker is kept (replacing an older one) and the future is pending.
pub open spec fn time_poll_spec(s: TimeFuture, waker: Waker) -> (TimeFuture, Poll<()>) {
    if s.completed {
        (s, Poll::Ready(()))
    } else {
        (TimeFuture { waker: Some(waker), ..s }, Poll::Pending)
    }
}

/// The sleeping thread waking up: the future is completed and the kept
/// waker, if any, is taken out to be woken.
pub open spec fn time_complete_spec(s: TimeFuture) -> (TimeFuture, Option<Waker>) {
    (TimeFuture { completed: true, waker: None, ..s }, s.waker)
}

/// The future after polls with the wakers `ws`, in order.
pub open spec fn time_poll_all(s: TimeFuture, ws: Seq<Waker>) -> TimeFuture
    decreases ws.len(),
{
    if ws.len() == 0 {
        s
    } else {
        time_poll_all(time_poll_spec(s, ws[0]).0, ws.drop_first())
    }
}

impl TimeFuture {
    /// A future that is not completed and keeps no waker; a thread is to
    /// sleep for `duration` and then complete it.
    pub fn new(duration: Duration) -> (t: TimeFuture)
        ensures
            t == (TimeFuture { duration, completed: false, waker: None }),
    {
        TimeFuture { duration, completed: false, waker: None }
    }

    /// Polls the future with the polling task's waker.
    pub fn poll(&mut self, waker: Waker) -> (r: Poll<()>)
        ensures
            (*final(self), r) == time_poll_spec(*old(self), waker),
    {
        if self.completed {
            Poll::Ready(())
        } else {
            self.waker = Some(waker);
            Poll::Pending
        }
    }

    /// Marks the future completed and hands out the kept waker, which the
    /// caller is to wake.
    pub fn complete(&mut self) -> (r: Option<Waker>)
        ensures
            (*final(self), r) == time_complete_spec(*old(self)),
    {
        self.completed = true;
        self.waker.take()
    }
}

/// Completion wakes the task that polled last: after polls with the wakers
/// `ws` (at least one) on a future not yet completed, completing it hands
/// out the last of them; with no poll before, it hands out the waker kept
/// before, if any.
pub proof fn lemma_complete_wakes_last_poller(s: TimeFuture, ws: Seq<Waker>)
    requires
        !s.completed,
    ensures
        ws.len() > 0 ==> time_complete_spec(time_poll_all(s, ws)).1 == Some(ws.last()),
        ws.len() == 0 ==> time_complete_spec(time_poll_all(s, ws)).1 == s.waker,
        !time_poll_all(s, ws).completed,
        time_poll_all(s, ws).duration == s.duration,
    decreases ws.len(),
{
    if ws.len() > 0 {
        let next = time_poll_spec(s, ws[0]).0;
        lemma_complete_wakes_last_poller(next, ws.drop_first());
        if ws.len() > 1 {
            assert(ws.drop_first().last() == ws.last());
        }
    }
}

/// Once completed, a future stays finished: every poll is ready and
/// changes nothing, and completing it again hands out no waker.
pub proof fn lemma_completed_stays_ready(s: TimeFuture, w: Waker)
    ensures
        ({
            let c = time_complete_spec(s).0;
            &&& time_poll_spec(c, w) == (c, Poll::<()>::Ready(()))
            &&& time_complete_spec(c) == (c, None::<Waker>)
        }),
{
}

} // verus!
