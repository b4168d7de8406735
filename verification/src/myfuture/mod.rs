//! A timer future whose deadline is watched by a separate thread, and the
//! channel-driven executor that runs such futures.

pub mod myexecutor;

use std::time::Duration;
use vstd::prelude::*;

verus! {

/// The state that a timer shares with the thread that watches its deadline:
/// its timeout, whether the deadline has passed, and whether the watching
/// thread has been started yet.
pub struct MyTimer {
    pub timeout: Duration,
    pub lapsed: bool,
    pub watcher_started: bool,
}

/// What a poll of a timer decides.
pub enum TimerPoll {
    /// The deadline has passed: the timer is finished with its timeout.
    Ready(Duration),
    /// Not finished; a watcher already runs and will wake the task.
    Pending,
    /// Not finished, and no watcher runs yet: the caller must start one
    /// that waits for the given timeout, then lapses the timer and wakes
    /// the polling task.
    StartWatcher(Duration),
}

/// One poll of a timer: the state after it and what it decides.
pub open spec fn timer_poll_spec(s: MyTimer) -> (MyTimer, TimerPoll) {
    if s.lapsed {
        (s, TimerPoll::Ready(s.timeout))
    } else if !s.watcher_started {
        (MyTimer { watcher_started: true, ..s }, TimerPoll::StartWatcher(s.timeout))
    } else {
        (s, TimerPoll::Pending)
    }
}

/// The watcher thread marking the deadline as passed.
pub open spec fn timer_lapse_spec(s: MyTimer) -> MyTimer {
    MyTimer { lapsed: true, ..s }
}

/// Something that happens to a timer: the owning task polls it, or its
/// watcher thread reports that the deadline has passed.
pub enum TimerEvent {
    Poll,
    Lapse,
}

/// The timer after `events`, starting from `s`.
pub open spec fn timer_run(s: MyTimer, events: Seq<TimerEvent>) -> MyTimer
    decreases events.len(),
{
    if events.len() == 0 {
        s
    } else {
        let next = match events[0] {
            TimerEvent::Poll => timer_poll_spec(s).0,
            TimerEvent::Lapse => timer_lapse_spec(s),
        };
        timer_run(next, events.drop_first())
    }
}

/// How many of the polls among `events`, starting from `s`, ask for a
/// watcher thread to be started.
pub open spec fn watchers_started(s: MyTimer, events: Seq<TimerEvent>) -> nat
    decreases events.len(),
{
    if events.len() == 0 {
        0
    } else {
        match events[0] {
            TimerEvent::Poll => {
                let (next, out) = timer_poll_spec(s);
                (if out is StartWatcher { 1nat } else { 0nat }) + watchers_started(
                    next,
                    events.drop_first(),
                )
            },
            TimerEvent::Lapse => watchers_started(timer_lapse_spec(s), events.drop_first()),
        }
    }
}

impl MyTimer {
    /// A timer that has not lapsed and has no watcher yet.
    pub fn start(timeout: Duration) -> (t: MyTimer)
        ensures
            t == (MyTimer { timeout, lapsed: false, watcher_started: false }),
    {
        MyTimer { timeout, lapsed: false, watcher_started: false }
    }

    /// Polls the timer: finished once lapsed; otherwise the first poll asks
    /// for a watcher thread and later ones just wait.
    pub fn poll(&mut self) -> (r: TimerPoll)
        ensures
            (*final(self), r) == timer_poll_spec(*old(self)),
    {
        if self.lapsed {
            TimerPoll::Ready(self.timeout)
        } else if !self.watcher_started {
            self.watcher_started = true;
            TimerPoll::StartWatcher(self.timeout)
        } else {
            TimerPoll::Pending
        }
    }

    /// Records that the deadline has passed.
    pub fn lapse(&mut self)
        ensures
            *final(self) == timer_lapse_spec(*old(self)),
    {
        self.lapsed = true;
    }
}

/// Whatever happens to a timer, its timeout never changes, a lapsed timer
/// stays lapsed and a started watcher stays started.
pub proof fn lemma_timer_run_keeps(s: MyTimer, events: Seq<TimerEvent>)
    ensures
        timer_run(s, events).timeout == s.timeout,
        s.lapsed ==> timer_run(s, events).lapsed,
        s.watcher_started ==> timer_run(s, events).watcher_started,
    decreases events.len(),
{
    if events.len() > 0 {
        let next = match events[0] {
            TimerEvent::Poll => timer_poll_spec(s).0,
            TimerEvent::Lapse => timer_lapse_spec(s),
        };
        lemma_timer_run_keeps(next, events.drop_first());
    }
}

/// A timer starts at most one watcher thread over its whole life, and none
/// at all once one has been started.
pub proof fn lemma_at_most_one_watcher(s: MyTimer, events: Seq<TimerEvent>)
    ensures
        watchers_started(s, events) <= 1,
        s.watcher_started ==> watchers_started(s, events) == 0,
    decreases events.len(),
{
    if events.len() > 0 {
        match events[0] {
            TimerEvent::Poll => {
                lemma_at_most_one_watcher(timer_poll_spec(s).0, events.drop_first());
            },
            TimerEvent::Lapse => {
                lemma_at_most_one_watcher(timer_lapse_spec(s), events.drop_first());
            },
        }
    }
}

/// Once lapsed, every poll finishes with the timeout the timer was started
/// with, and leaves the timer as it was.
pub proof fn lemma_lapsed_is_ready(s: MyTimer, events: Seq<TimerEvent>)
    requires
        s.lapsed,
    ensures
        timer_poll_spec(timer_run(s, events)) == (
        timer_run(s, events),
        TimerPoll::Ready(s.timeout),
        ),
{
    lemma_timer_run_keeps(s, events);
}

/// Whether `events` holds a poll.
pub open spec fn has_poll(events: Seq<TimerEvent>) -> bool {
    exists|i: int| 0 <= i < events.len() && events[i] is Poll
}

/// A timer that is never polled starts no watcher.
proof fn lemma_no_poll_no_watcher(s: MyTimer, events: Seq<TimerEvent>)
    requires
        !has_poll(events),
    ensures
        watchers_started(s, events) == 0,
    decreases events.len(),
{
    if events.len() > 0 {
        assert(!(events[0] is Poll));
        assert(!has_poll(events.drop_first())) by {
            if has_poll(events.drop_first()) {
                let i = choose|i: int|
                    0 <= i < events.drop_first().len() && events.drop_first()[i] is Poll;
                assert(events[i + 1] is Poll);
            }
        }
        lemma_no_poll_no_watcher(timer_lapse_spec(s), events.drop_first());
    }
}

/// Exactly one watcher per polled timer: a freshly started timer whose
/// first event is a poll (the deadline cannot pass before a watcher waits
/// for it) starts exactly one watcher thread over any events, that first
/// poll starting it; a timer that is never polled starts none.
pub proof fn lemma_exactly_one_watcher(timeout: Duration, events: Seq<TimerEvent>)
    ensures
        events.len() > 0 && events[0] is Poll ==> watchers_started(
            MyTimer { timeout, lapsed: false, watcher_started: false },
            events,
        ) == 1,
        !has_poll(events) ==> watchers_started(
            MyTimer { timeout, lapsed: false, watcher_started: false },
            events,
        ) == 0,
{
    let s = MyTimer { timeout, lapsed: false, watcher_started: false };
    if events.len() > 0 && events[0] is Poll {
        let (next, out) = timer_poll_spec(s);
        assert(out is StartWatcher);
        assert(next.watcher_started);
        lemma_at_most_one_watcher(next, events.drop_first());
    }
    if !has_poll(events) {
        lemma_no_poll_no_watcher(s, events);
    }
}

} // verus!
