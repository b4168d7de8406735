use vstd::prelude::*;

verus! {

/// A future that counts down to zero: every poll that finds the counter
/// above zero (or below it) steps it one towards `i32::MIN`, has the polling
/// task woken at once and is not finished; a poll that finds it at zero
/// finishes with the value zero.
pub struct MyFuture(pub i32);

/// What a poll of a countdown decides.
pub enum CountdownPoll {
    /// Finished with this value.
    Ready(i32),
    /// Not finished: the caller must wake the polling task right away
    /// (`wake_by_ref` on its waker), so that it is polled again, and report
    /// the future pending.
    WakeAndPending,
}

impl CountdownPoll {
    /// Whether the future is not finished yet.
    pub fn is_pending(&self) -> (r: bool)
        ensures
            r == (self is WakeAndPending),
    {
        match self {
            CountdownPoll::Ready(_) => false,
            CountdownPoll::WakeAndPending => true,
        }
    }
}

/// What one poll does to a counter: the counter after the poll and the
/// outcome.
pub open spec fn countdown_step(count: int) -> (int, CountdownPoll) {
    if count == 0 {
        (count, CountdownPoll::Ready(0))
    } else {
        (count - 1, CountdownPoll::WakeAndPending)
    }
}

/// The counter after `k` polls that started at `count`.
pub open spec fn countdown_after(count: int, k: nat) -> int
    decreases k,
{
    if k == 0 {
        count
    } else {
        countdown_after(countdown_step(count).0, (k - 1) as nat)
    }
}

impl MyFuture {
    /// Polls the countdown once: finished at zero, else one step further
    /// and the polling task is to be woken.
    pub fn poll(&mut self) -> (r: CountdownPoll)
        requires
            old(self).0 != i32::MIN,
        ensures
            (final(self).0 as int, r) == countdown_step(old(self).0 as int),
    {
        if self.0 == 0 {
            CountdownPoll::Ready(self.0)
        } else {
            self.0 = self.0 - 1;
            CountdownPoll::WakeAndPending
        }
    }
}

/// Builds the countdown future for `i`.
pub fn my_async_fn(i: i32) -> (f: MyFuture)
    ensures
        f.0 == i,
{
    MyFuture(i)
}

/// The value that the immediately-ready `an_async_fn(i)` finishes with.
pub fn an_async_fn(i: i32) -> (r: i32)
    requires
        i < i32::MAX,
    ensures
        r == i + 1,
{
    i + 1
}

/// A countdown started at `n >= 0` has its task woken and is pending on each of its first
/// `n` polls, with the counter at `n - k` after `k` of them, and finishes
/// with zero on poll `n + 1`; once finished it stays finished.
pub proof fn lemma_countdown_finishes(n: int, k: nat)
    requires
        0 <= n,
    ensures
        k <= n ==> countdown_after(n, k) == n - k,
        k < n ==> countdown_step(countdown_after(n, k)).1 is WakeAndPending,
        k >= n ==> countdown_after(n, k) == 0,
        k >= n ==> countdown_step(countdown_after(n, k)).1 == CountdownPoll::Ready(0),
    decreases k,
{
    if k > 0 {
        if n == 0 {
            lemma_countdown_finishes(0, (k - 1) as nat);
        } else {
            lemma_countdown_finishes(n - 1, (k - 1) as nat);
        }
    }
}

} // verus!
