//! A waker that only announces that it was woken.

use vstd::prelude::*;

verus! {

/// A waker attached to no task: waking it only announces the wake-up.
pub struct MyWaker;

impl MyWaker {
    /// The announcement that waking this waker prints.
    pub fn wake_message(&self) -> (r: &'static str)
        ensures
            r@ == "\nWooHoo... I woke up!!"@,
    {
        "\nWooHoo... I woke up!!"
    }
}

} // verus!
