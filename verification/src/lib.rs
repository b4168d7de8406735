//! Verified cores of a small collection of hand-written futures, wakers and
//! executors: when a future is ready, when its task must be woken, when a
//! timer thread must be started, which task an executor runs next and when
//! it stops are written here as plain state machines with contracts.
//! Threads, channels, mutexes, the `Future` trait, the calls on wakers and
//! the demos' printing live in the application around this library.

pub mod countdown;
pub mod delays;
pub mod fizzbuzz;
pub mod myfuture;
pub mod mywaker;
pub mod philosophers;
pub mod poll;
pub mod simple_executor;
pub mod task;
pub mod timefuture;

pub use timefuture::TimeFuture;
