use std::cell::RefCell;
use std::future::Future;
use std::rc::Rc;
use std::pin::Pin;
use std::sync::{Arc, Mutex};
use std::task::{Context, Poll as TaskPoll, Wake, Waker};
use std::time::Duration;

use futures::executor::{block_on, LocalPool};
use futures::future::join;
use futures::task::LocalSpawnExt;

use async_test::countdown::{an_async_fn, my_async_fn, CountdownPoll, MyFuture};
use async_test::myfuture::myexecutor::{MyExecutor, Recv};
use async_test::myfuture::{MyTimer, TimerPoll};
use async_test::simple_executor::SimpleExecutor;
use async_test::task::CountdownTask;

/// Runs the library's countdown as a std future, asking to be polled again
/// whenever it is pending.
struct Countdown(MyFuture);

impl Future for Countdown {
    type Output = i32;
    fn poll(mut self: Pin<&mut Self>, cx: &mut Context<'_>) -> TaskPoll<i32> {
        match self.0.poll() {
            CountdownPoll::Ready(n) => TaskPoll::Ready(n),
            CountdownPoll::WakeAndPending => {
                cx.waker().wake_by_ref();
                TaskPoll::Pending
            }
        }
    }
}

fn countdown(i: i32) -> Countdown {
    Countdown(my_async_fn(i))
}

async fn an_async(i: i32) -> i32 {
    an_async_fn(i)
}

#[test]
fn test_manually_poll_future() {
    struct MyWake;
    impl Wake for MyWake {
        fn wake(self: Arc<Self>) {}
        fn wake_by_ref(self: &Arc<Self>) {}
    }

    let mut f = countdown(5);
    let wk = Waker::from(Arc::new(MyWake));
    let mut ctx = Context::from_waker(&wk);

    let mut polls = 0;
    let n = loop {
        polls += 1;
        match Pin::new(&mut f).poll(&mut ctx) {
            TaskPoll::Pending => {}
            TaskPoll::Ready(n) => break n,
        }
    };
    assert_eq!(n, 0);
    assert_eq!(polls, 6);
}

#[test]
fn test_simple_task_waker() {
    let mut t = CountdownTask::new(0, vec![5]);
    let mut pending = 0;
    let n = loop {
        match t.poll() {
            CountdownPoll::WakeAndPending => pending += 1,
            CountdownPoll::Ready(n) => break n,
        }
    };
    assert_eq!(n, 0);
    assert_eq!(pending, 5);
    assert_eq!(t.id(), 0);
}

#[test]
fn test_simple_executor() {
    let mut exec = SimpleExecutor::new();
    let a = exec.spawn(vec![10]);
    let b = exec.spawn(vec![5, 3, 1]);
    assert_eq!((a, b), (0, 1));
    let order = exec.run();
    // the second task has nine pending polls, the first ten
    assert_eq!(order, vec![1, 0]);
}

#[test]
fn test_join_up_futures() {

    let f1 = countdown(10);
    let f2 = an_async(5);
    let f3 = countdown(5);
    let out = block_on(join(f1, join(f2, f3)));
    assert_eq!(out, (0, (6, 0)));
}

#[test]
fn test_run_future_on_local_pool() {

    let seen = Rc::new(RefCell::new(Vec::new()));
    let log = seen.clone();
    let mut pool = LocalPool::new();
    pool.spawner()
        .spawn_local(async move {
            log.borrow_mut().push(countdown(10).await);
            log.borrow_mut().push(countdown(5).await);
            log.borrow_mut().push(an_async(5).await);
        })
        .expect("");
    pool.run();
    assert_eq!(*seen.borrow(), vec![0, 0, 6]);
}

#[test]
fn test_block_on_future_with_async() {
    let root = async {
        countdown(10).await;
        countdown(5).await;
        an_async(5).await;
    };
    let out = block_on(root);
    assert_eq!(out, ());
}

#[test]
fn test_block_on_future() {
    let f1 = countdown(5);
    let out = block_on(f1);
    assert_eq!(out, 0);
}

/// The channel executor and the watched timer, driven on a virtual clock:
/// a watcher that was asked for lapses its timer when the run loop would
/// otherwise wait.
#[test]
fn test_future_callback() {
    enum Job {
        Timer(MyTimer),
        TimerThen(MyTimer, Vec<i32>, Option<MyFuture>),
        Countdown(MyFuture),
        Ready(i32),
    }

    let mut jobs: Vec<Option<Job>> = Vec::new();
    let mut exec: MyExecutor<usize> = MyExecutor::init();

    for i in 1..2u64 {
        jobs.push(Some(Job::Timer(MyTimer::start(Duration::from_millis(i * 1000)))));
    }
    jobs.push(Some(Job::TimerThen(MyTimer::start(Duration::from_millis(3000)), vec![5, 10], None)));
    jobs.push(Some(Job::Countdown(my_async_fn(3))));
    jobs.push(Some(Job::Ready(an_async_fn(1))));
    for id in 0..jobs.len() {
        assert!(exec.is_spawner_open());
        assert!(exec.spawn(id).is_ok());
    }

    // watchers asked for: (deadline, job)
    let mut watchers: Vec<(Duration, usize)> = Vec::new();
    let mut finished: Vec<(usize, Option<i32>)> = Vec::new();

    exec.drop_spawner();
    loop {
        match exec.recv() {
            Recv::Closed => break,
            Recv::Wait => {
                // the earliest watcher's deadline passes
                watchers.sort();
                let (_, id) = watchers.remove(0);
                match jobs[id].as_mut().unwrap() {
                    Job::Timer(t) | Job::TimerThen(t, _, _) => t.lapse(),
                    _ => unreachable!(),
                }
                assert!(exec.schedule(id).is_ok());
            }
            Recv::Task(id) => {
                let job = jobs[id].as_mut().unwrap();
                let outcome: Option<Option<i32>> = match job {
                    Job::Timer(t) => match t.poll() {
                        TimerPoll::Ready(_) => Some(None),
                        TimerPoll::StartWatcher(d) => {
                            watchers.push((d, id));
                            None
                        }
                        TimerPoll::Pending => None,
                    },
                    Job::TimerThen(t, stages, current) => match t.poll() {
                        TimerPoll::StartWatcher(d) => {
                            watchers.push((d, id));
                            None
                        }
                        TimerPoll::Pending => None,
                        TimerPoll::Ready(_) => {
                            let mut last = None;
                            loop {
                                if current.is_none() {
                                    if stages.is_empty() {
                                        break Some(last);
                                    }
                                    *current = Some(my_async_fn(stages.remove(0)));
                                }
                                match current.as_mut().unwrap().poll() {
                                    CountdownPoll::Ready(n) => {
                                        last = Some(n);
                                        *current = None;
                                    }
                                    CountdownPoll::WakeAndPending => {
                                        assert!(exec.schedule(id).is_ok());
                                        break None;
                                    }
                                }
                            }
                        }
                    },
                    Job::Countdown(f) => match f.poll() {
                        CountdownPoll::Ready(n) => Some(Some(n)),
                        CountdownPoll::WakeAndPending => {
                            assert!(exec.schedule(id).is_ok());
                            None
                        }
                    },
                    Job::Ready(n) => Some(Some(*n)),
                };
                if let Some(value) = outcome {
                    finished.push((id, value));
                    jobs[id] = None;
                    assert!(exec.live_tasks() > 0);
                    exec.task_dropped();
                }
            }
        }
    }
    assert!(jobs.iter().all(|j| j.is_none()));
    assert_eq!(finished.len(), 4);
    assert!(finished.contains(&(3, Some(2))));
    assert!(finished.contains(&(2, Some(0))));
    assert!(finished.contains(&(1, Some(0))));
    assert!(finished.contains(&(0, None)));
    assert!(watchers.is_empty());
}
