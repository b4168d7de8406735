use std::sync::Arc;
use std::task::{Wake, Waker};
use std::time::Duration;

use async_test::countdown::{an_async_fn, my_async_fn, CountdownPoll};
use async_test::delays::{draw_delays, random_delay};
use async_test::fizzbuzz::{buzz_at, fizz_at, fizzbuzz};
use async_test::myfuture::myexecutor::{MyExecutor, Recv, QUEUE_CAPACITY};
use async_test::myfuture::{MyTimer, TimerPoll};
use async_test::mywaker::MyWaker;
use async_test::philosophers::{fork_pair, lock_order, meal_millis, meal_millis_for, thought};
use async_test::simple_executor::SimpleExecutor;
use async_test::task::CountdownTask;
use async_test::TimeFuture;

#[test]
fn countdown_reports_pending_then_zero() {
    let mut f = my_async_fn(3);
    let mut outcomes = Vec::new();
    for _ in 0..5 {
        outcomes.push(f.poll().is_pending());
    }
    assert_eq!(outcomes, vec![true, true, true, false, false]);
    assert_eq!(f.0, 0);
    assert!(matches!(f.poll(), CountdownPoll::Ready(0)));
}

#[test]
fn countdown_below_zero_keeps_counting_down() {
    let mut f = my_async_fn(-2);
    assert!(f.poll().is_pending());
    assert_eq!(f.0, -3);
}

#[test]
fn an_async_fn_adds_one() {
    assert_eq!(an_async_fn(1), 2);
    assert_eq!(an_async_fn(-1), 0);
}

#[test]
fn task_runs_its_stages_in_turn() {
    let mut t = CountdownTask::new(7, vec![2, 0, 1]);
    let mut pending = 0;
    while t.poll().is_pending() {
        pending += 1;
    }
    assert_eq!(pending, 3);
    assert_eq!(t.id(), 7);
    assert!(matches!(t.poll(), CountdownPoll::Ready(0)));
}

#[test]
fn empty_task_is_ready_at_once() {
    let mut t = CountdownTask::new(0, vec![]);
    assert!(matches!(t.poll(), CountdownPoll::Ready(0)));
}

#[test]
fn round_robin_finishes_fewest_polls_first_and_keeps_ties_in_order() {
    let mut exec = SimpleExecutor::new();
    exec.spawn(vec![3]);
    exec.spawn(vec![1]);
    exec.spawn(vec![0]);
    exec.spawn(vec![1, 0]);
    exec.spawn(vec![2, 1]);
    assert_eq!(exec.run(), vec![2, 1, 3, 0, 4]);
    assert_eq!(exec.run(), Vec::<usize>::new());
}

#[test]
fn timer_starts_one_watcher_and_then_is_ready() {
    let d = Duration::from_secs(4);
    let mut t = MyTimer::start(d);
    assert!(matches!(t.poll(), TimerPoll::StartWatcher(x) if x == d));
    assert!(matches!(t.poll(), TimerPoll::Pending));
    assert!(matches!(t.poll(), TimerPoll::Pending));
    t.lapse();
    assert!(matches!(t.poll(), TimerPoll::Ready(x) if x == d));
    assert!(matches!(t.poll(), TimerPoll::Ready(x) if x == d));
}

#[test]
fn timer_lapsed_before_polled_is_ready_without_watcher() {
    let mut t = MyTimer::start(Duration::from_millis(10));
    t.lapse();
    assert!(matches!(t.poll(), TimerPoll::Ready(_)));
    assert!(!t.watcher_started);
}

struct Counter(std::sync::atomic::AtomicUsize);

impl Wake for Counter {
    fn wake(self: Arc<Self>) {
        self.0.fetch_add(1, std::sync::atomic::Ordering::SeqCst);
    }
}

#[test]
fn time_future_wakes_the_last_poller_once() {
    let first = Arc::new(Counter(Default::default()));
    let second = Arc::new(Counter(Default::default()));
    let mut f = TimeFuture::new(Duration::from_secs(1));
    assert!(f.poll(Waker::from(first.clone())).is_pending());
    assert!(f.poll(Waker::from(second.clone())).is_pending());
    let w = f.complete().expect("a waker was kept");
    w.wake();
    assert_eq!(first.0.load(std::sync::atomic::Ordering::SeqCst), 0);
    assert_eq!(second.0.load(std::sync::atomic::Ordering::SeqCst), 1);
    assert!(f.complete().is_none());
    assert!(!f.poll(Waker::from(first.clone())).is_pending());
    assert!(f.waker.is_none());
}

#[test]
fn time_future_completed_before_any_poll_wakes_nobody() {
    let mut f = TimeFuture::new(Duration::from_secs(2));
    assert!(f.complete().is_none());
    assert!(f.completed);
    assert_eq!(f.duration, Duration::from_secs(2));
}

#[test]
fn executor_hands_out_tasks_first_in_first_out() {
    let mut e: MyExecutor<char> = MyExecutor::init();
    assert!(e.spawn('a').is_ok());
    assert!(e.spawn('b').is_ok());
    assert!(e.schedule('a').is_ok());
    assert!(matches!(e.recv(), Recv::Task('a')));
    assert!(matches!(e.recv(), Recv::Task('b')));
    assert!(matches!(e.recv(), Recv::Task('a')));
    assert!(matches!(e.recv(), Recv::Wait));
}

#[test]
fn executor_closes_only_when_spawner_dropped_and_tasks_done() {
    let mut e: MyExecutor<u8> = MyExecutor::init();
    assert!(matches!(e.recv(), Recv::Wait));
    assert!(e.spawn(1).is_ok());
    e.drop_spawner();
    assert!(!e.is_spawner_open());
    assert!(matches!(e.recv(), Recv::Task(1)));
    assert!(matches!(e.recv(), Recv::Wait));
    assert_eq!(e.live_tasks(), 1);
    e.task_dropped();
    assert!(matches!(e.recv(), Recv::Closed));
    assert!(matches!(e.recv(), Recv::Closed));
}

#[test]
fn executor_refuses_a_send_into_a_full_queue() {
    let mut e: MyExecutor<usize> = MyExecutor::init();
    for i in 0..QUEUE_CAPACITY {
        assert!(e.spawn(i).is_ok());
    }
    assert!(e.is_full());
    assert_eq!(e.spawn(5000), Err(5000));
    assert_eq!(e.schedule(6000), Err(6000));
    assert_eq!(e.live_tasks(), QUEUE_CAPACITY);
    assert!(matches!(e.recv(), Recv::Task(0)));
    assert!(!e.is_full());
}

#[test]
fn fizzbuzz_over_a_hundred() {
    let r = fizzbuzz(100);
    let ks: Vec<usize> = r.iter().map(|p| p.0).collect();
    assert_eq!(ks, vec![14, 29, 44, 59, 74, 89]);
    for p in &r {
        assert_eq!(p.1, (Some("fizz"), Some("buzz")));
    }
    assert_eq!(fizz_at(2), Some("fizz"));
    assert_eq!(fizz_at(3), None);
    assert_eq!(buzz_at(4), Some("buzz"));
    assert_eq!(buzz_at(5), None);
    assert!(fizzbuzz(14).is_empty());
}

#[test]
fn forks_around_the_table() {
    assert_eq!(fork_pair(0, 7), (0, 1));
    assert_eq!(fork_pair(6, 7), (6, 0));
    for i in 0..7 {
        assert_eq!(fork_pair(i, 7).1, fork_pair((i + 1) % 7, 7).0);
    }
}

#[test]
fn thought_names_the_philosopher() {
    assert_eq!(thought("Plato"), "Eureka! Plato has a new idea!");
}

#[test]
fn delays_are_in_range() {
    let ds = draw_delays(200, 1, 10);
    assert_eq!(ds.len(), 200);
    assert!(ds.iter().all(|d| (1..=10).contains(d)));
    assert!(ds.iter().any(|d| *d != 1));
    assert_eq!(random_delay(3, 3), 3);
    for _ in 0..50 {
        let m = meal_millis();
        assert!((100..=900).contains(&m) && m % 100 == 0);
    }
}

#[test]
fn waker_announces_itself() {
    assert_eq!(MyWaker.wake_message(), "\nWooHoo... I woke up!!");
}

#[test]
fn meal_length_is_tenths_of_a_second() {
    assert_eq!(meal_millis_for(3), 300);
    assert_eq!(meal_millis_for(9), 900);
}

#[test]
fn forks_are_picked_up_lower_number_first() {
    assert_eq!(lock_order(2, 7), (2, 3));
    assert_eq!(lock_order(6, 7), (0, 6));
    for i in 0..7 {
        let (a, b) = lock_order(i, 7);
        assert!(a < b);
    }
}

#[test]
fn spawned_tasks_run_in_spawn_order() {
    let mut e: MyExecutor<u32> = MyExecutor::init();
    for t in [7, 3, 9] {
        assert!(e.spawn(t).is_ok());
    }
    assert_eq!(e.live_tasks(), 3);
    e.drop_spawner();
    let mut seen = Vec::new();
    while let Recv::Task(t) = e.recv() {
        seen.push(t);
    }
    assert_eq!(seen, vec![7, 3, 9]);
    for _ in 0..3 {
        e.task_dropped();
    }
    assert!(matches!(e.recv(), Recv::Closed));
}
