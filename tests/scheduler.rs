use jlrs_sched::pool::StackPool;
use jlrs_sched::runtime::{check_startup, count_or_parallelism, Action, MessageInner, Scheduler};
use jlrs_sched::error::JlrsError;

#[test]
fn one_task_more_than_slots_waits() {
    let mut s = Scheduler::new(2);
    assert_eq!(s.handle(MessageInner::Task(10).wrap()), Action::Start { task: 10, slot: 0 });
    assert_eq!(s.handle(MessageInner::Task(11).wrap()), Action::Start { task: 11, slot: 1 });
    assert_eq!(s.handle(MessageInner::Task(12).wrap()), Action::Queued { task: 12 });
    assert_eq!(s.n_pending(), 1);
    assert_eq!(s.n_running(), 2);
    assert_eq!(s.handle(MessageInner::Complete(1).wrap()), Action::Start { task: 12, slot: 1 });
    assert_eq!(s.n_pending(), 0);
    assert_eq!(s.n_running(), 2);
    assert_eq!(s.task_on(1), Some(12));
}

#[test]
fn freed_slot_returns_to_the_front_of_the_pool() {
    let mut s = Scheduler::new(3);
    assert_eq!(s.handle(MessageInner::Task(1).wrap()), Action::Start { task: 1, slot: 0 });
    assert_eq!(s.handle(MessageInner::Task(2).wrap()), Action::Start { task: 2, slot: 1 });
    assert_eq!(s.handle(MessageInner::Complete(0).wrap()), Action::Released { slot: 0 });
    assert_eq!(s.n_running(), 1);
    assert_eq!(s.handle(MessageInner::Task(3).wrap()), Action::Start { task: 3, slot: 0 });
    assert_eq!(s.running_tasks(), vec![3, 2]);
}

#[test]
fn waiting_tasks_start_in_submission_order() {
    let mut s = Scheduler::new(1);
    assert_eq!(s.handle(MessageInner::Task(1).wrap()), Action::Start { task: 1, slot: 0 });
    assert_eq!(s.handle(MessageInner::Task(2).wrap()), Action::Queued { task: 2 });
    assert_eq!(s.handle(MessageInner::Task(3).wrap()), Action::Queued { task: 3 });
    assert_eq!(s.handle(MessageInner::Complete(0).wrap()), Action::Start { task: 2, slot: 0 });
    assert_eq!(s.handle(MessageInner::Complete(0).wrap()), Action::Start { task: 3, slot: 0 });
    assert_eq!(s.handle(MessageInner::Complete(0).wrap()), Action::Released { slot: 0 });
    assert_eq!(s.running_tasks(), Vec::<u64>::new());
}

#[test]
fn stray_completion_is_ignored() {
    let mut s = Scheduler::new(2);
    assert_eq!(s.handle(MessageInner::Complete(0).wrap()), Action::Ignored);
    assert_eq!(s.handle(MessageInner::Complete(7).wrap()), Action::Ignored);
    assert_eq!(s.n_running(), 0);
}

#[test]
fn inline_messages_leave_slots_alone() {
    let mut s = Scheduler::new(1);
    assert_eq!(s.handle(MessageInner::Task(1).wrap()), Action::Start { task: 1, slot: 0 });
    assert_eq!(s.handle(MessageInner::BlockingTask(5).wrap()), Action::RunBlocking { ticket: 5 });
    assert_eq!(s.handle(MessageInner::Include(6).wrap()), Action::Include { ticket: 6 });
    assert_eq!(
        s.handle(MessageInner::ErrorColor(true, 7).wrap()),
        Action::SetErrorColor { enable: true, ticket: 7 }
    );
    assert_eq!(s.n_running(), 1);
    assert_eq!(s.n_pending(), 0);
}

#[test]
fn zero_slots_means_one() {
    let mut s = Scheduler::new(0);
    assert_eq!(s.n_slots(), 1);
    assert_eq!(s.handle(MessageInner::Task(4).wrap()), Action::Start { task: 4, slot: 0 });
}

#[test]
fn wait_is_unbounded_only_when_idle() {
    let mut s = Scheduler::new(2);
    assert_eq!(s.wait_time_ms(50), u32::MAX as u64);
    s.handle(MessageInner::Task(1).wrap());
    assert_eq!(s.wait_time_ms(50), 50);
    s.handle(MessageInner::Complete(0).wrap());
    assert_eq!(s.wait_time_ms(50), u32::MAX as u64);
}

#[test]
fn pool_lends_in_order_and_never_waits() {
    let mut p = StackPool::new(2);
    assert_eq!(p.capacity(), 2);
    assert_eq!(p.acquire(), Some(0));
    assert_eq!(p.acquire(), Some(1));
    assert_eq!(p.acquire(), None);
    p.release(1);
    assert_eq!(p.n_free(), 1);
    assert_eq!(p.acquire(), Some(1));
}

#[test]
fn startup_checks() {
    assert_eq!(check_startup(true, 8), Err(JlrsError::AlreadyInitialized));
    assert_eq!(check_startup(false, 2), Err(JlrsError::MoreThreadsRequired));
    assert_eq!(check_startup(false, 3), Ok(()));
}

#[test]
fn configured_count_or_cpus() {
    assert_eq!(count_or_parallelism(5), 5);
    assert!(count_or_parallelism(0) >= 1);
}
