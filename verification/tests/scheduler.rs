use epox::executor::{
    spawn, spawn_checked, spawn_checked_with_priority, spawn_with_priority, Executor, Priority,
    RunAction,
};
use epox::queue::{QueueEntry, QueueKind};

fn drain(e: &mut Executor) -> Vec<usize> {
    let mut order = Vec::new();
    while let Some(id) = e.highest_priority_runnable_task() {
        order.push(id);
    }
    order
}

#[test]
fn queue_entry_starts_unqueued() {
    let entry = QueueEntry::new();
    assert!(!entry.is_queued());
    assert_eq!(entry.queued_on, None);
    let linked = QueueEntry { queued_on: Some(QueueKind::Sleep) };
    assert!(linked.is_queued());
}

#[test]
fn push_moves_a_task_to_the_back_once() {
    let mut e = Executor::new();
    spawn(&mut e); // 0
    spawn(&mut e); // 1
    spawn(&mut e); // 2
    // pushing a task already on the queue moves it to the back, once
    e.push(QueueKind::Normal, 0);
    e.push(QueueKind::Normal, 0);
    assert_eq!(e.task(0).entry.queued_on, Some(QueueKind::Normal));
    // pushing it on another queue takes it off the first
    e.push(QueueKind::Sleep, 1);
    assert_eq!(e.task(1).entry.queued_on, Some(QueueKind::Sleep));
    assert!(!e.sleepq_is_empty());
    assert_eq!(drain(&mut e), vec![2, 0]);
    e.push(QueueKind::Normal, 1);
    assert!(e.sleepq_is_empty());
    assert_eq!(drain(&mut e), vec![1]);
}

#[test]
fn release_unlinks_from_any_queue() {
    let mut e = Executor::new();
    spawn(&mut e); // 0
    spawn_with_priority(&mut e, Priority::High); // 1
    e.sleep(0);
    e.release(0);
    assert!(e.sleepq_is_empty());
    assert!(!e.is_queued(0));
    e.release(1);
    assert!(!e.is_queued(1));
    e.release(1);
    assert_eq!(e.highest_priority_runnable_task(), None);
}

#[test]
fn new_executor_is_idle() {
    let mut e = Executor::new();
    assert_eq!(e.num_tasks(), 0);
    assert!(!e.is_shut_down());
    assert!(e.sleepq_is_empty());
    assert_eq!(e.event_slots(), 1);
    assert_eq!(e.highest_priority_runnable_task(), None);
    assert_eq!(e.run_next(), RunAction::Finish);
}

#[test]
fn spawn_assigns_fresh_ids_and_makes_tasks_runnable() {
    let mut e = Executor::new();
    let a = spawn(&mut e);
    let b = spawn_with_priority(&mut e, Priority::High);
    let c = spawn_checked(&mut e);
    let d = spawn_checked_with_priority(&mut e, Priority::Low);
    assert_eq!((a.task(), b.task(), c.task(), d.task()), (0, 1, 2, 3));
    assert_eq!(e.num_tasks(), 4);
    assert_eq!(e.task(0).priority, Priority::Normal);
    assert!(!e.task(0).checked);
    assert_eq!(e.task(1).priority, Priority::High);
    assert!(e.task(2).checked);
    assert_eq!(e.task(2).priority, Priority::Normal);
    assert_eq!(e.task(3).priority, Priority::Low);
    assert!(e.task(3).checked);
    for id in 0..4 {
        assert!(e.is_queued(id));
        assert!(!e.task(id).completed);
    }
    assert_eq!(e.task(1).entry.queued_on, Some(QueueKind::High));
}

#[test]
fn tasks_run_from_high_to_low_priority() {
    let mut e = Executor::new();
    spawn_with_priority(&mut e, Priority::Low); // 0
    spawn_with_priority(&mut e, Priority::Normal); // 1
    spawn_with_priority(&mut e, Priority::High); // 2
    spawn_with_priority(&mut e, Priority::Low); // 3
    spawn_with_priority(&mut e, Priority::High); // 4
    assert_eq!(drain(&mut e), vec![2, 4, 1, 0, 3]);
    for id in 0..5 {
        assert!(!e.is_queued(id));
    }
}

#[test]
fn yielding_task_runs_after_its_peers() {
    let mut e = Executor::new();
    spawn(&mut e); // 0
    spawn(&mut e); // 1
    spawn_with_priority(&mut e, Priority::Low); // 2
    spawn(&mut e); // 3
    let running = e.highest_priority_runnable_task();
    assert_eq!(running, Some(0));
    // the task yields: its waker puts it back at the end of its run queue
    e.enqueue(0);
    // still pending, but queued: it does not go to sleep
    assert_eq!(e.task_done(0, false, false), RunAction::CheckEvents);
    assert!(e.sleepq_is_empty());
    assert_eq!(drain(&mut e), vec![1, 3, 0, 2]);
}

#[test]
fn pending_task_sleeps_until_woken() {
    let mut e = Executor::new();
    spawn(&mut e);
    spawn(&mut e);
    assert_eq!(e.run_next(), RunAction::PollTask(0));
    assert_eq!(e.task_done(0, false, false), RunAction::CheckEvents);
    assert_eq!(e.task(0).entry.queued_on, Some(QueueKind::Sleep));
    assert!(!e.sleepq_is_empty());
    assert_eq!(e.run_next(), RunAction::PollTask(1));
    assert_eq!(e.task_done(1, true, false), RunAction::CheckEvents);
    assert_eq!(e.run_next(), RunAction::WaitForEvents);
    // an event wakes task 0: it moves from the sleep queue to its run queue
    e.enqueue(0);
    assert!(e.sleepq_is_empty());
    assert_eq!(e.task(0).entry.queued_on, Some(QueueKind::Normal));
    assert_eq!(e.run_next(), RunAction::PollTask(0));
    assert_eq!(e.task_done(0, true, false), RunAction::CheckEvents);
    assert_eq!(e.run_next(), RunAction::Finish);
}

#[test]
fn waking_twice_queues_once() {
    let mut e = Executor::new();
    spawn(&mut e);
    spawn(&mut e);
    e.enqueue(0);
    e.enqueue(0);
    assert_eq!(drain(&mut e), vec![1, 0]);
}

#[test]
fn wake_completed_task() {
    let mut e = Executor::new();
    spawn(&mut e);
    spawn(&mut e);
    assert_eq!(e.run_next(), RunAction::PollTask(0));
    e.task_done(0, true, false);
    assert!(e.task(0).completed);
    // a timer the task still held fires after it completed
    e.enqueue(0);
    assert!(!e.is_queued(0));
    assert_eq!(drain(&mut e), vec![1]);
}

#[test]
fn abort_task() {
    let mut e = Executor::new();
    let h = spawn(&mut e);
    spawn(&mut e);
    assert_eq!(e.run_next(), RunAction::PollTask(0));
    e.task_done(0, false, false);
    assert!(!e.sleepq_is_empty());
    h.abort(&mut e);
    assert!(e.sleepq_is_empty());
    assert!(!e.is_queued(0));
    assert_eq!(e.run_next(), RunAction::PollTask(1));
    e.task_done(1, true, false);
    assert_eq!(e.run_next(), RunAction::Finish);
}

#[test]
fn abort_unlinks_a_runnable_task() {
    let mut e = Executor::new();
    let h = spawn(&mut e);
    spawn(&mut e);
    e.abort(h.task());
    assert_eq!(drain(&mut e), vec![1]);
    // aborting again changes nothing
    e.abort(0);
    assert!(!e.is_queued(0));
}

#[test]
fn failing_checked_task_shuts_down() {
    let mut e = Executor::new();
    spawn_checked(&mut e);
    spawn(&mut e);
    assert_eq!(e.run_next(), RunAction::PollTask(0));
    assert_eq!(e.task_done(0, true, true), RunAction::Finish);
    assert!(e.is_shut_down());
}

#[test]
fn failing_unchecked_task_does_not_shut_down() {
    let mut e = Executor::new();
    spawn(&mut e);
    spawn_checked(&mut e);
    assert_eq!(e.run_next(), RunAction::PollTask(0));
    assert_eq!(e.task_done(0, true, true), RunAction::CheckEvents);
    assert_eq!(e.run_next(), RunAction::PollTask(1));
    assert_eq!(e.task_done(1, true, false), RunAction::CheckEvents);
    assert!(!e.is_shut_down());
    assert_eq!(e.run_next(), RunAction::Finish);
}

#[test]
fn shutdown() {
    // the shutdown scenario: one task shuts down while two others are pending
    let mut e = Executor::new();
    spawn(&mut e); // calls shutdown
    spawn(&mut e); // will complete
    spawn(&mut e); // will not complete
    for id in 0..3 {
        assert_eq!(e.run_next(), RunAction::PollTask(id));
        assert_eq!(e.task_done(id, false, false), RunAction::CheckEvents);
    }
    assert_eq!(e.run_next(), RunAction::WaitForEvents);
    e.enqueue(1);
    assert_eq!(e.run_next(), RunAction::PollTask(1));
    assert_eq!(e.task_done(1, true, false), RunAction::CheckEvents);
    e.enqueue(0);
    assert_eq!(e.run_next(), RunAction::PollTask(0));
    let s = epox::executor::shutdown();
    assert!(!s.poll(&mut e));
    assert_eq!(e.task_done(0, false, false), RunAction::Finish);
    assert!(e.task(1).completed);
    assert!(!e.task(2).completed);
    assert!(!e.task(0).completed);
}

#[test]
fn shutdown_executor_unchecked() {
    let mut e = Executor::new();
    spawn(&mut e);
    spawn(&mut e);
    assert_eq!(e.run_next(), RunAction::PollTask(0));
    epox::executor::shutdown_executor_unchecked(&mut e);
    assert_eq!(e.task_done(0, true, false), RunAction::Finish);
    assert!(e.task(0).completed);
    assert!(!e.task(1).completed);
}

#[test]
fn block_on_runs_tasks_or_waits() {
    let mut e = Executor::new();
    assert_eq!(e.block_on_next(), RunAction::WaitForEvents);
    spawn_with_priority(&mut e, Priority::Low);
    spawn(&mut e);
    assert_eq!(e.block_on_next(), RunAction::PollTask(1));
    e.task_polled(1, true, false);
    assert_eq!(e.block_on_next(), RunAction::PollTask(0));
    e.task_polled(0, false, false);
    assert_eq!(e.block_on_next(), RunAction::WaitForEvents);
}

#[test]
fn event_slots_follow_registrations() {
    let mut e = Executor::new();
    e.epoll_add();
    e.epoll_add();
    assert_eq!(e.event_slots(), 3);
    e.epoll_del();
    assert_eq!(e.event_slots(), 2);
    e.epoll_del();
    e.epoll_del();
    e.epoll_del();
    assert_eq!(e.event_slots(), 0);
}

#[test]
fn runq_by_priority() {
    assert_eq!(Executor::runq(Priority::High), QueueKind::High);
    assert_eq!(Executor::runq(Priority::Normal), QueueKind::Normal);
    assert_eq!(Executor::runq(Priority::Low), QueueKind::Low);
    assert!(Priority::High < Priority::Normal && Priority::Normal < Priority::Low);
}

#[test]
fn shutdown_stays_in_force() {
    let mut e = Executor::new();
    spawn(&mut e);
    spawn(&mut e);
    e.shutdown();
    spawn_with_priority(&mut e, Priority::High);
    e.enqueue(0);
    e.sleep(1);
    e.abort(1);
    assert_eq!(e.run_next(), RunAction::PollTask(2));
    assert_eq!(e.task_done(2, true, false), RunAction::Finish);
    assert!(e.is_shut_down());
}

#[test]
fn task_is_unreferenced_only_off_queue_idle_and_without_handle() {
    let mut e = Executor::new();
    spawn(&mut e);
    // queued: the run queue holds it
    assert!(!e.is_unreferenced(0, false, false));
    assert_eq!(e.run_next(), RunAction::PollTask(0));
    // being polled, or its handle still alive
    assert!(!e.is_unreferenced(0, true, false));
    assert!(!e.is_unreferenced(0, false, true));
    assert!(e.is_unreferenced(0, false, false));
    // asleep: the sleep queue holds it
    e.task_done(0, false, false);
    assert!(!e.is_unreferenced(0, false, false));
    e.abort(0);
    assert!(e.is_unreferenced(0, false, false));
}

#[test]
fn task_that_woke_itself_and_completed_is_not_run_again() {
    let mut e = Executor::new();
    spawn(&mut e);
    spawn(&mut e);
    assert_eq!(e.run_next(), RunAction::PollTask(0));
    // during its last poll the task wakes itself, then returns ready
    e.enqueue(0);
    assert!(e.is_queued(0));
    assert_eq!(e.task_done(0, true, false), RunAction::CheckEvents);
    assert!(!e.is_queued(0));
    assert_eq!(e.run_next(), RunAction::PollTask(1));
    assert_eq!(e.task_done(1, true, false), RunAction::CheckEvents);
    assert_eq!(e.run_next(), RunAction::Finish);
}
