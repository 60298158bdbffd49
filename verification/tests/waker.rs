use epox::executor::{spawn, Executor};
use epox::executor::{wake, EpollWaker, IoOutcome, PollStart, PollStep, WakeAction, BURST_LIMIT};
use epox::fd::{add_nonblock, nonblocking_flags, register, EPOLLET, EPOLLIN, EPOLLOUT};
use epox::signal::{check_signal_set, SignalSetError};
use epox::task::{YieldFuture, YieldStep};
use epox::yield_task::yield_now;

#[test]
fn new_waker_assumes_readiness() {
    let w = EpollWaker::new(EPOLLIN);
    assert_eq!(w, EpollWaker { waker: None, events: 1, burst: 0 });
}

#[test]
fn poll_without_events_waits_and_keeps_waker() {
    let mut w = EpollWaker::new(0);
    assert_eq!(w.poll_with(Some(7)), PollStart::Pending);
    assert_eq!(w, EpollWaker { waker: Some(7), events: 0, burst: 0 });
}

#[test]
fn io_outcomes() {
    let mut w = EpollWaker::new(EPOLLIN | EPOLLOUT);
    assert_eq!(w.poll_with(Some(2)), PollStart::Call(5));
    assert_eq!(w.io_result(IoOutcome::Interrupted, Some(2)), PollStep::Retry(5));
    assert_eq!(w.io_result(IoOutcome::Complete, Some(2)), PollStep::Ready);
    assert_eq!(w.burst, 1);
    assert_eq!(w.poll_with(Some(2)), PollStart::Call(5));
    assert_eq!(w.io_result(IoOutcome::WouldBlock, Some(2)), PollStep::Pending);
    assert_eq!(w, EpollWaker { waker: Some(2), events: 0, burst: 0 });
    assert_eq!(w.poll_with(Some(3)), PollStart::Pending);
    assert_eq!(w.waker, Some(3));
}

#[test]
fn burst_limit_forces_a_yield() {
    let mut w = EpollWaker::new(EPOLLIN);
    for _ in 0..BURST_LIMIT {
        assert_eq!(w.poll_with(Some(0)), PollStart::Call(1));
        assert_eq!(w.io_result(IoOutcome::Complete, Some(0)), PollStep::Ready);
    }
    assert_eq!(w.burst, 20);
    assert_eq!(w.poll_with(Some(0)), PollStart::Yield);
    assert_eq!(w.burst, 0);
    assert_eq!(w.poll_with(Some(0)), PollStart::Call(1));
}

#[test]
fn repeated_events_wake_once() {
    let mut w = EpollWaker::new(0);
    assert_eq!(w.poll_with(Some(4)), PollStart::Pending);
    assert_eq!(w.notify(EPOLLIN), Some(4));
    assert_eq!(w.events, 1);
    assert_eq!(w.notify(EPOLLIN), None);
    assert_eq!(w.notify(EPOLLOUT), Some(4));
    assert_eq!(w.events, 5);
    assert_eq!(w.notify(EPOLLIN | EPOLLOUT), None);
}

#[test]
fn event_for_foreign_waker_wakes_no_task() {
    let mut w = EpollWaker::new(0);
    assert_eq!(w.poll_with(None), PollStart::Pending);
    assert_eq!(w.notify(EPOLLIN), None);
    assert_eq!(w.events, 1);
}

#[test]
fn wake_decisions() {
    assert_eq!(wake(true, false), WakeAction::Enqueue);
    assert_eq!(wake(true, true), WakeAction::CheckEventsThenEnqueue);
    assert_eq!(wake(false, false), WakeAction::SendToOwner);
    assert_eq!(wake(false, true), WakeAction::SendToOwner);
}

#[test]
fn events_wake_live_tasks_only() {
    let mut e = Executor::new();
    spawn(&mut e);
    assert_eq!(e.highest_priority_runnable_task(), Some(0));
    e.sleep(0);
    let mut w = EpollWaker::new(0);
    assert_eq!(w.poll_with(Some(0)), PollStart::Pending);
    // the task has been dropped: the events are recorded, nobody is woken
    e.on_event(&mut w, EPOLLIN, false);
    assert_eq!(w.events, 1);
    assert!(!e.sleepq_is_empty());
    // new events for a live task make it runnable
    e.on_event(&mut w, EPOLLOUT, true);
    assert_eq!(w.events, 5);
    assert!(e.sleepq_is_empty());
    assert_eq!(e.highest_priority_runnable_task(), Some(0));
    // repeated events change nothing
    e.sleep(0);
    e.on_event(&mut w, EPOLLIN, true);
    assert!(!e.sleepq_is_empty());
    // a waker id that names no task is ignored
    let mut w = EpollWaker::new(0);
    assert_eq!(w.poll_with(Some(9)), PollStart::Pending);
    e.on_event(&mut w, EPOLLIN, true);
    assert_eq!(w.events, 1);
    assert!(!e.sleepq_is_empty());
}

#[test]
fn yield_future_yields_once() {
    let mut f = YieldFuture::new();
    assert_eq!(f.poll(), YieldStep::WakeThenPending);
    assert_eq!(f.poll(), YieldStep::Ready);
    assert_eq!(f.poll(), YieldStep::Ready);
}

#[test]
fn async_yield_yields_once() {
    let mut f = yield_now();
    assert_eq!(f.poll(), YieldStep::WakeThenPending);
    assert_eq!(f.poll(), YieldStep::Ready);
}

#[test]
fn registration_is_edge_triggered() {
    let r = register(EPOLLIN);
    assert_eq!(r.waker, EpollWaker { waker: None, events: 1, burst: 0 });
    assert_eq!(r.epoll_events, 0x8000_0001);
    let r = register(EPOLLOUT | EPOLLET);
    assert_eq!(r.waker.events, 4);
    assert_eq!(r.epoll_events, 0x8000_0004);
    // EPOLLPRI is registered but not assumed ready
    let r = register(0x2);
    assert_eq!(r.waker.events, 0);
    assert_eq!(r.epoll_events, 0x8000_0002);
}

#[test]
fn descriptors_are_made_nonblocking() {
    // O_NONBLOCK is 0x800 on x86-64 Linux
    assert_eq!(nonblocking_flags(0x2), 0x802);
    assert_eq!(nonblocking_flags(0x802), 0x802);
    assert_eq!(nonblocking_flags(0), 0x800);
    assert_eq!(add_nonblock(0x2, 0x800), 0x802);
    assert_eq!(add_nonblock(0x802, 0x800), 0x802);
    assert_eq!(add_nonblock(0x2, 0x80), 0x82);
}

#[test]
fn signal_set_checks() {
    // SIGINT is 2, SIGTERM is 15
    let sigint: u64 = 1 << 1;
    let sigterm: u64 = 1 << 14;
    assert_eq!(check_signal_set(0, 0), Err(SignalSetError::Empty));
    assert_eq!(check_signal_set(0, u64::MAX), Err(SignalSetError::Empty));
    assert_eq!(check_signal_set(sigint | sigterm, 0), Ok(()));
    assert_eq!(check_signal_set(sigint | sigterm, sigterm), Err(SignalSetError::Blocked));
    assert_eq!(check_signal_set(sigint, sigterm), Ok(()));
    assert_eq!(check_signal_set(1 << 30, 1 << 30), Err(SignalSetError::Blocked));
    assert_eq!(check_signal_set(1 << 63, 1 << 63), Err(SignalSetError::Blocked));
    assert_eq!(check_signal_set(1 << 63, !(1u64 << 63)), Ok(()));
}
