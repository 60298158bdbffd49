//! Properties of the executor that span several operations.

use crate::executor::{
    lemma_polled, lemma_popped, lemma_pushed, lemma_released, lemma_spawned, rank, runq_of,
    EpollWaker, ExecutorView, IoOutcome, PollStart, Priority, TaskRecord, BURST_LIMIT,
};
use crate::queue::QueueEntry;
use crate::queue::QueueKind;
use vstd::prelude::*;

verus! {

/// The runnable tasks served no later than a task of priority `p`: those in
/// the run queues of priority `p` and higher, in the order they will be taken.
pub open spec fn runnable_at_or_above(v: ExecutorView, p: Priority) -> Seq<usize> {
    match p {
        Priority::High => v.high,
        Priority::Normal => v.high + v.normal,
        Priority::Low => v.high + v.normal + v.low,
    }
}

/// The runnable tasks of priority lower than `p`, in the order they will be
/// taken.
pub open spec fn runnable_below(v: ExecutorView, p: Priority) -> Seq<usize> {
    match p {
        Priority::High => v.normal + v.low,
        Priority::Normal => v.low,
        Priority::Low => Seq::empty(),
    }
}

/// A task is linked on at most one queue, and at most once there.
pub proof fn lemma_queued_at_most_once(
    v: ExecutorView,
    k1: QueueKind,
    k2: QueueKind,
    i: int,
    j: int,
)
    requires
        v.wf(),
        0 <= i < v.queue(k1).len(),
        0 <= j < v.queue(k2).len(),
        v.queue(k1)[i] == v.queue(k2)[j],
    ensures
        k1 == k2,
        i == j,
{
    assert(v.location(v.queue(k1)[i]) == Some(k1));
    assert(v.location(v.queue(k2)[j]) == Some(k2));
    assert(v.queue(k1).no_duplicates());
}

/// Runnable tasks are taken in order of priority: along the run order, the
/// priority never rises.
pub proof fn lemma_run_order_by_priority(v: ExecutorView, i: int, j: int)
    requires
        v.wf(),
        0 <= i < j < v.run_order().len(),
    ensures
        rank(v.priority(v.run_order()[i])) <= rank(v.priority(v.run_order()[j])),
{
    let o = v.run_order();
    let h = v.high.len() as int;
    let n = v.normal.len() as int;
    assert forall|x: int| 0 <= x < o.len() implies rank(v.priority(#[trigger] o[x])) == (if x < h {
        0int
    } else if x < h + n {
        1
    } else {
        2
    }) by {
        if x < h {
            assert(o[x] == v.queue(QueueKind::High)[x]);
        } else if x < h + n {
            assert(o[x] == v.queue(QueueKind::Normal)[x - h]);
        } else {
            assert(o[x] == v.queue(QueueKind::Low)[x - h - n]);
        }
    }
    assert(rank(v.priority(o[i])) == (if i < h {
        0int
    } else if i < h + n {
        1
    } else {
        2
    }));
    assert(rank(v.priority(o[j])) == (if j < h {
        0int
    } else if j < h + n {
        1
    } else {
        2
    }));
}

/// Taking a task takes the first of the run order and leaves the rest of it in
/// order; the task is then on no queue.
pub proof fn lemma_pop_follows_run_order(v: ExecutorView)
    requires
        v.wf(),
    ensures
        v.run_order().len() == 0 ==> v.next_runnable() is None && v.popped() == v,
        v.run_order().len() > 0 ==> {
            &&& v.next_runnable() == Some(v.run_order()[0])
            &&& v.popped().run_order() == v.run_order().drop_first()
            &&& v.popped().location(v.run_order()[0]) is None
        },
        v.popped().wf(),
        v.popped().sleep == v.sleep,
{
    lemma_popped(v);
    let o = v.run_order();
    if v.high.len() > 0 {
        assert(o[0] == v.high[0]);
        assert(v.popped().run_order() =~= o.drop_first());
    } else if v.normal.len() > 0 {
        assert(o[0] == v.normal[0]);
        assert(v.popped().run_order() =~= o.drop_first());
    } else if v.low.len() > 0 {
        assert(o[0] == v.low[0]);
        assert(v.popped().run_order() =~= o.drop_first());
    } else {
        assert(o.len() == 0);
    }
}

/// A task that is woken, or that yields, is placed behind every runnable task
/// of its own or a higher priority and ahead of every task of a lower one: the
/// executor polls all tasks of equal or higher priority before it polls that
/// task again.
pub proof fn lemma_wake_runs_peers_first(v: ExecutorView, id: usize)
    requires
        v.wf(),
        id < v.tasks.len(),
        !v.tasks[id as int].completed,
        v.location(id) is None || v.location(id) == Some(QueueKind::Sleep),
    ensures
        v.enqueued(id).wf(),
        v.enqueued(id).run_order() == runnable_at_or_above(v, v.priority(id)) + seq![id]
            + runnable_below(v, v.priority(id)),
        runnable_at_or_above(v, v.priority(id)) + runnable_below(v, v.priority(id))
            == v.run_order(),
        forall|x: int|
            0 <= x < runnable_at_or_above(v, v.priority(id)).len() ==> rank(
                v.priority(#[trigger] runnable_at_or_above(v, v.priority(id))[x]),
            ) <= rank(v.priority(id)),
        forall|x: int|
            0 <= x < runnable_below(v, v.priority(id)).len() ==> rank(
                v.priority(#[trigger] runnable_below(v, v.priority(id))[x]),
            ) > rank(v.priority(id)),
{
    let p = v.priority(id);
    let k = runq_of(p);
    lemma_pushed(v, k, id);
    lemma_released(v, id);
    let w = v.enqueued(id);
    assert(w == v.pushed(k, id));
    assert(v.released(id).queue(QueueKind::High) == v.high);
    assert(v.released(id).queue(QueueKind::Normal) == v.normal);
    assert(v.released(id).queue(QueueKind::Low) == v.low);
    let a = runnable_at_or_above(v, p);
    let b = runnable_below(v, p);
    assert forall|x: int| 0 <= x < v.high.len() implies rank(v.priority(#[trigger] v.high[x]))
        == 0 by {
        assert(v.high[x] == v.queue(QueueKind::High)[x]);
    }
    assert forall|x: int| 0 <= x < v.normal.len() implies rank(v.priority(#[trigger] v.normal[x]))
        == 1 by {
        assert(v.normal[x] == v.queue(QueueKind::Normal)[x]);
    }
    assert forall|x: int| 0 <= x < v.low.len() implies rank(v.priority(#[trigger] v.low[x]))
        == 2 by {
        assert(v.low[x] == v.queue(QueueKind::Low)[x]);
    }
    match p {
        Priority::High => {
            assert(w.high == v.high.push(id));
            assert(w.run_order() =~= a + seq![id] + b);
            assert(a + b =~= v.run_order());
        },
        Priority::Normal => {
            assert(w.normal == v.normal.push(id));
            assert(w.run_order() =~= a + seq![id] + b);
            assert(a + b =~= v.run_order());
            assert forall|x: int| 0 <= x < a.len() implies rank(v.priority(#[trigger] a[x])) <= rank(
                p,
            ) by {
                if x < v.high.len() {
                    assert(a[x] == v.high[x]);
                } else {
                    assert(a[x] == v.normal[x - v.high.len()]);
                }
            }
        },
        Priority::Low => {
            assert(w.low == v.low.push(id));
            assert(w.run_order() =~= a + seq![id] + b);
            assert(a + b =~= v.run_order());
            assert forall|x: int| 0 <= x < a.len() implies rank(v.priority(#[trigger] a[x])) <= rank(
                p,
            ) by {
                if x < v.high.len() {
                    assert(a[x] == v.high[x]);
                } else if x < v.high.len() + v.normal.len() {
                    assert(a[x] == v.normal[x - v.high.len()]);
                } else {
                    assert(a[x] == v.low[x - v.high.len() - v.normal.len()]);
                }
            }
        },
    }
    if p == Priority::High {
        assert forall|x: int| 0 <= x < b.len() implies rank(v.priority(#[trigger] b[x])) > rank(p) by {
            if x < v.normal.len() {
                assert(b[x] == v.normal[x]);
            } else {
                assert(b[x] == v.low[x - v.normal.len()]);
            }
        }
    }
}

/// Once a task has completed, a wake-up that arrives for it later leaves the
/// executor unchanged: a completed task is never polled again through a wake.
pub proof fn lemma_completed_task_not_requeued(v: ExecutorView, id: usize, failed: bool)
    requires
        v.wf(),
        id < v.tasks.len(),
    ensures
        v.polled(id, true, failed).tasks[id as int].completed,
        v.polled(id, true, failed).location(id) is None,
        v.polled(id, true, failed).enqueued(id) == v.polled(id, true, failed),
        v.polled(id, true, failed).wf(),
{
    lemma_polled(v, id, true, failed);
}

/// The task handed out to run next has not completed: a completed task is on
/// no queue, even one that woke itself in the poll in which it completed.
pub proof fn lemma_runnable_not_completed(v: ExecutorView)
    requires
        v.wf(),
    ensures
        v.next_runnable() matches Some(id) ==> id < v.tasks.len() && !v.tasks[id as int].completed,
{
    if let Some(id) = v.next_runnable() {
        let k = if v.high.len() > 0 {
            QueueKind::High
        } else if v.normal.len() > 0 {
            QueueKind::Normal
        } else {
            QueueKind::Low
        };
        assert(v.queue(k)[0] == id);
        assert(v.location(id) == Some(k));
    }
}

/// An aborted task is on no queue: it is neither runnable nor sleeping.
pub proof fn lemma_aborted_task_unlinked(v: ExecutorView, id: usize)
    requires
        v.wf(),
        id < v.tasks.len(),
    ensures
        v.released(id).wf(),
        !v.released(id).run_order().contains(id),
        !v.released(id).sleep.contains(id),
{
    lemma_released(v, id);
    let r = v.released(id);
    assert(!r.queue(QueueKind::High).contains(id));
    assert(!r.queue(QueueKind::Normal).contains(id));
    assert(!r.queue(QueueKind::Low).contains(id));
    assert(!r.queue(QueueKind::Sleep).contains(id));
    if r.run_order().contains(id) {
        let x = choose|x: int| 0 <= x < r.run_order().len() && r.run_order()[x] == id;
        if x < r.high.len() {
            assert(r.high[x] == id);
        } else if x < r.high.len() + r.normal.len() {
            assert(r.normal[x - r.high.len()] == id);
        } else {
            assert(r.low[x - r.high.len() - r.normal.len()] == id);
        }
    }
}

/// Events that epoll reports a second time, before the descriptor returned
/// `EAGAIN`, wake nobody and change nothing.
pub proof fn lemma_repeated_event_ignored(w: EpollWaker, events: u32)
    ensures
        w.notified(events).1.notified(events) == (None::<usize>, w.notified(events).1),
{
    let e = w.events;
    assert((e | events) & events == events) by (bit_vector);
}

/// `w` after `n` polls in a row that each ran the I/O operation and handed its
/// result to the caller.
pub open spec fn ready_in_a_row(w: EpollWaker, n: nat) -> EpollWaker
    decreases n,
{
    if n == 0 {
        w
    } else {
        ready_in_a_row(w, (n - 1) as nat).io_done(IoOutcome::Complete, None).1
    }
}

/// A descriptor that keeps reporting readiness is served `BURST_LIMIT` times
/// in a row; the poll after that makes its task yield to the executor, so
/// other tasks get a turn.
pub proof fn lemma_burst_then_yield(w: EpollWaker, waker: Option<usize>)
    requires
        w.burst == 0,
        w.events != 0,
    ensures
        forall|n: nat|
            n < BURST_LIMIT ==> (#[trigger] ready_in_a_row(w, n)).poll_started(waker).0
                == PollStart::Call(w.events),
        ready_in_a_row(w, BURST_LIMIT as nat).poll_started(waker).0 == PollStart::Yield,
        ready_in_a_row(w, BURST_LIMIT as nat).poll_started(waker).1.burst == 0,
{
    assert forall|n: nat| n <= BURST_LIMIT implies (#[trigger] ready_in_a_row(w, n)).burst == n
        && ready_in_a_row(w, n).events == w.events by {
        lemma_ready_in_a_row(w, n);
    }
    assert(ready_in_a_row(w, BURST_LIMIT as nat).burst == BURST_LIMIT);
}

proof fn lemma_ready_in_a_row(w: EpollWaker, n: nat)
    requires
        w.burst == 0,
        n <= BURST_LIMIT,
    ensures
        ready_in_a_row(w, n).burst == n,
        ready_in_a_row(w, n).events == w.events,
    decreases n,
{
    if n > 0 {
        lemma_ready_in_a_row(w, (n - 1) as nat);
    }
}

/// Once the executor has been shut down it stays shut down: no scheduling step
/// clears the flag, so the run loop finishes as soon as it gets control back.
pub proof fn lemma_shutdown_is_final(
    v: ExecutorView,
    id: usize,
    k: QueueKind,
    p: Priority,
    checked: bool,
    ready: bool,
    failed: bool,
)
    requires
        v.shutdown,
    ensures
        v.released(id).shutdown,
        v.pushed(k, id).shutdown,
        v.enqueued(id).shutdown,
        v.slept(id).shutdown,
        v.popped().shutdown,
        v.spawned(p, checked).shutdown,
        v.polled(id, ready, failed).shutdown,
{
}

/// `a` and `b` are the same task apart from where it is queued: same priority,
/// same checked flag, same completion.
pub open spec fn same_task(a: TaskRecord, b: TaskRecord) -> bool {
    &&& a.priority == b.priority
    &&& a.checked == b.checked
    &&& a.completed == b.completed
}

/// Queueing steps move tasks between queues and change nothing else of any
/// task: unlinking a task only clears its queue entry, and linking, waking,
/// sleeping or taking a task keeps every task's priority, checked flag and
/// completion, and the shutdown flag.
pub proof fn lemma_queueing_keeps_tasks(v: ExecutorView, id: usize, k: QueueKind, t: usize)
    requires
        v.wf(),
        id < v.tasks.len(),
        t < v.tasks.len(),
    ensures
        v.released(id).tasks[id as int] == (TaskRecord {
            entry: QueueEntry { queued_on: None },
            ..v.tasks[id as int]
        }),
        v.released(id).tasks.len() == v.tasks.len(),
        same_task(v.released(id).tasks[t as int], v.tasks[t as int]),
        same_task(v.pushed(k, id).tasks[t as int], v.tasks[t as int]),
        same_task(v.enqueued(id).tasks[t as int], v.tasks[t as int]),
        same_task(v.slept(id).tasks[t as int], v.tasks[t as int]),
        same_task(v.popped().tasks[t as int], v.tasks[t as int]),
        v.released(id).shutdown == v.shutdown,
        v.pushed(k, id).shutdown == v.shutdown,
        v.enqueued(id).shutdown == v.shutdown,
        v.popped().shutdown == v.shutdown,
{
    lemma_popped(v);
}

/// Polling changes a task's record only by marking it completed when it
/// completed; the executor stops exactly when it was stopped already or a
/// checked task completed with an `Err`.
pub proof fn lemma_poll_outcome(v: ExecutorView, id: usize, ready: bool, failed: bool, t: usize)
    requires
        v.wf(),
        id < v.tasks.len(),
        t < v.tasks.len(),
    ensures
        v.polled(id, ready, failed).shutdown == (v.shutdown || (ready && failed
            && v.tasks[id as int].checked)),
        v.polled(id, ready, failed).tasks[t as int].priority == v.tasks[t as int].priority,
        v.polled(id, ready, failed).tasks[t as int].checked == v.tasks[t as int].checked,
        v.polled(id, ready, failed).tasks[t as int].completed == (v.tasks[t as int].completed || (
        ready && t == id)),
{
}

/// A task spawned checked stays checked through every queueing step, so when
/// it completes with an `Err` the executor stops, whatever happened to the task
/// before: here it is spawned, taken, put to sleep, woken and taken again.
pub proof fn lemma_checked_task_failure_stops(v: ExecutorView, p: Priority)
    requires
        v.wf(),
        v.tasks.len() < usize::MAX,
    ensures
        ({
            let id = v.tasks.len() as usize;
            let s = v.spawned(p, true);
            &&& s.tasks[id as int].checked
            &&& s.polled(id, true, true).shutdown
            &&& s.slept(id).enqueued(id).popped().tasks[id as int].checked
            &&& s.slept(id).enqueued(id).popped().polled(id, true, true).shutdown
        }),
{
    let id = v.tasks.len() as usize;
    lemma_spawned(v, p, true);
    let s = v.spawned(p, true);
    lemma_queueing_keeps_tasks(s, id, QueueKind::Sleep, id);
    lemma_pushed(s, QueueKind::Sleep, id);
    let a = s.slept(id);
    lemma_queueing_keeps_tasks(a, id, QueueKind::Sleep, id);
    lemma_pushed(a, runq_of(a.priority(id)), id);
    let b = a.enqueued(id);
    lemma_queueing_keeps_tasks(b, id, QueueKind::Sleep, id);
    lemma_popped(b);
    let c = b.popped();
    lemma_poll_outcome(c, id, true, true, id);
}

/// A pending poll leaves a task that is queued where it is (a task that
/// yielded requeued itself and stays runnable behind its peers); only a task
/// on no queue, and not completed, goes to the back of the sleep queue.
pub proof fn lemma_pending_poll(v: ExecutorView, id: usize, failed: bool)
    requires
        v.wf(),
        id < v.tasks.len(),
    ensures
        v.location(id) is Some || v.tasks[id as int].completed ==> v.polled(id, false, failed) == v,
        v.location(id) is None && !v.tasks[id as int].completed ==> {
            &&& v.polled(id, false, failed).location(id) == Some(QueueKind::Sleep)
            &&& v.polled(id, false, failed).sleep == v.sleep.push(id)
            &&& v.polled(id, false, failed).run_order() == v.run_order()
        },
{
    if v.location(id) is None && !v.tasks[id as int].completed {
        lemma_pushed(v, QueueKind::Sleep, id);
        lemma_released(v, id);
        let w = v.polled(id, false, failed);
        assert(v.released(id).queue(QueueKind::High) == v.high);
        assert(v.released(id).queue(QueueKind::Normal) == v.normal);
        assert(v.released(id).queue(QueueKind::Low) == v.low);
        assert(w.queue(QueueKind::High) == v.released(id).queue(QueueKind::High));
        assert(w.queue(QueueKind::Normal) == v.released(id).queue(QueueKind::Normal));
        assert(w.queue(QueueKind::Low) == v.released(id).queue(QueueKind::Low));
        assert(w.high == v.high);
        assert(w.normal == v.normal);
        assert(w.low == v.low);
    }
}

/// An epoll event wakes the waiting task exactly when it brings an event the
/// descriptor has not seen since its last `EAGAIN`, whatever the event is; the
/// events are then added to those seen. Events seen already change nothing.
pub proof fn lemma_event_wakes_on_new_events(w: EpollWaker, events: u32)
    ensures
        w.events & events != events ==> w.notified(events) == (
            w.waker,
            EpollWaker { events: w.events | events, ..w },
        ),
        w.events & events == events ==> w.notified(events) == (None::<usize>, w),
        w.notified(events).1.events & events == events,
        w.notified(events).1.waker == w.waker,
        w.notified(events).1.burst == w.burst,
{
    let e = w.events;
    assert((e | events) & events == events) by (bit_vector);
}

} // verus!
