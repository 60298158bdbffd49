use crate::queue::{
    lemma_without_absent, lemma_without_contains, without, Queue, QueueEntry, QueueKind,
};
use crate::task::Handle;
use vstd::prelude::*;

verus! {

/// Task priority.
///
/// Tasks are run from high to low priority.
#[derive(Clone, Copy, Debug, PartialEq, Eq, Hash, PartialOrd, Ord, Structural)]
pub enum Priority {
    High,
    Normal,
    Low,
}

/// The run queue that holds runnable tasks of priority `p`.
pub open spec fn runq_of(p: Priority) -> QueueKind {
    match p {
        Priority::High => QueueKind::High,
        Priority::Normal => QueueKind::Normal,
        Priority::Low => QueueKind::Low,
    }
}

/// Position of a priority in the order in which run queues are served:
/// lower runs first.
pub open spec fn rank(p: Priority) -> int {
    match p {
        Priority::High => 0,
        Priority::Normal => 1,
        Priority::Low => 2,
    }
}

/// What the executor keeps of a task besides its future.
#[derive(Clone, Copy, Debug, PartialEq, Eq, Structural)]
pub struct TaskRecord {
    pub priority: Priority,
    /// Spawned with `spawn_checked*`: an `Err` result stops the executor.
    pub checked: bool,
    /// The task's future has returned `Ready`; it is never queued to run again.
    pub completed: bool,
    pub entry: QueueEntry,
}

/// The abstract state of an executor: its four queues, in order, the record of
/// every task spawned on it (task `i` is `tasks[i]`), whether it has been shut
/// down, and how many epoll event slots it holds.
#[verifier::ext_equal]
pub struct ExecutorView {
    pub high: Seq<usize>,
    pub normal: Seq<usize>,
    pub low: Seq<usize>,
    pub sleep: Seq<usize>,
    pub tasks: Seq<TaskRecord>,
    pub shutdown: bool,
    pub event_slots: nat,
}

impl ExecutorView {
    pub open spec fn queue(self, k: QueueKind) -> Seq<usize> {
        match k {
            QueueKind::High => self.high,
            QueueKind::Normal => self.normal,
            QueueKind::Low => self.low,
            QueueKind::Sleep => self.sleep,
        }
    }

    pub open spec fn with_queue(self, k: QueueKind, s: Seq<usize>) -> ExecutorView {
        match k {
            QueueKind::High => ExecutorView { high: s, ..self },
            QueueKind::Normal => ExecutorView { normal: s, ..self },
            QueueKind::Low => ExecutorView { low: s, ..self },
            QueueKind::Sleep => ExecutorView { sleep: s, ..self },
        }
    }

    /// The queue task `id` is linked on, if any.
    pub open spec fn location(self, id: usize) -> Option<QueueKind> {
        self.tasks[id as int].entry.queued_on
    }

    pub open spec fn with_location(self, id: usize, q: Option<QueueKind>) -> ExecutorView {
        ExecutorView {
            tasks: self.tasks.update(
                id as int,
                TaskRecord { entry: QueueEntry { queued_on: q }, ..self.tasks[id as int] },
            ),
            ..self
        }
    }

    pub open spec fn priority(self, id: usize) -> Priority {
        self.tasks[id as int].priority
    }

    /// Well-formedness: every queue holds known tasks, each at most once; a
    /// task's entry names the one queue it is linked on; a run queue holds only
    /// tasks of its own priority; a completed task is on no queue.
    pub open spec fn wf(self) -> bool {
        &&& forall|k: QueueKind| #[trigger] self.queue(k).no_duplicates()
        &&& forall|k: QueueKind, i: int|
            0 <= i < self.queue(k).len() ==> {
                &&& #[trigger] self.queue(k)[i] < self.tasks.len()
                &&& self.location(self.queue(k)[i]) == Some(k)
                &&& (k != QueueKind::Sleep ==> runq_of(self.priority(self.queue(k)[i])) == k)
            }
        &&& forall|id: usize|
            id < self.tasks.len() && #[trigger] self.location(id) is Some ==> self.queue(
                self.location(id).unwrap(),
            ).contains(id)
        &&& forall|id: usize|
            id < self.tasks.len() && #[trigger] self.tasks[id as int].completed ==> self.location(
                id,
            ) is None
    }

    /// `id` unlinked from whatever queue it was on.
    pub open spec fn released(self, id: usize) -> ExecutorView {
        ExecutorView {
            high: without(self.high, id),
            normal: without(self.normal, id),
            low: without(self.low, id),
            sleep: without(self.sleep, id),
            ..self
        }.with_location(id, None)
    }

    /// `id` moved to the back of queue `k`.
    pub open spec fn pushed(self, k: QueueKind, id: usize) -> ExecutorView {
        let r = self.released(id);
        r.with_queue(k, r.queue(k).push(id)).with_location(id, Some(k))
    }

    /// `id` made runnable, unless it has completed.
    pub open spec fn enqueued(self, id: usize) -> ExecutorView {
        if self.tasks[id as int].completed {
            self
        } else {
            self.pushed(runq_of(self.priority(id)), id)
        }
    }

    /// `id` put to sleep: pending, waiting for a wake-up.
    pub open spec fn slept(self, id: usize) -> ExecutorView {
        self.pushed(QueueKind::Sleep, id)
    }

    /// The order in which the runnable tasks will be taken.
    pub open spec fn run_order(self) -> Seq<usize> {
        self.high + self.normal + self.low
    }

    /// The task taken next: the front of the highest non-empty run queue.
    pub open spec fn next_runnable(self) -> Option<usize> {
        if self.high.len() > 0 {
            Some(self.high[0])
        } else if self.normal.len() > 0 {
            Some(self.normal[0])
        } else if self.low.len() > 0 {
            Some(self.low[0])
        } else {
            None
        }
    }

    /// The state after the next runnable task has been taken.
    pub open spec fn popped(self) -> ExecutorView {
        if self.high.len() > 0 {
            ExecutorView { high: self.high.drop_first(), ..self }.with_location(self.high[0], None)
        } else if self.normal.len() > 0 {
            ExecutorView { normal: self.normal.drop_first(), ..self }.with_location(
                self.normal[0],
                None,
            )
        } else if self.low.len() > 0 {
            ExecutorView { low: self.low.drop_first(), ..self }.with_location(self.low[0], None)
        } else {
            self
        }
    }

    /// The state after a new task of priority `p` has been spawned; its id is
    /// the number of tasks before.
    pub open spec fn spawned(self, p: Priority, checked: bool) -> ExecutorView {
        ExecutorView {
            tasks: self.tasks.push(
                TaskRecord {
                    priority: p,
                    checked,
                    completed: false,
                    entry: QueueEntry { queued_on: None },
                },
            ),
            ..self
        }.enqueued(self.tasks.len() as usize)
    }

    /// The state after task `id` has been polled: `ready` when its future
    /// completed, `failed` when it completed with an `Err`. A task that
    /// completed is taken off any queue it requeued itself on while it ran, so
    /// it is never handed out to run again.
    pub open spec fn polled(self, id: usize, ready: bool, failed: bool) -> ExecutorView {
        if ready {
            let r = self.released(id);
            ExecutorView {
                tasks: r.tasks.update(
                    id as int,
                    TaskRecord { completed: true, ..r.tasks[id as int] },
                ),
                shutdown: self.shutdown || (self.tasks[id as int].checked && failed),
                ..r
            }
        } else if self.location(id) is None && !self.tasks[id as int].completed {
            self.slept(id)
        } else {
            self
        }
    }
}

/// Unlinking keeps the state well formed, and takes `id` out of no queue but
/// its own.
pub proof fn lemma_released(v: ExecutorView, id: usize)
    requires
        v.wf(),
        id < v.tasks.len(),
    ensures
        v.released(id).wf(),
        v.released(id).location(id) is None,
        v.released(id).tasks.len() == v.tasks.len(),
        forall|k: QueueKind| v.location(id) != Some(k) ==> #[trigger] v.released(id).queue(k) == v.queue(k),
        forall|k: QueueKind| !(#[trigger] v.released(id).queue(k)).contains(id),
{
    let r = v.released(id);
    assert forall|k: QueueKind| #[trigger] r.queue(k) == without(v.queue(k), id) by {}
    assert forall|k: QueueKind| v.location(id) != Some(k) implies #[trigger] r.queue(k) == v.queue(k) by {
        if v.queue(k).contains(id) {
            let i = choose|i: int| 0 <= i < v.queue(k).len() && v.queue(k)[i] == id;
            assert(v.location(v.queue(k)[i]) == Some(k));
        }
        lemma_without_absent(v.queue(k), id);
    }
    assert forall|k: QueueKind| !(#[trigger] r.queue(k)).contains(id) by {
        lemma_without_contains(v.queue(k), id);
    }
    assert forall|k: QueueKind| #[trigger] r.queue(k).no_duplicates() by {
        lemma_without_contains(v.queue(k), id);
    }
    assert forall|k: QueueKind, i: int| 0 <= i < r.queue(k).len() implies {
        &&& #[trigger] r.queue(k)[i] < r.tasks.len()
        &&& r.location(r.queue(k)[i]) == Some(k)
        &&& (k != QueueKind::Sleep ==> runq_of(r.priority(r.queue(k)[i])) == k)
    } by {
        lemma_without_contains(v.queue(k), id);
        let x = r.queue(k)[i];
        assert(r.queue(k).contains(x));
        assert(v.queue(k).contains(x));
        let j = choose|j: int| 0 <= j < v.queue(k).len() && v.queue(k)[j] == x;
        assert(v.queue(k)[j] < v.tasks.len());
    }
    assert forall|t: usize| t < r.tasks.len() && #[trigger] r.location(t) is Some implies r.queue(
        r.location(t).unwrap(),
    ).contains(t) by {
        lemma_without_contains(v.queue(r.location(t).unwrap()), id);
        assert(v.location(t) is Some);
    }
}

/// Linking `id` at the back of its run queue or of the sleep queue keeps the
/// state well formed.
pub proof fn lemma_pushed(v: ExecutorView, k: QueueKind, id: usize)
    requires
        v.wf(),
        id < v.tasks.len(),
        !v.tasks[id as int].completed,
        k == QueueKind::Sleep || k == runq_of(v.priority(id)),
    ensures
        v.pushed(k, id).wf(),
        v.pushed(k, id).tasks.len() == v.tasks.len(),
        v.pushed(k, id).location(id) == Some(k),
        v.pushed(k, id).queue(k) == v.released(id).queue(k).push(id),
        forall|j: QueueKind| j != k ==> #[trigger] v.pushed(k, id).queue(j) == v.released(id).queue(j),
{
    lemma_released(v, id);
    let r = v.released(id);
    let p = v.pushed(k, id);
    assert forall|j: QueueKind| j != k implies #[trigger] p.queue(j) == r.queue(j) by {}
    assert(p.queue(k) == r.queue(k).push(id));
    assert forall|j: QueueKind| #[trigger] p.queue(j).no_duplicates() by {
        if j == k {
            assert(r.queue(k).no_duplicates());
            assert(!r.queue(k).contains(id));
            let s = p.queue(k);
            assert forall|a: int, b: int| 0 <= a < s.len() && 0 <= b < s.len() && a != b implies s[a]
                != s[b] by {
                if a < s.len() - 1 && b < s.len() - 1 {
                    assert(s[a] == r.queue(k)[a]);
                    assert(s[b] == r.queue(k)[b]);
                } else if a < s.len() - 1 {
                    assert(r.queue(k).contains(s[a]));
                } else {
                    assert(r.queue(k).contains(s[b]));
                }
            }
        }
    }
    assert forall|j: QueueKind, i: int| 0 <= i < p.queue(j).len() implies {
        &&& #[trigger] p.queue(j)[i] < p.tasks.len()
        &&& p.location(p.queue(j)[i]) == Some(j)
        &&& (j != QueueKind::Sleep ==> runq_of(p.priority(p.queue(j)[i])) == j)
    } by {
        if j == k && i == p.queue(j).len() - 1 {
        } else {
            assert(p.queue(j)[i] == r.queue(j)[i]);
            assert(r.queue(j).contains(r.queue(j)[i]));
        }
    }
    assert forall|t: usize| t < p.tasks.len() && #[trigger] p.location(t) is Some implies p.queue(
        p.location(t).unwrap(),
    ).contains(t) by {
        if t == id {
            assert(p.queue(k)[p.queue(k).len() - 1] == id);
        } else {
            assert(r.location(t) is Some);
            let j = r.location(t).unwrap();
            assert(r.queue(j).contains(t));
            let i = choose|i: int| 0 <= i < r.queue(j).len() && r.queue(j)[i] == t;
            assert(p.queue(j)[i] == t);
        }
    }
}

/// Taking the next runnable task keeps the state well formed.
pub proof fn lemma_popped(v: ExecutorView)
    requires
        v.wf(),
    ensures
        v.popped().wf(),
        v.popped().tasks.len() == v.tasks.len(),
        v.next_runnable() matches Some(id) ==> id < v.tasks.len() && v.popped().location(id) is None,
{
    let p = v.popped();
    if let Some(id) = v.next_runnable() {
        let k = if v.high.len() > 0 {
            QueueKind::High
        } else if v.normal.len() > 0 {
            QueueKind::Normal
        } else {
            QueueKind::Low
        };
        assert(v.queue(k)[0] == id);
        assert(id < v.tasks.len());
        assert(v.queue(k).no_duplicates());
        assert(p.queue(k) == v.queue(k).drop_first());
        assert forall|j: QueueKind| j != k implies #[trigger] p.queue(j) == v.queue(j) by {}
        assert forall|j: QueueKind| #[trigger] p.queue(j).no_duplicates() by {
            if j == k {
                let s = p.queue(k);
                assert forall|a: int, b: int|
                    0 <= a < s.len() && 0 <= b < s.len() && a != b implies s[a] != s[b] by {
                    assert(s[a] == v.queue(k)[a + 1]);
                    assert(s[b] == v.queue(k)[b + 1]);
                }
            }
        }
        assert forall|j: QueueKind, i: int| 0 <= i < p.queue(j).len() implies {
            &&& #[trigger] p.queue(j)[i] < p.tasks.len()
            &&& p.location(p.queue(j)[i]) == Some(j)
            &&& (j != QueueKind::Sleep ==> runq_of(p.priority(p.queue(j)[i])) == j)
        } by {
            if j == k {
                assert(p.queue(j)[i] == v.queue(k)[i + 1]);
                assert(v.queue(k)[i + 1] != v.queue(k)[0]);
            } else {
                assert(p.queue(j)[i] == v.queue(j)[i]);
                if v.queue(j)[i] == id {
                    assert(v.location(id) == Some(k));
                }
            }
        }
        assert forall|t: usize| t < p.tasks.len() && #[trigger] p.location(t) is Some implies p.queue(
            p.location(t).unwrap(),
        ).contains(t) by {
            assert(v.location(t) is Some);
            let j = v.location(t).unwrap();
            assert(v.queue(j).contains(t));
            let i = choose|i: int| 0 <= i < v.queue(j).len() && v.queue(j)[i] == t;
            if j == k {
                assert(i != 0);
                assert(p.queue(j)[i - 1] == t);
            } else {
                assert(p.queue(j)[i] == t);
            }
        }
    }
}

/// Adding a fresh, unqueued task keeps the state well formed.
proof fn lemma_task_added(v: ExecutorView, rec: TaskRecord)
    requires
        v.wf(),
        rec.entry.queued_on is None,
    ensures
        (ExecutorView { tasks: v.tasks.push(rec), ..v }).wf(),
{
    let w = ExecutorView { tasks: v.tasks.push(rec), ..v };
    assert forall|k: QueueKind| #[trigger] w.queue(k) == v.queue(k) by {}
    assert forall|k: QueueKind, i: int| 0 <= i < w.queue(k).len() implies {
        &&& #[trigger] w.queue(k)[i] < w.tasks.len()
        &&& w.location(w.queue(k)[i]) == Some(k)
        &&& (k != QueueKind::Sleep ==> runq_of(w.priority(w.queue(k)[i])) == k)
    } by {
        assert(v.queue(k)[i] < v.tasks.len());
    }
    assert forall|t: usize| t < w.tasks.len() && #[trigger] w.location(t) is Some implies w.queue(
        w.location(t).unwrap(),
    ).contains(t) by {
        assert(t < v.tasks.len());
        assert(v.location(t) is Some);
    }
}

/// Spawning keeps the state well formed; the new task is runnable at the back
/// of the run queue of its priority.
pub proof fn lemma_spawned(v: ExecutorView, p: Priority, checked: bool)
    requires
        v.wf(),
        v.tasks.len() < usize::MAX,
    ensures
        v.spawned(p, checked).wf(),
        v.spawned(p, checked).tasks.len() == v.tasks.len() + 1,
        v.spawned(p, checked).queue(runq_of(p)) == v.queue(runq_of(p)).push(v.tasks.len() as usize),
        forall|k: QueueKind| k != runq_of(p) ==> #[trigger] v.spawned(p, checked).queue(k) == v.queue(k),
{
    let rec = TaskRecord {
        priority: p,
        checked,
        completed: false,
        entry: QueueEntry { queued_on: None },
    };
    let w = ExecutorView { tasks: v.tasks.push(rec), ..v };
    let id = v.tasks.len() as usize;
    lemma_task_added(v, rec);
    assert(w.priority(id) == p);
    assert(w.location(id) is None);
    assert(!w.tasks[id as int].completed);
    lemma_pushed(w, runq_of(p), id);
    lemma_released(w, id);
    assert forall|k: QueueKind| #[trigger] w.queue(k) == v.queue(k) by {}
}

/// Recording the outcome of a poll keeps the state well formed.
pub proof fn lemma_polled(v: ExecutorView, id: usize, ready: bool, failed: bool)
    requires
        v.wf(),
        id < v.tasks.len(),
    ensures
        v.polled(id, ready, failed).wf(),
        v.polled(id, ready, failed).tasks.len() == v.tasks.len(),
{
    if ready {
        lemma_released(v, id);
        let r = v.released(id);
        let w = v.polled(id, ready, failed);
        assert forall|k: QueueKind| #[trigger] w.queue(k) == r.queue(k) by {}
        assert forall|t: usize| t != id && t < w.tasks.len() implies #[trigger] w.tasks[t as int] == r.tasks[t as int] by {}
        assert forall|k: QueueKind, i: int| 0 <= i < w.queue(k).len() implies {
            &&& #[trigger] w.queue(k)[i] < w.tasks.len()
            &&& w.location(w.queue(k)[i]) == Some(k)
            &&& (k != QueueKind::Sleep ==> runq_of(w.priority(w.queue(k)[i])) == k)
        } by {
            assert(r.queue(k)[i] < r.tasks.len());
            assert(r.location(r.queue(k)[i]) == Some(k));
        }
        assert forall|t: usize| t < w.tasks.len() && #[trigger] w.location(t) is Some implies w.queue(
            w.location(t).unwrap(),
        ).contains(t) by {
            assert(r.location(t) is Some);
        }
        assert forall|t: usize| t < w.tasks.len() && #[trigger] w.tasks[t as int].completed implies w.location(
            t,
        ) is None by {
            if t != id {
                assert(r.tasks[t as int].completed);
            }
        }
        assert forall|k: QueueKind| #[trigger] w.queue(k).no_duplicates() by {
            assert(r.queue(k).no_duplicates());
        }
    } else if v.location(id) is None && !v.tasks[id as int].completed {
        lemma_pushed(v, QueueKind::Sleep, id);
    }
}

/// Well-formedness speaks of the queues and the task records only: the
/// shutdown flag and the event slots do not affect it.
proof fn lemma_wf_independent_of_flags(v: ExecutorView, w: ExecutorView)
    requires
        w.high == v.high,
        w.normal == v.normal,
        w.low == v.low,
        w.sleep == v.sleep,
        w.tasks == v.tasks,
    ensures
        v.wf() ==> w.wf(),
{
    assert forall|k: QueueKind| #[trigger] w.queue(k) == v.queue(k) by {}
    assert forall|t: usize| #[trigger] w.location(t) == v.location(t) by {}
    if v.wf() {
        assert forall|k: QueueKind, i: int| 0 <= i < w.queue(k).len() implies {
            &&& #[trigger] w.queue(k)[i] < w.tasks.len()
            &&& w.location(w.queue(k)[i]) == Some(k)
            &&& (k != QueueKind::Sleep ==> runq_of(w.priority(w.queue(k)[i])) == k)
        } by {
            assert(v.queue(k)[i] < v.tasks.len());
        }
        assert forall|t: usize| t < w.tasks.len() && #[trigger] w.location(t) is Some implies w.queue(
            w.location(t).unwrap(),
        ).contains(t) by {
            assert(v.location(t) is Some);
        }
        assert forall|k: QueueKind| #[trigger] w.queue(k).no_duplicates() by {
            assert(v.queue(k).no_duplicates());
        }
    }
}

/// The executor: run queues by priority, the sleep queue of pending tasks,
/// the record of every task, and the shutdown flag.
///
/// A task id is the position of its record; ids are never reused, so a wake-up
/// that arrives for a task that has completed finds it completed.
pub struct Executor {
    runq_high: Queue,
    runq_normal: Queue,
    runq_low: Queue,
    sleepq: Queue,
    tasks: Vec<TaskRecord>,
    shutdown: bool,
    event_slots: usize,
}

impl View for Executor {
    type V = ExecutorView;

    closed spec fn view(&self) -> ExecutorView {
        ExecutorView {
            high: self.runq_high@,
            normal: self.runq_normal@,
            low: self.runq_low@,
            sleep: self.sleepq@,
            tasks: self.tasks@,
            shutdown: self.shutdown,
            event_slots: self.event_slots as nat,
        }
    }
}

/// The state of a new executor: no task, empty queues, not shut down, and
/// one event slot, taken by its wake-up pipe.
pub open spec fn initial_view() -> ExecutorView {
    ExecutorView {
        high: Seq::empty(),
        normal: Seq::empty(),
        low: Seq::empty(),
        sleep: Seq::empty(),
        tasks: Seq::empty(),
        shutdown: false,
        event_slots: 1,
    }
}

impl Executor {
    /// A new executor, with the event slot of its wake-up pipe.
    pub fn new() -> (e: Self)
        ensures
            e@ == initial_view(),
            e@.wf(),
    {
        let e = Executor {
            runq_high: Queue::new(),
            runq_normal: Queue::new(),
            runq_low: Queue::new(),
            sleepq: Queue::new(),
            tasks: Vec::new(),
            shutdown: false,
            event_slots: 1,
        };
        assert(e@ =~= initial_view());
        e
    }

    /// The run queue of priority `priority`.
    pub fn runq(priority: Priority) -> (k: QueueKind)
        ensures
            k == runq_of(priority),
    {
        match priority {
            Priority::High => QueueKind::High,
            Priority::Normal => QueueKind::Normal,
            Priority::Low => QueueKind::Low,
        }
    }

    /// The number of tasks spawned on this executor.
    pub fn num_tasks(&self) -> (n: usize)
        ensures
            n == self@.tasks.len(),
    {
        self.tasks.len()
    }

    /// The record of task `id`.
    pub fn task(&self, id: usize) -> (r: TaskRecord)
        requires
            id < self@.tasks.len(),
        ensures
            r == self@.tasks[id as int],
    {
        self.tasks[id]
    }

    fn set_location(&mut self, id: usize, q: Option<QueueKind>)
        requires
            id < old(self)@.tasks.len(),
        ensures
            final(self)@ == old(self)@.with_location(id, q),
    {
        let mut rec = self.tasks[id];
        rec.entry = QueueEntry { queued_on: q };
        self.tasks.set(id, rec);
        assert(self@ =~= old(self)@.with_location(id, q));
    }

    /// Unlink task `id` from whatever queue it is on; the executor no longer
    /// holds it on any queue.
    pub fn release(&mut self, id: usize)
        requires
            old(self)@.wf(),
            id < old(self)@.tasks.len(),
        ensures
            final(self)@ == old(self)@.released(id),
            final(self)@.wf(),
    {
        let ghost v = self@;
        proof {
            lemma_released(v, id);
            assert(v.queue(QueueKind::High).no_duplicates());
            assert(v.queue(QueueKind::Normal).no_duplicates());
            assert(v.queue(QueueKind::Low).no_duplicates());
            assert(v.queue(QueueKind::Sleep).no_duplicates());
        }
        match self.tasks[id].entry.queued_on {
            Some(QueueKind::High) => {
                self.runq_high.remove_id(id);
            },
            Some(QueueKind::Normal) => {
                self.runq_normal.remove_id(id);
            },
            Some(QueueKind::Low) => {
                self.runq_low.remove_id(id);
            },
            Some(QueueKind::Sleep) => {
                self.sleepq.remove_id(id);
            },
            None => {},
        }
        proof {
            assert(self@.queue(QueueKind::High) == v.released(id).queue(QueueKind::High));
            assert(self@.queue(QueueKind::Normal) == v.released(id).queue(QueueKind::Normal));
            assert(self@.queue(QueueKind::Low) == v.released(id).queue(QueueKind::Low));
            assert(self@.queue(QueueKind::Sleep) == v.released(id).queue(QueueKind::Sleep));
        }
        self.set_location(id, None);
        assert(self@ =~= v.released(id));
    }

    /// Move task `id` to the back of queue `k`, unlinking it from wherever it
    /// was (`k` itself included): the task is then on `k` only, once. A run
    /// queue takes only tasks of its own priority.
    pub fn push(&mut self, k: QueueKind, id: usize)
        requires
            old(self)@.wf(),
            id < old(self)@.tasks.len(),
            !old(self)@.tasks[id as int].completed,
            k == QueueKind::Sleep || k == runq_of(old(self)@.priority(id)),
        ensures
            final(self)@ == old(self)@.pushed(k, id),
            final(self)@.wf(),
    {
        let ghost v = self@;
        proof {
            lemma_pushed(v, k, id);
        }
        self.release(id);
        match k {
            QueueKind::High => self.runq_high.append(id),
            QueueKind::Normal => self.runq_normal.append(id),
            QueueKind::Low => self.runq_low.append(id),
            QueueKind::Sleep => self.sleepq.append(id),
        }
        self.set_location(id, Some(k));
        assert(self@ =~= v.pushed(k, id));
    }

    /// Make task `id` runnable: move it to the back of the run queue of its
    /// priority. A task that has completed is left alone.
    pub fn enqueue(&mut self, id: usize)
        requires
            old(self)@.wf(),
            id < old(self)@.tasks.len(),
        ensures
            final(self)@ == old(self)@.enqueued(id),
            final(self)@.wf(),
    {
        let rec = self.tasks[id];
        if !rec.completed {
            let k = Self::runq(rec.priority);
            self.push(k, id);
        }
    }

    /// Put task `id` on the sleep queue.
    pub fn sleep(&mut self, id: usize)
        requires
            old(self)@.wf(),
            id < old(self)@.tasks.len(),
            !old(self)@.tasks[id as int].completed,
        ensures
            final(self)@ == old(self)@.slept(id),
            final(self)@.wf(),
    {
        self.push(QueueKind::Sleep, id);
    }

    /// Stop tracking task `id`: unlink it from whatever queue it is on.
    pub fn abort(&mut self, id: usize)
        requires
            old(self)@.wf(),
            id < old(self)@.tasks.len(),
        ensures
            final(self)@ == old(self)@.released(id),
            final(self)@.wf(),
    {
        self.release(id);
    }

    /// Whether nothing refers to task `id` any more, so that its future can be
    /// dropped: it is on no queue, it is not being polled (`running`), and its
    /// handle is gone (`handle_alive` false). Wakers do not keep a task.
    pub fn is_unreferenced(&self, id: usize, running: bool, handle_alive: bool) -> (r: bool)
        requires
            id < self@.tasks.len(),
        ensures
            r == (!running && !handle_alive && self@.location(id) is None),
    {
        !running && !handle_alive && !self.is_queued(id)
    }

    /// Whether task `id` is linked on some queue.
    pub fn is_queued(&self, id: usize) -> (r: bool)
        requires
            id < self@.tasks.len(),
        ensures
            r == (self@.location(id) is Some),
    {
        self.tasks[id].entry.is_queued()
    }

    /// Take the next task to run: the front of the high run queue, else of the
    /// normal one, else of the low one.
    pub fn highest_priority_runnable_task(&mut self) -> (r: Option<usize>)
        requires
            old(self)@.wf(),
        ensures
            r == old(self)@.next_runnable(),
            final(self)@ == old(self)@.popped(),
            final(self)@.wf(),
    {
        let ghost v = self@;
        proof {
            lemma_popped(v);
        }
        let r = match self.runq_high.take_front() {
            Some(id) => Some(id),
            None => match self.runq_normal.take_front() {
                Some(id) => Some(id),
                None => self.runq_low.take_front(),
            },
        };
        if let Some(id) = r {
            proof {
                assert(v.queue(QueueKind::High).len() > 0 ==> v.high[0] < v.tasks.len());
                assert(v.queue(QueueKind::Normal).len() > 0 ==> v.normal[0] < v.tasks.len());
                assert(v.queue(QueueKind::Low).len() > 0 ==> v.low[0] < v.tasks.len());
            }
            self.set_location(id, None);
        }
        assert(self@ =~= v.popped());
        r
    }

    /// Stop the executor: the run loop ends once control returns to it.
    pub fn shutdown(&mut self)
        ensures
            final(self)@ == (ExecutorView { shutdown: true, ..old(self)@ }),
            old(self)@.wf() ==> final(self)@.wf(),
    {
        self.shutdown = true;
        assert(self@ =~= (ExecutorView { shutdown: true, ..old(self)@ }));
        proof {
            lemma_wf_independent_of_flags(old(self)@, self@);
        }
    }

    /// Whether the executor has been shut down.
    pub fn is_shut_down(&self) -> (r: bool)
        ensures
            r == self@.shutdown,
    {
        self.shutdown
    }

    /// Whether no task is sleeping.
    pub fn sleepq_is_empty(&self) -> (r: bool)
        ensures
            r == (self@.sleep.len() == 0),
    {
        self.sleepq.is_empty()
    }

    /// Register a new task of priority `priority` and make it runnable; returns
    /// its id.
    pub fn spawn(&mut self, priority: Priority, checked: bool) -> (id: usize)
        requires
            old(self)@.wf(),
            old(self)@.tasks.len() < usize::MAX,
        ensures
            id == old(self)@.tasks.len(),
            final(self)@ == old(self)@.spawned(priority, checked),
            final(self)@.wf(),
    {
        let ghost v = self@;
        proof {
            lemma_spawned(v, priority, checked);
            // the state with the new record, before it is enqueued
            lemma_task_added(
                v,
                TaskRecord {
                    priority,
                    checked,
                    completed: false,
                    entry: QueueEntry { queued_on: None },
                },
            );
        }
        let id = self.tasks.len();
        self.tasks.push(
            TaskRecord { priority, checked, completed: false, entry: QueueEntry::new() },
        );
        assert(self@ =~= (ExecutorView {
            tasks: v.tasks.push(
                TaskRecord {
                    priority,
                    checked,
                    completed: false,
                    entry: QueueEntry { queued_on: None },
                },
            ),
            ..v
        }));
        self.enqueue(id);
        id
    }

    /// Record the outcome of polling task `id`. A task that completed is marked
    /// completed, and a checked task that completed with an `Err` shuts the
    /// executor down; a pending task that did not requeue itself while it ran
    /// goes to sleep.
    pub fn task_polled(&mut self, id: usize, ready: bool, failed: bool)
        requires
            old(self)@.wf(),
            id < old(self)@.tasks.len(),
        ensures
            final(self)@ == old(self)@.polled(id, ready, failed),
            final(self)@.wf(),
    {
        let ghost v = self@;
        proof {
            lemma_polled(v, id, ready, failed);
        }
        if ready {
            self.release(id);
            let mut rec = self.tasks[id];
            rec.completed = true;
            self.tasks.set(id, rec);
            if rec.checked && failed {
                self.shutdown = true;
            }
            assert(self@ =~= v.polled(id, ready, failed));
        } else if !self.is_queued(id) && !self.tasks[id].completed {
            self.sleep(id);
        }
    }
}

/// What the run loop does next.
#[derive(Clone, Copy, Debug, PartialEq, Eq, Structural)]
pub enum RunAction {
    /// Poll the future of the given task, then report with `task_done`.
    PollTask(usize),
    /// Handle the events that happened meanwhile without waiting, then ask
    /// `run_next`.
    CheckEvents,
    /// Block until an event arrives, handle it, then ask `run_next`.
    WaitForEvents,
    /// Leave the run loop.
    Finish,
}

impl Executor {
    /// The run loop's choice when it is not polling a task: run the next
    /// runnable task; with none, finish when no task sleeps, else wait for an
    /// event.
    pub fn run_next(&mut self) -> (a: RunAction)
        requires
            old(self)@.wf(),
        ensures
            final(self)@.wf(),
            match old(self)@.next_runnable() {
                Some(id) => a == RunAction::PollTask(id) && final(self)@ == old(self)@.popped(),
                None => {
                    &&& final(self)@ == old(self)@
                    &&& a == (if old(self)@.sleep.len() == 0 {
                        RunAction::Finish
                    } else {
                        RunAction::WaitForEvents
                    })
                },
            },
    {
        match self.highest_priority_runnable_task() {
            Some(id) => RunAction::PollTask(id),
            None => {
                if self.sleepq_is_empty() {
                    RunAction::Finish
                } else {
                    RunAction::WaitForEvents
                }
            },
        }
    }

    /// The run loop's choice after task `id` has been polled: record the
    /// outcome, then finish if the executor has been shut down, else check for
    /// the events that happened while the task ran.
    pub fn task_done(&mut self, id: usize, ready: bool, failed: bool) -> (a: RunAction)
        requires
            old(self)@.wf(),
            id < old(self)@.tasks.len(),
        ensures
            final(self)@ == old(self)@.polled(id, ready, failed),
            final(self)@.wf(),
            a == (if final(self)@.shutdown {
                RunAction::Finish
            } else {
                RunAction::CheckEvents
            }),
    {
        self.task_polled(id, ready, failed);
        if self.shutdown {
            RunAction::Finish
        } else {
            RunAction::CheckEvents
        }
    }

    /// The choice of a blocking wait on one future, made each time that future
    /// is still pending: run the next runnable task, or wait for an event.
    pub fn block_on_next(&mut self) -> (a: RunAction)
        requires
            old(self)@.wf(),
        ensures
            final(self)@ == old(self)@.popped(),
            final(self)@.wf(),
            a == (match old(self)@.next_runnable() {
                Some(id) => RunAction::PollTask(id),
                None => RunAction::WaitForEvents,
            }),
    {
        match self.highest_priority_runnable_task() {
            Some(id) => RunAction::PollTask(id),
            None => RunAction::WaitForEvents,
        }
    }

    /// A file descriptor has been registered with epoll: one more event slot.
    pub fn epoll_add(&mut self)
        requires
            old(self)@.event_slots < usize::MAX,
        ensures
            final(self)@ == (ExecutorView { event_slots: old(self)@.event_slots + 1, ..old(self)@ }),
            old(self)@.wf() ==> final(self)@.wf(),
    {
        self.event_slots = self.event_slots + 1;
        assert(self@ =~= (ExecutorView { event_slots: old(self)@.event_slots + 1, ..old(self)@ }));
        proof {
            lemma_wf_independent_of_flags(old(self)@, self@);
        }
    }

    /// A file descriptor has been deregistered: one event slot less, if any is
    /// left.
    pub fn epoll_del(&mut self)
        ensures
            final(self)@ == (ExecutorView {
                event_slots: if old(self)@.event_slots > 0 {
                    (old(self)@.event_slots - 1) as nat
                } else {
                    0
                },
                ..old(self)@
            }),
            old(self)@.wf() ==> final(self)@.wf(),
    {
        if self.event_slots > 0 {
            self.event_slots = self.event_slots - 1;
        }
        assert(self@ =~= (ExecutorView {
            event_slots: if old(self)@.event_slots > 0 {
                (old(self)@.event_slots - 1) as nat
            } else {
                0
            },
            ..old(self)@
        }));
        proof {
            lemma_wf_independent_of_flags(old(self)@, self@);
        }
    }

    /// The number of event slots: how many events one wait can report. A wait
    /// with none returns at once.
    pub fn event_slots(&self) -> (n: usize)
        ensures
            n == self@.event_slots,
    {
        self.event_slots
    }
}

/// How many times in a row a file descriptor may report readiness before its
/// task is made to yield.
pub const BURST_LIMIT: usize = 20;

/// The epoll-side state of a registered file descriptor: the task to wake on an
/// event (`None` when the waiting waker is not a task of this executor), the
/// events seen since the last `WouldBlock`, and how many times in a row it has
/// reported readiness.
#[derive(Clone, Copy, Debug, PartialEq, Eq, Structural)]
pub struct EpollWaker {
    pub waker: Option<usize>,
    pub events: u32,
    pub burst: usize,
}

/// How a poll of a file descriptor begins.
#[derive(Clone, Copy, Debug, PartialEq, Eq, Structural)]
pub enum PollStart {
    /// No event yet: the task waits.
    Pending,
    /// Ready too many times in a row: the task must yield to the executor.
    Yield,
    /// Run the I/O operation with these events.
    Call(u32),
}

/// What an I/O operation on the file descriptor came back with.
#[derive(Clone, Copy, Debug, PartialEq, Eq, Structural)]
pub enum IoOutcome {
    /// `EINTR`.
    Interrupted,
    /// `EAGAIN` / `EWOULDBLOCK`.
    WouldBlock,
    /// Anything else: a result or another error, handed to the caller.
    Complete,
}

/// What a poll does after an I/O operation.
#[derive(Clone, Copy, Debug, PartialEq, Eq, Structural)]
pub enum PollStep {
    /// Run the operation again with these events.
    Retry(u32),
    /// Wait for the next event.
    Pending,
    /// Hand the operation's result to the caller.
    Ready,
}

impl EpollWaker {
    /// How a poll by the task with waker `waker` begins, and the state after.
    pub open spec fn poll_started(self, waker: Option<usize>) -> (PollStart, EpollWaker) {
        if self.events == 0 {
            (PollStart::Pending, EpollWaker { waker, events: self.events, burst: 0 })
        } else if self.burst >= BURST_LIMIT {
            (PollStart::Yield, EpollWaker { burst: 0, ..self })
        } else {
            (PollStart::Call(self.events), self)
        }
    }

    /// What a poll does after the I/O operation came back with `outcome`, and
    /// the state after.
    pub open spec fn io_done(self, outcome: IoOutcome, waker: Option<usize>) -> (PollStep, EpollWaker) {
        match outcome {
            IoOutcome::Interrupted => (PollStep::Retry(self.events), self),
            IoOutcome::WouldBlock => (PollStep::Pending, EpollWaker { waker, events: 0, burst: 0 }),
            IoOutcome::Complete => (
                PollStep::Ready,
                EpollWaker { burst: (self.burst + 1) as usize, ..self },
            ),
        }
    }

    /// The task to wake when epoll reports `events`, and the state after.
    pub open spec fn notified(self, events: u32) -> (Option<usize>, EpollWaker) {
        if self.events & events == events {
            (None, self)
        } else {
            (self.waker, EpollWaker { events: self.events | events, ..self })
        }
    }

    /// The state of a newly registered descriptor: assumed ready for `events`.
    pub fn new(events: u32) -> (w: Self)
        ensures
            w == (EpollWaker { waker: None, events, burst: 0 }),
    {
        EpollWaker { waker: None, events, burst: 0 }
    }

    /// Begin a poll by the task whose waker is `waker`: with no event seen, the
    /// task waits (its waker is kept); after `BURST_LIMIT` ready results in a
    /// row, it yields; else the I/O operation runs with the events seen.
    pub fn poll_with(&mut self, waker: Option<usize>) -> (s: PollStart)
        ensures
            (s, *final(self)) == old(self).poll_started(waker),
    {
        if self.events == 0 {
            self.burst = 0;
            self.waker = waker;
            return PollStart::Pending;
        }
        if self.burst >= BURST_LIMIT {
            self.burst = 0;
            return PollStart::Yield;
        }
        PollStart::Call(self.events)
    }

    /// Continue a poll after the I/O operation came back with `outcome`:
    /// `EINTR` runs it again; `EAGAIN` forgets the events and waits, keeping
    /// `waker`; anything else is handed to the caller and counts as one more
    /// ready result in a row.
    pub fn io_result(&mut self, outcome: IoOutcome, waker: Option<usize>) -> (s: PollStep)
        requires
            old(self).burst < BURST_LIMIT,
        ensures
            (s, *final(self)) == old(self).io_done(outcome, waker),
    {
        match outcome {
            IoOutcome::Interrupted => PollStep::Retry(self.events),
            IoOutcome::WouldBlock => {
                self.burst = 0;
                self.waker = waker;
                self.events = 0;
                PollStep::Pending
            },
            IoOutcome::Complete => {
                self.burst = self.burst + 1;
                PollStep::Ready
            },
        }
    }

    /// Epoll reported `events` on the descriptor. Events already seen are
    /// ignored (an edge may come before the descriptor returned `EAGAIN`);
    /// otherwise they are recorded and the waiting task, if any, is returned to
    /// be woken.
    pub fn notify(&mut self, events: u32) -> (r: Option<usize>)
        ensures
            (r, *final(self)) == old(self).notified(events),
    {
        if self.events & events == events {
            return None;
        }
        self.events = self.events | events;
        self.waker
    }
}

impl Executor {
    /// Epoll reported `events` on the descriptor whose state is `ew`. The
    /// events are recorded in `ew`; when they are new and `ew` waits for a task
    /// of this executor that still exists (`alive`: its last reference has not
    /// been dropped), that task is made runnable.
    pub fn on_event(&mut self, ew: &mut EpollWaker, events: u32, alive: bool)
        requires
            old(self)@.wf(),
        ensures
            *final(ew) == old(ew).notified(events).1,
            final(self)@ == (match old(ew).notified(events).0 {
                Some(id) => if alive && id < old(self)@.tasks.len() {
                    old(self)@.enqueued(id)
                } else {
                    old(self)@
                },
                None => old(self)@,
            }),
            final(self)@.wf(),
    {
        if let Some(id) = ew.notify(events) {
            if alive && id < self.tasks.len() {
                self.enqueue(id);
            }
        }
    }
}

/// How a waker delivers a wake-up to its task.
#[derive(Clone, Copy, Debug, PartialEq, Eq, Structural)]
pub enum WakeAction {
    /// Same executor: put the task in its run queue.
    Enqueue,
    /// Same executor, and the task is the one running (it woke itself): check
    /// for events first, so that it runs again after them, then enqueue it.
    CheckEventsThenEnqueue,
    /// Another thread's executor: send the task to it through its pipe.
    SendToOwner,
}

/// Choose how to wake a task: `same_executor` when the task belongs to the
/// executor of the calling thread, `task_running` when it is being polled.
pub fn wake(same_executor: bool, task_running: bool) -> (a: WakeAction)
    ensures
        a == (if !same_executor {
            WakeAction::SendToOwner
        } else if task_running {
            WakeAction::CheckEventsThenEnqueue
        } else {
            WakeAction::Enqueue
        }),
{
    if same_executor {
        if task_running {
            WakeAction::CheckEventsThenEnqueue
        } else {
            WakeAction::Enqueue
        }
    } else {
        WakeAction::SendToOwner
    }
}

/// Spawn a task with normal priority; its future is kept by the caller under
/// the returned handle's id.
pub fn spawn(exec: &mut Executor) -> (h: Handle)
    requires
        old(exec)@.wf(),
        old(exec)@.tasks.len() < usize::MAX,
    ensures
        h.id() == old(exec)@.tasks.len(),
        final(exec)@ == old(exec)@.spawned(Priority::Normal, false),
        final(exec)@.wf(),
{
    spawn_with_priority(exec, Priority::Normal)
}

/// Spawn a task with priority `priority`.
pub fn spawn_with_priority(exec: &mut Executor, priority: Priority) -> (h: Handle)
    requires
        old(exec)@.wf(),
        old(exec)@.tasks.len() < usize::MAX,
    ensures
        h.id() == old(exec)@.tasks.len(),
        final(exec)@ == old(exec)@.spawned(priority, false),
        final(exec)@.wf(),
{
    let id = exec.spawn(priority, false);
    Handle::new(id)
}

/// Spawn a task with normal priority that stops the executor if it completes
/// with an `Err`.
pub fn spawn_checked(exec: &mut Executor) -> (h: Handle)
    requires
        old(exec)@.wf(),
        old(exec)@.tasks.len() < usize::MAX,
    ensures
        h.id() == old(exec)@.tasks.len(),
        final(exec)@ == old(exec)@.spawned(Priority::Normal, true),
        final(exec)@.wf(),
{
    spawn_checked_with_priority(exec, Priority::Normal)
}

/// Spawn a task with priority `priority` that stops the executor if it
/// completes with an `Err`.
pub fn spawn_checked_with_priority(exec: &mut Executor, priority: Priority) -> (h: Handle)
    requires
        old(exec)@.wf(),
        old(exec)@.tasks.len() < usize::MAX,
    ensures
        h.id() == old(exec)@.tasks.len(),
        final(exec)@ == old(exec)@.spawned(priority, true),
        final(exec)@.wf(),
{
    let id = exec.spawn(priority, true);
    Handle::new(id)
}

/// Stop the executor; control returns from the run loop as soon as it gets
/// control back. The calling task may still complete.
pub fn shutdown_executor_unchecked(exec: &mut Executor)
    ensures
        final(exec)@ == (ExecutorView { shutdown: true, ..old(exec)@ }),
        old(exec)@.wf() ==> final(exec)@.wf(),
{
    exec.shutdown();
}

/// A future that stops the executor, deregistering all tasks, when it is
/// polled. It never completes.
pub struct Shutdown {
    _private: (),
}

/// Stop the executor once the returned future is polled.
pub fn shutdown() -> (s: Shutdown) {
    Shutdown { _private: () }
}

impl Shutdown {
    /// Poll: shut the executor down and stay pending; returns whether the future
    /// completed, which it never does.
    pub fn poll(&self, exec: &mut Executor) -> (ready: bool)
        ensures
            !ready,
            final(exec)@ == (ExecutorView { shutdown: true, ..old(exec)@ }),
            old(exec)@.wf() ==> final(exec)@.wf(),
    {
        shutdown_executor_unchecked(exec);
        false
    }
}

} // verus!
