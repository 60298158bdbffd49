use crate::executor::Executor;
use vstd::prelude::*;

verus! {

/// A handle to a task: names the task to get its result or abort it.
#[derive(Clone, Copy, Debug, PartialEq, Eq, Structural)]
pub struct Handle {
    id: usize,
}

impl Handle {
    pub closed spec fn id(self) -> usize {
        self.id
    }

    /// The handle of task `id`.
    pub fn new(id: usize) -> (h: Self)
        ensures
            h.id() == id,
    {
        Handle { id }
    }

    /// The id of the task.
    pub fn task(&self) -> (id: usize)
        ensures
            id == self.id(),
    {
        self.id
    }

    /// Abort the task: unlink it from whatever queue it is on, so that it is not
    /// polled again unless something wakes it.
    pub fn abort(&self, exec: &mut Executor)
        requires
            old(exec)@.wf(),
            self.id() < old(exec)@.tasks.len(),
        ensures
            final(exec)@ == old(exec)@.released(self.id()),
            final(exec)@.wf(),
    {
        exec.abort(self.id);
    }
}

/// What a yielding future does when polled.
#[derive(Clone, Copy, Debug, PartialEq, Eq, Structural)]
pub enum YieldStep {
    /// Complete.
    Ready,
    /// Wake the current task (which puts it at the back of its run queue) and
    /// return pending.
    WakeThenPending,
}

/// A future which yields once then continues running.
pub struct YieldFuture {
    yielded: bool,
}

impl YieldFuture {
    pub closed spec fn has_yielded(self) -> bool {
        self.yielded
    }

    /// A future that has not yielded yet.
    pub fn new() -> (f: Self)
        ensures
            !f.has_yielded(),
    {
        YieldFuture { yielded: false }
    }

    /// Poll: the first poll yields, every later one completes.
    pub fn poll(&mut self) -> (s: YieldStep)
        ensures
            final(self).has_yielded(),
            s == (if old(self).has_yielded() {
                YieldStep::Ready
            } else {
                YieldStep::WakeThenPending
            }),
    {
        if self.yielded {
            YieldStep::Ready
        } else {
            self.yielded = true;
            YieldStep::WakeThenPending
        }
    }
}

} // verus!
