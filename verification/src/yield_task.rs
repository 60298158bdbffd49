use crate::task::YieldStep;
use vstd::prelude::*;

verus! {

/// A future that gives the executor a turn once before it completes.
#[must_use]
pub struct AsyncYield {
    has_yielded: bool,
}

/// Yield to the executor once.
pub fn yield_now() -> (f: AsyncYield)
    ensures
        !f.yielded(),
{
    AsyncYield { has_yielded: false }
}

impl AsyncYield {
    pub closed spec fn yielded(self) -> bool {
        self.has_yielded
    }

    /// Poll: the first poll hands the current task back to the executor's run
    /// queue and stays pending; every later poll completes.
    pub fn poll(&mut self) -> (s: YieldStep)
        ensures
            final(self).yielded(),
            s == (if old(self).yielded() {
                YieldStep::Ready
            } else {
                YieldStep::WakeThenPending
            }),
    {
        if self.has_yielded {
            YieldStep::Ready
        } else {
            self.has_yielded = true;
            YieldStep::WakeThenPending
        }
    }
}

} // verus!
