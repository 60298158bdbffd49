use std::collections::VecDeque;
use vstd::prelude::*;

verus! {

/// The queues a task can be linked on.
#[derive(Clone, Copy, Debug, PartialEq, Eq, Structural)]
pub enum QueueKind {
    High,
    Normal,
    Low,
    Sleep,
}

/// Per-task link state: on which queue, if any, the task currently sits.
///
/// A task is linked on at most one queue at a time; linking it somewhere else
/// first unlinks it.
#[derive(Clone, Copy, Debug, PartialEq, Eq, Structural)]
pub struct QueueEntry {
    pub queued_on: Option<QueueKind>,
}

impl QueueEntry {
    /// An entry that is not linked on any queue.
    pub fn new() -> (e: Self)
        ensures
            e.queued_on is None,
    {
        QueueEntry { queued_on: None }
    }

    /// Whether the entry is linked on a queue.
    pub fn is_queued(&self) -> (r: bool)
        ensures
            r == (self.queued_on is Some),
    {
        self.queued_on.is_some()
    }
}

/// `s` with every occurrence of `id` taken out, the rest in order.
pub open spec fn without(s: Seq<usize>, id: usize) -> Seq<usize>
    decreases s.len(),
{
    if s.len() == 0 {
        s
    } else {
        let rest = without(s.drop_last(), id);
        if s.last() == id {
            rest
        } else {
            rest.push(s.last())
        }
    }
}

/// Taking out a value that does not occur changes nothing.
pub proof fn lemma_without_absent(s: Seq<usize>, id: usize)
    requires
        !s.contains(id),
    ensures
        without(s, id) == s,
    decreases s.len(),
{
    if s.len() > 0 {
        let d = s.drop_last();
        assert(!d.contains(id)) by {
            if d.contains(id) {
                let k = choose|k: int| 0 <= k < d.len() && d[k] == id;
                assert(s[k] == id);
            }
        }
        lemma_without_absent(d, id);
        assert(s.last() != id) by {
            assert(s[s.len() - 1] == s.last());
        }
        assert(d.push(s.last()) =~= s);
    }
}

/// In a sequence without duplicates, taking out the value at `i` is removing
/// position `i`.
pub proof fn lemma_without_at(s: Seq<usize>, i: int)
    requires
        s.no_duplicates(),
        0 <= i < s.len(),
    ensures
        without(s, s[i]) == s.remove(i),
    decreases s.len(),
{
    let id = s[i];
    let d = s.drop_last();
    if i == s.len() - 1 {
        assert(!d.contains(id)) by {
            if d.contains(id) {
                let k = choose|k: int| 0 <= k < d.len() && d[k] == id;
                assert(s[k] == s[i]);
            }
        }
        lemma_without_absent(d, id);
        assert(s.remove(i) =~= d);
    } else {
        assert(d.no_duplicates());
        assert(d[i] == id);
        lemma_without_at(d, i);
        assert(s.last() != id) by {
            assert(s[s.len() - 1] != s[i]);
        }
        assert(d.remove(i).push(s.last()) =~= s.remove(i));
    }
}

/// What stays in `without(s, id)`: the values of `s` other than `id`, each as
/// often as before when `s` had no duplicates.
pub proof fn lemma_without_contains(s: Seq<usize>, id: usize)
    ensures
        forall|x: usize| #[trigger] without(s, id).contains(x) <==> (s.contains(x) && x != id),
        s.no_duplicates() ==> without(s, id).no_duplicates(),
        without(s, id).len() <= s.len(),
    decreases s.len(),
{
    if s.len() > 0 {
        let d = s.drop_last();
        let rest = without(d, id);
        lemma_without_contains(d, id);
        assert forall|x: usize| #[trigger] s.contains(x) <==> (d.contains(x) || x == s.last()) by {
            if s.contains(x) {
                let k = choose|k: int| 0 <= k < s.len() && s[k] == x;
                if k < s.len() - 1 {
                    assert(d[k] == x);
                }
            }
            if d.contains(x) {
                let k = choose|k: int| 0 <= k < d.len() && d[k] == x;
                assert(s[k] == x);
            }
            if x == s.last() {
                assert(s[s.len() - 1] == x);
            }
        }
        if s.last() != id {
            assert forall|x: usize| #[trigger] rest.push(s.last()).contains(x) <==> (rest.contains(x)
                || x == s.last()) by {
                let r = rest.push(s.last());
                if r.contains(x) {
                    let k = choose|k: int| 0 <= k < r.len() && r[k] == x;
                    if k < rest.len() {
                        assert(rest[k] == x);
                    }
                }
                if rest.contains(x) {
                    let k = choose|k: int| 0 <= k < rest.len() && rest[k] == x;
                    assert(r[k] == x);
                }
                if x == s.last() {
                    assert(r[rest.len() as int] == x);
                }
            }
            if s.no_duplicates() {
                assert(d.no_duplicates());
                assert(!d.contains(s.last())) by {
                    if d.contains(s.last()) {
                        let k = choose|k: int| 0 <= k < d.len() && d[k] == s.last();
                        assert(s[k] == s[s.len() - 1]);
                    }
                }
                assert(!rest.contains(s.last()));
                let r = rest.push(s.last());
                assert forall|a: int, b: int|
                    0 <= a < r.len() && 0 <= b < r.len() && a != b implies r[a] != r[b] by {
                    if a < rest.len() && b < rest.len() {
                    } else if a < rest.len() {
                        assert(rest.contains(r[a]));
                    } else {
                        assert(rest.contains(r[b]));
                    }
                }
            }
        } else {
            if s.no_duplicates() {
                assert(d.no_duplicates());
            }
        }
    }
}

/// A FIFO queue of task ids, the storage of one of the executor's queues.
///
/// Tasks are linked at the back and taken from the front, so a queue runs its
/// tasks in the order in which they were linked. Moving a task between queues,
/// and keeping each task on at most one of them once, is the executor's work
/// (`Executor::push` and `Executor::release`).
pub(crate) struct Queue {
    ids: VecDeque<usize>,
}

impl View for Queue {
    type V = Seq<usize>;

    closed spec fn view(&self) -> Seq<usize> {
        self.ids@
    }
}

impl Queue {
    /// An empty queue.
    pub(crate) fn new() -> (q: Self)
        ensures
            q@ == Seq::<usize>::empty(),
    {
        Queue { ids: VecDeque::new() }
    }

    /// Add `id` at the back of this queue; no other queue is looked at.
    pub(crate) fn append(&mut self, id: usize)
        ensures
            final(self)@ == old(self)@.push(id),
    {
        self.ids.push_back(id);
    }

    /// Take the id at the front of this queue, the one added first.
    pub(crate) fn take_front(&mut self) -> (r: Option<usize>)
        ensures
            match r {
                Some(id) => {
                    &&& old(self)@.len() > 0
                    &&& id == old(self)@[0]
                    &&& final(self)@ == old(self)@.drop_first()
                },
                None => {
                    &&& old(self)@.len() == 0
                    &&& final(self)@ == old(self)@
                },
            },
    {
        let r = self.ids.pop_front();
        proof {
            if r is Some {
                assert(self@ =~= old(self)@.drop_first());
            }
        }
        r
    }

    /// Take `id` out of this queue only; returns whether it was here.
    pub(crate) fn remove_id(&mut self, id: usize) -> (r: bool)
        requires
            old(self)@.no_duplicates(),
        ensures
            final(self)@ == without(old(self)@, id),
            r == old(self)@.contains(id),
    {
        let ghost s = self@;
        let mut i: usize = 0;
        while i < self.ids.len()
            invariant
                self@ == s,
                s == old(self)@,
                s.no_duplicates(),
                0 <= i <= s.len(),
                forall|j: int| 0 <= j < i ==> s[j] != id,
            decreases s.len() - i,
        {
            if self.ids[i] == id {
                self.ids.remove(i);
                proof {
                    lemma_without_at(s, i as int);
                    assert(s[i as int] == id);
                    assert(s.contains(id));
                }
                return true;
            }
            i = i + 1;
        }
        proof {
            assert(!s.contains(id));
            lemma_without_absent(s, id);
        }
        false
    }

    /// Whether no task is linked on the queue.
    pub(crate) fn is_empty(&self) -> (r: bool)
        ensures
            r == (self@.len() == 0),
    {
        self.ids.len() == 0
    }
}

} // verus!
