//! Entry of work into a pool that runs a bounded number of tasks at a time.

use vstd::prelude::*;

verus! {

/// The tasks in flight, oldest first, and how many there may be.
#[derive(Debug)]
pub struct WorkerPool {
    limit: usize,
    running: Vec<usize>,
}

impl WorkerPool {
    /// The tasks in flight, oldest first.
    pub closed spec fn view(self) -> Seq<usize> {
        self.running@
    }

    /// The number of tasks that may be in flight at a time.
    pub closed spec fn spec_limit(self) -> nat {
        self.limit as nat
    }

    /// The pool has room for at least one task and holds no more tasks than its limit.
    pub closed spec fn wf(self) -> bool {
        1 <= self.limit && self.running@.len() <= self.limit
    }

    /// An idle pool. A limit of zero is raised to one.
    pub fn new(limit: usize) -> (pool: WorkerPool)
        ensures
            pool.wf(),
            pool@ == Seq::<usize>::empty(),
            pool.spec_limit() == if limit == 0 {
                1
            } else {
                limit as nat
            },
    {
        WorkerPool {
            limit: if limit == 0 {
                1
            } else {
                limit
            },
            running: Vec::new(),
        }
    }

    /// The number of tasks in flight.
    pub fn in_flight(&self) -> (n: usize)
        ensures
            n == self@.len(),
    {
        self.running.len()
    }

    /// Takes a task in. Where the pool is full, the oldest task leaves it and is
    /// handed back: the caller waits for that one before it starts the new one.
    pub fn submit(&mut self, task: usize) -> (wait_for: Option<usize>)
        requires
            old(self).wf(),
        ensures
            final(self).wf(),
            final(self).spec_limit() == old(self).spec_limit(),
            old(self)@.len() < old(self).spec_limit() ==> wait_for is None && final(self)@ == old(
                self,
            )@.push(task),
            old(self)@.len() >= old(self).spec_limit() ==> wait_for == Some(old(self)@[0])
                && final(self)@ == old(self)@.drop_first().push(task),
    {
        let wait_for = if self.running.len() >= self.limit {
            Some(self.running.remove(0))
        } else {
            None
        };
        self.running.push(task);
        proof {
            if wait_for is Some {
                assert(old(self).running@.remove(0) =~= old(self).running@.drop_first());
            }
        }
        wait_for
    }

    /// Empties the pool and hands back the tasks that were in flight, oldest
    /// first: the caller waits for each of them.
    pub fn drain(&mut self) -> (rest: Vec<usize>)
        requires
            old(self).wf(),
        ensures
            final(self).wf(),
            final(self).spec_limit() == old(self).spec_limit(),
            final(self)@ == Seq::<usize>::empty(),
            rest@ == old(self)@,
    {
        let mut rest: Vec<usize> = Vec::new();
        std::mem::swap(&mut rest, &mut self.running);
        rest
    }
}

} // verus!
