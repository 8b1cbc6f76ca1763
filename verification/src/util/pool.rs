//! The sizing rules of the thread pools.
//!
//! A pool keeps a minimum of threads alive and lets the number grow under
//! load. The threads themselves live outside this library; here is what a
//! pool decides: whether a task needs a new thread, how long an idle
//! thread waits, and whether it ends when the wait is over.

use vstd::prelude::*;

verus! {

/// How an idle thread waits for work.
#[derive(Clone, Copy, Debug, PartialEq, Eq, Structural)]
pub enum Wait {
    /// Until work arrives.
    Forever,
    /// For so many seconds.
    Seconds(u64),
}

/// The pool that runs handlers: it grows up to a maximum.
#[derive(Clone, Copy, Debug, PartialEq, Eq, Structural)]
pub struct Pool {
    pub min_num: usize,
    pub max_num: usize,
}

impl Pool {
    /// A pool that keeps `min` threads and grows up to `max`.
    pub fn with_capacity(min: usize, max: usize) -> (pool: Pool)
        ensures
            pool == (Pool { min_num: min, max_num: max }),
    {
        Pool { min_num: min, max_num: max }
    }

    /// Whether a task that arrives is given a new thread: no thread is
    /// waiting for work, and the pool has not outgrown its maximum.
    pub fn should_grow(&self, waiting: usize, active: usize) -> (grow: bool)
        ensures
            grow == (waiting == 0 && active <= self.max_num),
    {
        waiting == 0 && active <= self.max_num
    }

    /// How a thread without work waits: without end while the pool is at
    /// its minimum, and for a minute above it.
    pub fn idle_wait(&self, active: usize) -> (wait: Wait)
        ensures
            wait == if active <= self.min_num {
                Wait::Forever
            } else {
                Wait::Seconds(60)
            },
    {
        if active <= self.min_num {
            Wait::Forever
        } else {
            Wait::Seconds(60)
        }
    }

    /// Whether a thread ends after a wait: the wait ran out, there is
    /// still no work, and the pool is above its minimum.
    pub fn should_retire(&self, timed_out: bool, queue_empty: bool, active: usize) -> (retire: bool)
        ensures
            retire == (timed_out && queue_empty && active > self.min_num),
    {
        timed_out && queue_empty && active > self.min_num
    }
}

/// The pool that runs tasks: every task that finds no waiting thread gets
/// a thread of its own.
#[derive(Clone, Copy, Debug, PartialEq, Eq, Structural)]
pub struct TaskPool {
    pub min_num: usize,
}

impl TaskPool {
    /// A pool that keeps `n` threads.
    pub fn with_capacity(n: usize) -> (pool: TaskPool)
        ensures
            pool == (TaskPool { min_num: n }),
    {
        TaskPool { min_num: n }
    }

    /// Whether a task that arrives is given a new thread rather than
    /// queued: no thread is waiting for work.
    pub fn should_grow(&self, waiting: usize) -> (grow: bool)
        ensures
            grow == (waiting == 0),
    {
        waiting == 0
    }

    /// How a thread without work waits: without end while the pool is at
    /// its minimum, and for ten seconds above it.
    pub fn idle_wait(&self, active: usize) -> (wait: Wait)
        ensures
            wait == if active <= self.min_num {
                Wait::Forever
            } else {
                Wait::Seconds(10)
            },
    {
        if active <= self.min_num {
            Wait::Forever
        } else {
            Wait::Seconds(10)
        }
    }

    /// Whether a thread ends after a wait: the wait ran out and there is
    /// still no work.
    pub fn should_retire(&self, timed_out: bool, queue_empty: bool) -> (retire: bool)
        ensures
            retire == (timed_out && queue_empty),
    {
        timed_out && queue_empty
    }
}

} // verus!
