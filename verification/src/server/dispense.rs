//! Which worker takes the next socket.
//!
//! The reactor hands each accepted socket to one worker. It either takes
//! the workers in turn or picks the one with the fewest connections. A
//! worker whose table is full is passed over; when all are full the socket
//! has to wait.

use vstd::prelude::*;

verus! {

#[derive(Clone, Copy, Debug, PartialEq, Eq, Structural)]
pub enum Policy {
    /// The workers in turn.
    RoundRobin,
    /// The worker with the fewest connections.
    LeastActive,
}

pub struct Dispenser {
    policy: Policy,
    /// The worker whose turn it is.
    next: usize,
}

/// The worker that stands `k` places after `from` in a ring of `n`.
pub open spec fn ahead(from: int, k: int, n: int) -> int {
    if from + k < n {
        from + k
    } else {
        from + k - n
    }
}

/// Whether a worker has room.
pub open spec fn has_room(loads: Seq<usize>, capacity: usize, worker: int) -> bool {
    0 <= worker < loads.len() && loads[worker] < capacity
}

/// Whether `worker` is the first worker with room, `k` places after
/// `from`.
pub open spec fn is_turn(loads: Seq<usize>, capacity: usize, from: int, k: int, worker: int) -> bool {
    &&& 0 <= k < loads.len()
    &&& worker == ahead(from, k, loads.len() as int)
    &&& has_room(loads, capacity, worker)
    &&& forall|j: int| 0 <= j < k ==> !has_room(loads, capacity, #[trigger] ahead(from, j, loads.len() as int))
}

/// Whether `worker` is the first among the workers with the fewest
/// connections.
pub open spec fn is_least(loads: Seq<usize>, worker: int) -> bool {
    &&& 0 <= worker < loads.len()
    &&& forall|j: int| 0 <= j < loads.len() ==> loads[worker] <= #[trigger] loads[j]
    &&& forall|j: int| 0 <= j < worker ==> loads[worker] < #[trigger] loads[j]
}

impl Dispenser {
    pub closed spec fn policy(&self) -> Policy {
        self.policy
    }

    /// The worker whose turn it is.
    pub closed spec fn turn(&self) -> usize {
        self.next
    }

    /// Where the turn starts among `n` workers.
    pub open spec fn start(&self, n: int) -> int {
        if self.turn() < n {
            self.turn() as int
        } else {
            0
        }
    }

    pub fn new(policy: Policy) -> (d: Dispenser)
        ensures
            d.policy() == policy,
            d.turn() == 0,
    {
        Dispenser { policy, next: 0 }
    }

    /// Picks the worker for a socket, given the number of connections of
    /// each worker and the size of their tables.
    ///
    /// In turn: the first worker with room, starting with the one whose
    /// turn it is; the turn then passes to the worker after it. By load:
    /// the first of the workers with the fewest connections, if it has
    /// room. `None` means that no worker has room.
    pub fn pick(&mut self, loads: &[usize], capacity: usize) -> (worker: Option<usize>)
        ensures
            final(self).policy() == old(self).policy(),
            match worker {
                Some(w) => {
                    &&& has_room(loads@, capacity, w as int)
                    &&& match old(self).policy() {
                        Policy::RoundRobin => {
                            &&& exists|k: int|
                                is_turn(loads@, capacity, old(self).start(loads@.len() as int), k, w as int)
                            &&& final(self).turn() == ahead(w as int, 1, loads@.len() as int)
                        },
                        Policy::LeastActive => is_least(loads@, w as int) && final(self).turn() == old(
                            self,
                        ).turn(),
                    }
                },
                None => {
                    &&& forall|j: int| 0 <= j < loads@.len() ==> !has_room(loads@, capacity, j)
                    &&& final(self).turn() == old(self).turn()
                },
            },
    {
        let n = loads.len();
        if n == 0 {
            return None;
        }
        match self.policy {
            Policy::RoundRobin => {
                let from = if self.next < n {
                    self.next
                } else {
                    0
                };
                let mut k: usize = 0;
                while k < n
                    invariant
                        n == loads@.len(),
                        from < n,
                        k <= n,
                        from == old(self).start(n as int),
                        *self == *old(self),
                        self.policy == Policy::RoundRobin,
                        forall|j: int|
                            0 <= j < k ==> !has_room(loads@, capacity, #[trigger] ahead(from as int, j, n as int)),
                    decreases n - k,
                {
                    let w = if k < n - from {
                        from + k
                    } else {
                        k - (n - from)
                    };
                    assert(w == ahead(from as int, k as int, n as int));
                    if loads[w] < capacity {
                        self.next = if w + 1 < n {
                            w + 1
                        } else {
                            0
                        };
                        assert(is_turn(
                            loads@,
                            capacity,
                            old(self).start(loads@.len() as int),
                            k as int,
                            w as int,
                        ));
                        assert(self.policy() == old(self).policy());
                        assert(self.turn() == ahead(w as int, 1, loads@.len() as int));
                        return Some(w);
                    }
                    k += 1;
                }
                assert forall|j: int| 0 <= j < n implies !has_room(loads@, capacity, j) by {
                    let k = if j >= from {
                        j - from
                    } else {
                        j + n - from
                    };
                    assert(ahead(from as int, k, n as int) == j);
                }
                None
            },
            Policy::LeastActive => {
                let mut best: usize = 0;
                let mut k: usize = 1;
                while k < n
                    invariant
                        n == loads@.len(),
                        best < k <= n,
                        *self == *old(self),
                        forall|j: int| 0 <= j < k ==> loads@[best as int] <= #[trigger] loads@[j],
                        forall|j: int| 0 <= j < best ==> loads@[best as int] < #[trigger] loads@[j],
                    decreases n - k,
                {
                    if loads[k] < loads[best] {
                        best = k;
                    }
                    k += 1;
                }
                if loads[best] < capacity {
                    Some(best)
                } else {
                    None
                }
            },
        }
    }
}

/// While every worker has room, workers are taken strictly in turn: the
/// pick is the worker whose turn it is.
pub proof fn law_round_robin_takes_turns(loads: Seq<usize>, capacity: usize, from: int, k: int, worker: int)
    requires
        0 <= from < loads.len(),
        forall|j: int| 0 <= j < loads.len() ==> has_room(loads, capacity, j),
        is_turn(loads, capacity, from, k, worker),
    ensures
        worker == from,
{
    if k > 0 {
        assert(has_room(loads, capacity, ahead(from, 0, loads.len() as int)));
    }
}

/// There is one pick in turn at most.
pub proof fn law_turn_is_unique(loads: Seq<usize>, capacity: usize, from: int, k: int, worker: int, l: int, other: int)
    requires
        is_turn(loads, capacity, from, k, worker),
        is_turn(loads, capacity, from, l, other),
    ensures
        k == l,
        worker == other,
{
    if k < l {
        assert(!has_room(loads, capacity, ahead(from, k, loads.len() as int)));
    }
    if l < k {
        assert(!has_room(loads, capacity, ahead(from, l, loads.len() as int)));
    }
}

} // verus!
