//! The slot table of a worker.
//!
//! A worker keeps its connections in a table of fixed size; the number of
//! a slot is the token under which the connection is registered for
//! readiness. When the table is full the worker takes no further socket.

use vstd::prelude::*;
use crate::server::connection::{
    closed, consistent, flushed_view, parsed, progressed, received, responded, written,
    Connection, ConnectionView, Interest, ReadEnd, Session, State, WriteEnd,
};

verus! {

/// The number of slots that a worker has by default.
pub const DEFAULT_SLOTS: usize = 1024;

/// What the worker asks of the event loop.
#[derive(Debug, PartialEq, Eq)]
pub enum Order {
    /// Register the new socket under the number of the slot.
    Register { slot: usize, interest: Interest },
    /// Register the socket of the slot anew.
    Reregister { slot: usize, interest: Interest },
    /// Deregister the socket of the slot and shut it down.
    Close { slot: usize },
    /// Let the codec look at what the slot has read.
    Parse { slot: usize },
    /// Hand the request to a handler.
    Handle { slot: usize, request: Vec<u8> },
    /// Leave the new socket where it is: there is no room.
    Defer,
    /// Nothing.
    Nothing,
}

/// The number of slots among the first `n` that are taken.
pub open spec fn taken(slots: Seq<Option<Connection>>, n: int) -> nat
    decreases n,
{
    if n <= 0 {
        0
    } else {
        taken(slots, n - 1) + if slots[n - 1] is Some {
            1nat
        } else {
            0nat
        }
    }
}

pub proof fn lemma_taken_bound(slots: Seq<Option<Connection>>, n: int)
    requires
        0 <= n <= slots.len(),
    ensures
        taken(slots, n) <= n,
    decreases n,
{
    if n > 0 {
        lemma_taken_bound(slots, n - 1);
    }
}

/// Changing one slot changes the count by what that slot changes.
pub proof fn lemma_taken_update(slots: Seq<Option<Connection>>, at: int, to: Option<Connection>, n: int)
    requires
        0 <= at < slots.len(),
        0 <= n <= slots.len(),
    ensures
        taken(slots.update(at, to), n) + (if at < n && slots[at] is Some {
            1nat
        } else {
            0nat
        }) == taken(slots, n) + (if at < n && to is Some {
            1nat
        } else {
            0nat
        }),
    decreases n,
{
    if n > 0 {
        lemma_taken_update(slots, at, to, n - 1);
    }
}

/// A table whose first `n` slots are all taken has `n` taken slots.
pub proof fn lemma_taken_full(slots: Seq<Option<Connection>>, n: int)
    requires
        0 <= n <= slots.len(),
        forall|i: int| 0 <= i < n ==> (#[trigger] slots[i]) is Some,
    ensures
        taken(slots, n) == n,
    decreases n,
{
    if n > 0 {
        lemma_taken_full(slots, n - 1);
    }
}

pub struct Worker {
    slots: Vec<Option<Connection>>,
    active: usize,
    tls: bool,
}

impl Worker {
    /// The table.
    pub closed spec fn table(&self) -> Seq<Option<Connection>> {
        self.slots@
    }

    /// The number of connections, as the reactor sees it.
    pub closed spec fn load(&self) -> nat {
        self.active as nat
    }

    pub closed spec fn secure(&self) -> bool {
        self.tls
    }

    /// What holds of every worker: the load is the number of slots that
    /// are taken, and every connection in the table is consistent, of the
    /// worker's kind, and not closing.
    pub open spec fn wf(&self) -> bool {
        &&& self.load() == taken(self.table(), self.table().len() as int)
        &&& forall|i: int|
            0 <= i < self.table().len() ==> (#[trigger] self.table()[i] matches Some(c) ==> consistent(
                c@,
            ) && c@.tls == self.secure() && c@.state != State::Closing)
    }

    /// The slot as it is after a connection moved to the state `to`: the
    /// connection stays unless it is closing, in which case the slot is
    /// free again.
    pub open spec fn kept(&self, before: Worker, slot: int, to: ConnectionView) -> bool {
        &&& self.secure() == before.secure()
        &&& self.table().len() == before.table().len()
        &&& forall|i: int| 0 <= i < self.table().len() && i != slot ==> self.table()[i] == before.table()[i]
        &&& if to.state == State::Closing {
            self.table()[slot] is None && self.load() + 1 == before.load()
        } else {
            self.table()[slot] matches Some(c) && c@ == to && self.load() == before.load()
        }
    }

    /// A worker with `capacity` free slots.
    pub fn new(capacity: usize, tls: bool) -> (worker: Worker)
        ensures
            worker.wf(),
            worker.table().len() == capacity,
            worker.load() == 0,
            worker.secure() == tls,
            forall|i: int| 0 <= i < capacity ==> (#[trigger] worker.table()[i]) is None,
    {
        let mut slots: Vec<Option<Connection>> = Vec::new();
        let mut k: usize = 0;
        while k < capacity
            invariant
                k <= capacity,
                slots@.len() == k,
                forall|i: int| 0 <= i < k ==> (#[trigger] slots@[i]) is None,
                taken(slots@, k as int) == 0,
            decreases capacity - k,
        {
            let ghost shorter = slots@;
            slots.push(None);
            proof {
                lemma_same_prefix(slots@, shorter, k as int);
            }
            k += 1;
        }
        Worker { slots, active: 0, tls }
    }

    /// Whether the connections of this worker run over TLS.
    pub fn is_secure(&self) -> (tls: bool)
        ensures
            tls == self.secure(),
    {
        self.tls
    }

    pub fn capacity(&self) -> (n: usize)
        ensures
            n == self.table().len(),
    {
        self.slots.len()
    }

    /// The number of connections in the table.
    pub fn active(&self) -> (n: usize)
        ensures
            n == self.load(),
    {
        self.active
    }

    /// The connection in a slot.
    pub fn connection(&self, slot: usize) -> (c: Option<&Connection>)
        ensures
            match c {
                Some(c) => slot < self.table().len() && self.table()[slot as int] == Some(*c),
                None => slot >= self.table().len() || self.table()[slot as int] is None,
            },
    {
        if slot < self.slots.len() {
            self.slots[slot].as_ref()
        } else {
            None
        }
    }

    /// The first free slot.
    fn free_slot(&self) -> (slot: Option<usize>)
        ensures
            match slot {
                Some(i) => i < self.table().len() && self.table()[i as int] is None && forall|j: int|
                    0 <= j < i ==> (#[trigger] self.table()[j]) is Some,
                None => forall|j: int| 0 <= j < self.table().len() ==> (#[trigger] self.table()[j]) is Some,
            },
    {
        let mut k: usize = 0;
        while k < self.slots.len()
            invariant
                k <= self.slots@.len(),
                forall|j: int| 0 <= j < k ==> (#[trigger] self.slots@[j]) is Some,
            decreases self.slots@.len() - k,
        {
            if self.slots[k].is_none() {
                return Some(k);
            }
            k += 1;
        }
        None
    }

    /// Takes a new socket. It goes into the first free slot and is to be
    /// registered for reading under the number of that slot. With no free
    /// slot the socket is deferred and the worker stays as it is.
    pub fn accept(&mut self) -> (order: Order)
        requires
            old(self).wf(),
        ensures
            final(self).wf(),
            final(self).secure() == old(self).secure(),
            final(self).table().len() == old(self).table().len(),
            match order {
                Order::Register { slot, interest } => {
                    &&& slot < old(self).table().len()
                    &&& old(self).table()[slot as int] is None
                    &&& forall|j: int| 0 <= j < slot ==> (#[trigger] old(self).table()[j]) is Some
                    &&& interest == Interest::Read
                    &&& final(self).table()[slot as int] matches Some(c) && c@ == (ConnectionView {
                        state: State::Idle,
                        interest: Interest::Read,
                        tls: old(self).secure(),
                        handshaking: old(self).secure(),
                        read_buf: Seq::empty(),
                        write_buf: Seq::empty(),
                    })
                    &&& forall|i: int|
                        0 <= i < old(self).table().len() && i != slot ==> final(self).table()[i] == old(
                            self,
                        ).table()[i]
                    &&& final(self).load() == old(self).load() + 1
                },
                Order::Defer => {
                    &&& *final(self) == *old(self)
                    &&& old(self).load() == old(self).table().len()
                },
                _ => false,
            },
    {
        match self.free_slot() {
            Some(slot) => {
                let c = Connection::new(self.tls);
                proof {
                    lemma_taken_update(self.slots@, slot as int, Some(c), self.slots@.len() as int);
                    lemma_taken_bound(
                        self.slots@.update(slot as int, Some(c)),
                        self.slots@.len() as int,
                    );
                    assert(self.active == taken(self.slots@, self.slots@.len() as int));
                    assert(self.active + 1 <= self.slots@.len());
                }
                let capacity = self.slots.len();
                assert(self.active < capacity);
                self.slots.set(slot, Some(c));
                self.active = self.active + 1;
                Order::Register { slot, interest: Interest::Read }
            },
            None => {
                proof {
                    lemma_taken_full(self.slots@, self.slots@.len() as int);
                }
                Order::Defer
            },
        }
    }

    /// The connection in a slot, as plain values.
    pub open spec fn occupant(&self, slot: usize) -> Option<ConnectionView> {
        if slot < self.table().len() {
            match self.table()[slot as int] {
                Some(c) => Some(c@),
                None => None,
            }
        } else {
            None
        }
    }

    /// Takes the connection out of its slot.
    fn take(&mut self, slot: usize) -> (c: Option<Connection>)
        ensures
            final(self).tls == old(self).tls,
            final(self).active == old(self).active,
            match c {
                Some(c) => slot < old(self).slots@.len() && old(self).slots@[slot as int] == Some(c)
                    && final(self).slots@ == old(self).slots@.update(slot as int, None),
                None => *final(self) == *old(self) && old(self).occupant(slot) is None,
            },
    {
        if slot >= self.slots.len() || self.slots[slot].is_none() {
            return None;
        }
        self.slots.push(None);
        let c = self.slots.swap_remove(slot);
        assert(self.slots@ =~= old(self).slots@.update(slot as int, None));
        c
    }

    /// Puts a connection back after it moved on, unless it is closing.
    fn put(&mut self, Ghost(before): Ghost<Worker>, slot: usize, c: Connection)
        requires
            before.wf(),
            slot < before.slots@.len(),
            before.slots@[slot as int] is Some,
            old(self).slots@ == before.slots@.update(slot as int, None),
            old(self).active == before.active,
            old(self).tls == before.tls,
            consistent(c@),
            c@.tls == before.tls,
        ensures
            final(self).wf(),
            final(self).kept(before, slot as int, c@),
    {
        let n = self.slots.len();
        proof {
            lemma_taken_update(before.slots@, slot as int, None, n as int);
            lemma_taken_update(self.slots@, slot as int, Some(c), n as int);
        }
        if c.closing() {
            self.active = self.active - 1;
        } else {
            self.slots.set(slot, Some(c));
        }
    }

    /// What draining the socket of a plain connection brought. The
    /// connection takes the bytes in; the codec is to look at them next,
    /// unless the connection closes.
    pub fn readable(&mut self, slot: usize, bytes: &[u8], end: ReadEnd) -> (order: Order)
        requires
            old(self).wf(),
            !old(self).secure(),
        ensures
            final(self).wf(),
            match old(self).occupant(slot) {
                Some(c) => {
                    let to = received(c, bytes@, end);
                    &&& final(self).kept(*old(self), slot as int, to)
                    &&& order == if to.state == State::Closing {
                        Order::Close { slot }
                    } else {
                        Order::Parse { slot }
                    }
                },
                None => *final(self) == *old(self) && order == Order::Nothing,
            },
    {
        let ghost before = *self;
        match self.take(slot) {
            Some(mut c) => {
                c.receive(bytes, end);
                let order = if c.closing() {
                    Order::Close { slot }
                } else {
                    Order::Parse { slot }
                };
                self.put(Ghost(before), slot, c);
                order
            },
            None => Order::Nothing,
        }
    }

    /// What the codec made of what a connection has read. A complete
    /// request goes to a handler; for an incomplete one the connection
    /// waits on.
    pub fn parsed(&mut self, slot: usize, complete: bool) -> (order: Order)
        requires
            old(self).wf(),
        ensures
            final(self).wf(),
            match old(self).occupant(slot) {
                Some(c) => {
                    let to = parsed(c, complete);
                    &&& final(self).kept(*old(self), slot as int, to)
                    &&& if c.state == State::Reading && complete {
                        order matches Order::Handle { slot: s, request } && s == slot && request@
                            == c.read_buf
                    } else if to.interest == Interest::Nothing {
                        order == Order::Nothing
                    } else {
                        order == (Order::Reregister { slot, interest: to.interest })
                    }
                },
                None => *final(self) == *old(self) && order == Order::Nothing,
            },
    {
        let ghost before = *self;
        match self.take(slot) {
            Some(mut c) => {
                let request = c.parse(complete);
                let interest = c.interest();
                self.put(Ghost(before), slot, c);
                match request {
                    Some(request) => Order::Handle { slot, request },
                    None => if interest == Interest::Nothing {
                        Order::Nothing
                    } else {
                        Order::Reregister { slot, interest }
                    },
                }
            },
            None => Order::Nothing,
        }
    }

    /// The response of a handler. The connection is registered anew, for
    /// writing.
    pub fn responded(&mut self, slot: usize, response: &[u8]) -> (order: Order)
        requires
            old(self).wf(),
        ensures
            final(self).wf(),
            match old(self).occupant(slot) {
                Some(c) => {
                    &&& final(self).kept(*old(self), slot as int, responded(c, response@))
                    &&& order == if c.state == State::Handling {
                        Order::Reregister { slot, interest: Interest::Write }
                    } else {
                        Order::Nothing
                    }
                },
                None => *final(self) == *old(self) && order == Order::Nothing,
            },
    {
        let ghost before = *self;
        match self.take(slot) {
            Some(mut c) => {
                let handled = c.state() == State::Handling;
                c.respond(response);
                self.put(Ghost(before), slot, c);
                if handled {
                    Order::Reregister { slot, interest: Interest::Write }
                } else {
                    Order::Nothing
                }
            },
            None => Order::Nothing,
        }
    }

    /// How a write ended. A connection that is drained reads again, one
    /// that is not writes on, and one that failed closes.
    pub fn writable(&mut self, slot: usize, end: WriteEnd) -> (order: Order)
        requires
            old(self).wf(),
        ensures
            final(self).wf(),
            match old(self).occupant(slot) {
                Some(c) => {
                    let to = written(c, end);
                    &&& final(self).kept(*old(self), slot as int, to)
                    &&& order == if to.state == State::Closing {
                        Order::Close { slot }
                    } else {
                        Order::Reregister { slot, interest: to.interest }
                    }
                },
                None => *final(self) == *old(self) && order == Order::Nothing,
            },
    {
        let ghost before = *self;
        match self.take(slot) {
            Some(mut c) => {
                c.wrote(end);
                let order = if c.closing() {
                    Order::Close { slot }
                } else {
                    Order::Reregister { slot, interest: c.interest() }
                };
                self.put(Ghost(before), slot, c);
                order
            },
            None => Order::Nothing,
        }
    }

    /// How a write of the TLS session of a connection ended. The
    /// connection waits on for what the session wants, or closes.
    pub fn flushed(&mut self, slot: usize, end: WriteEnd, session: Session) -> (order: Order)
        requires
            old(self).wf(),
            old(self).secure(),
        ensures
            final(self).wf(),
            match old(self).occupant(slot) {
                Some(c) => {
                    let to = flushed_view(c, end, session);
                    &&& final(self).kept(*old(self), slot as int, to)
                    &&& order == if to.state == State::Closing {
                        Order::Close { slot }
                    } else if to.interest == Interest::Nothing {
                        Order::Nothing
                    } else {
                        Order::Reregister { slot, interest: to.interest }
                    }
                },
                None => *final(self) == *old(self) && order == Order::Nothing,
            },
    {
        let ghost before = *self;
        match self.take(slot) {
            Some(mut c) => {
                c.flushed(end, session);
                let order = if c.closing() {
                    Order::Close { slot }
                } else if c.interest() == Interest::Nothing {
                    Order::Nothing
                } else {
                    Order::Reregister { slot, interest: c.interest() }
                };
                self.put(Ghost(before), slot, c);
                order
            },
            None => Order::Nothing,
        }
    }

    /// What driving the TLS session of a connection brought. Plain text
    /// that arrived is for the codec to look at; otherwise the connection
    /// waits for what the session wants.
    pub fn session(&mut self, slot: usize, end: ReadEnd, session: Session, plain: &[u8]) -> (order: Order)
        requires
            old(self).wf(),
            old(self).secure(),
        ensures
            final(self).wf(),
            match old(self).occupant(slot) {
                Some(c) => {
                    let to = progressed(c, end, session, plain@);
                    &&& final(self).kept(*old(self), slot as int, to)
                    &&& order == if to.state == State::Closing {
                        Order::Close { slot }
                    } else if to.state == State::Reading {
                        Order::Parse { slot }
                    } else if to.interest == Interest::Nothing {
                        Order::Nothing
                    } else {
                        Order::Reregister { slot, interest: to.interest }
                    }
                },
                None => *final(self) == *old(self) && order == Order::Nothing,
            },
    {
        let ghost before = *self;
        match self.take(slot) {
            Some(mut c) => {
                c.progress(end, session, plain);
                let order = if c.closing() {
                    Order::Close { slot }
                } else if c.state() == State::Reading {
                    Order::Parse { slot }
                } else if c.interest() == Interest::Nothing {
                    Order::Nothing
                } else {
                    Order::Reregister { slot, interest: c.interest() }
                };
                self.put(Ghost(before), slot, c);
                order
            },
            None => Order::Nothing,
        }
    }

    /// An error or a hang-up on the socket of a slot: the connection
    /// closes and the slot is free again.
    pub fn failed(&mut self, slot: usize) -> (order: Order)
        requires
            old(self).wf(),
        ensures
            final(self).wf(),
            match old(self).occupant(slot) {
                Some(c) => final(self).kept(*old(self), slot as int, closed(c)) && order == (Order::Close {
                    slot,
                }),
                None => *final(self) == *old(self) && order == Order::Nothing,
            },
    {
        let ghost before = *self;
        match self.take(slot) {
            Some(mut c) => {
                c.close();
                self.put(Ghost(before), slot, c);
                Order::Close { slot }
            },
            None => Order::Nothing,
        }
    }
}

pub proof fn lemma_same_prefix(a: Seq<Option<Connection>>, b: Seq<Option<Connection>>, n: int)
    requires
        0 <= n <= a.len(),
        n <= b.len(),
        forall|i: int| 0 <= i < n ==> a[i] == b[i],
    ensures
        taken(a, n) == taken(b, n),
    decreases n,
{
    if n > 0 {
        lemma_same_prefix(a, b, n - 1);
    }
}

} // verus!
