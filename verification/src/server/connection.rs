//! The state of one connection.
//!
//! A connection reads a request, has it handled, and writes the response;
//! then it reads again. What the socket and the TLS session did is told to
//! it as an event; it answers with its next state. Which readiness it
//! waits for follows from the state.

use vstd::prelude::*;

verus! {

/// The readiness that a connection waits for.
#[derive(Clone, Copy, Debug, PartialEq, Eq, Structural)]
pub enum Interest {
    Nothing,
    Read,
    Write,
    ReadWrite,
}

#[derive(Clone, Copy, Debug, PartialEq, Eq, Structural)]
pub enum State {
    /// Nothing has arrived yet.
    Idle,
    /// Part of a request has arrived.
    Reading,
    /// A request is with its handler.
    Handling,
    /// A response is on its way out.
    Writing,
    /// The connection is to be shut down.
    Closing,
}

/// How draining a socket ended.
#[derive(Clone, Copy, Debug, PartialEq, Eq, Structural)]
pub enum ReadEnd {
    /// The socket has no more for now.
    WouldBlock,
    /// The peer closed the connection.
    Eof,
    /// The socket failed.
    Failed,
}

/// How a write ended.
#[derive(Clone, Copy, Debug, PartialEq, Eq, Structural)]
pub enum WriteEnd {
    /// So many bytes were taken.
    Wrote(usize),
    /// The socket failed, or took nothing.
    Failed,
}

/// What a TLS session reports after it was driven.
#[derive(Clone, Copy, Debug, PartialEq, Eq, Structural)]
pub struct Session {
    /// Whether the session is still sound.
    pub ok: bool,
    /// Whether it wants to read from the socket.
    pub wants_read: bool,
    /// Whether it wants to write to the socket.
    pub wants_write: bool,
}

/// The readiness that a plain connection waits for in a state.
pub open spec fn interest_in(state: State) -> Interest {
    match state {
        State::Idle | State::Reading => Interest::Read,
        State::Writing => Interest::Write,
        State::Handling | State::Closing => Interest::Nothing,
    }
}

/// The readiness that a TLS session asks for: what it wants, and reading
/// where it wants nothing.
pub open spec fn session_interest(session: Session) -> Interest {
    if session.wants_read && session.wants_write {
        Interest::ReadWrite
    } else if session.wants_write {
        Interest::Write
    } else {
        Interest::Read
    }
}

pub struct Connection {
    state: State,
    interest: Interest,
    tls: bool,
    handshaking: bool,
    read_buf: Vec<u8>,
    write_buf: Vec<u8>,
}

/// A `Connection` as plain values.
pub struct ConnectionView {
    pub state: State,
    pub interest: Interest,
    pub tls: bool,
    pub handshaking: bool,
    pub read_buf: Seq<u8>,
    pub write_buf: Seq<u8>,
}

impl View for Connection {
    type V = ConnectionView;

    closed spec fn view(&self) -> ConnectionView {
        ConnectionView {
            state: self.state,
            interest: self.interest,
            tls: self.tls,
            handshaking: self.handshaking,
            read_buf: self.read_buf@,
            write_buf: self.write_buf@,
        }
    }
}

/// What holds of every connection: a plain connection waits for what its
/// state asks for and never shakes hands; a TLS connection waits for
/// nothing while its request is handled or it is closing, and for
/// something otherwise; only a connection that has seen no request yet
/// shakes hands.
pub open spec fn consistent(c: ConnectionView) -> bool {
    &&& !c.tls ==> c.interest == interest_in(c.state) && !c.handshaking
    &&& c.tls ==> (c.interest == Interest::Nothing <==> (c.state == State::Handling || c.state
        == State::Closing))
    &&& c.handshaking ==> c.state == State::Idle
}

/// The connection closed: nothing is waited for, and what was buffered is
/// dropped.
pub open spec fn closed(c: ConnectionView) -> ConnectionView {
    ConnectionView {
        state: State::Closing,
        interest: Interest::Nothing,
        handshaking: false,
        read_buf: Seq::empty(),
        write_buf: Seq::empty(),
        ..c
    }
}

/// A plain connection after its socket was drained: the bytes are added
/// to what was read, unless the socket failed or the peer is gone, which
/// closes the connection.
pub open spec fn received(c: ConnectionView, bytes: Seq<u8>, end: ReadEnd) -> ConnectionView {
    if end != ReadEnd::WouldBlock || c.state == State::Closing {
        closed(c)
    } else if c.state == State::Idle || c.state == State::Reading {
        ConnectionView { state: State::Reading, read_buf: c.read_buf + bytes, ..c }
    } else {
        ConnectionView { read_buf: c.read_buf + bytes, ..c }
    }
}

/// A connection after the codec looked at what was read. A complete
/// request goes to its handler, and the connection waits for nothing until
/// the response is there; an incomplete one waits for more.
pub open spec fn parsed(c: ConnectionView, complete: bool) -> ConnectionView {
    if c.state == State::Reading && complete {
        ConnectionView { state: State::Handling, interest: Interest::Nothing, read_buf: Seq::empty(), ..c }
    } else {
        c
    }
}

/// A connection after its handler finished: the response is to be
/// written.
pub open spec fn responded(c: ConnectionView, response: Seq<u8>) -> ConnectionView {
    if c.state == State::Handling {
        ConnectionView {
            state: State::Writing,
            interest: Interest::Write,
            write_buf: c.write_buf + response,
            ..c
        }
    } else {
        c
    }
}

/// A plain connection after a write. What was taken leaves the buffer;
/// once it is drained the connection reads again. A failed write closes
/// the connection, and the response is dropped.
pub open spec fn written(c: ConnectionView, end: WriteEnd) -> ConnectionView {
    match end {
        WriteEnd::Wrote(n) => if c.state != State::Writing || n == 0 || n > c.write_buf.len() {
            closed(c)
        } else if n == c.write_buf.len() {
            ConnectionView {
                state: State::Idle,
                interest: if c.tls {
                    Interest::Read
                } else {
                    interest_in(State::Idle)
                },
                write_buf: Seq::empty(),
                ..c
            }
        } else {
            ConnectionView { write_buf: c.write_buf.subrange(n as int, c.write_buf.len() as int), ..c }
        },
        WriteEnd::Failed => closed(c),
    }
}

/// A TLS connection after its session was driven with what the socket
/// had. A failed socket, a peer that is gone and a session that is no
/// longer sound close the connection. Otherwise the plain text that the
/// session hands out is added to what was read, which ends the handshake
/// if there is any, and the connection waits for what the session wants.
pub open spec fn progressed(c: ConnectionView, end: ReadEnd, session: Session, plain: Seq<u8>) -> ConnectionView {
    if end != ReadEnd::WouldBlock || !session.ok || c.state == State::Closing {
        closed(c)
    } else if c.state == State::Handling {
        ConnectionView { read_buf: c.read_buf + plain, ..c }
    } else if plain.len() > 0 && c.state != State::Writing {
        ConnectionView {
            state: State::Reading,
            interest: session_interest(session),
            handshaking: false,
            read_buf: c.read_buf + plain,
            ..c
        }
    } else {
        ConnectionView {
            interest: session_interest(session),
            read_buf: c.read_buf + plain,
            ..c
        }
    }
}

/// A TLS connection after its session wrote to the socket. A failed
/// write, a write that took nothing and a session that is no longer sound
/// close the connection. Otherwise the connection waits for what the
/// session wants; once the session has nothing more to write, a response
/// that was on its way is out, and the connection is idle again.
pub open spec fn flushed_view(c: ConnectionView, end: WriteEnd, session: Session) -> ConnectionView {
    if end == WriteEnd::Failed || end == WriteEnd::Wrote(0) || !session.ok || c.state
        == State::Closing {
        closed(c)
    } else if c.state == State::Handling {
        c
    } else if c.state == State::Writing && !session.wants_write {
        ConnectionView {
            state: State::Idle,
            interest: session_interest(session),
            write_buf: Seq::empty(),
            ..c
        }
    } else {
        ConnectionView { interest: session_interest(session), ..c }
    }
}

impl Connection {
    /// A fresh connection: it waits to read. A TLS connection starts with
    /// the handshake.
    pub fn new(tls: bool) -> (c: Connection)
        ensures
            c@ == (ConnectionView {
                state: State::Idle,
                interest: Interest::Read,
                tls,
                handshaking: tls,
                read_buf: Seq::empty(),
                write_buf: Seq::empty(),
            }),
            consistent(c@),
    {
        Connection {
            state: State::Idle,
            interest: Interest::Read,
            tls,
            handshaking: tls,
            read_buf: Vec::new(),
            write_buf: Vec::new(),
        }
    }

    pub fn state(&self) -> (state: State)
        ensures
            state == self@.state,
    {
        self.state
    }

    pub fn interest(&self) -> (interest: Interest)
        ensures
            interest == self@.interest,
    {
        self.interest
    }

    /// Whether the connection is to be shut down.
    pub fn closing(&self) -> (closing: bool)
        ensures
            closing == (self@.state == State::Closing),
    {
        self.state == State::Closing
    }

    pub fn handshaking(&self) -> (handshaking: bool)
        ensures
            handshaking == self@.handshaking,
    {
        self.handshaking
    }

    pub fn is_tls(&self) -> (tls: bool)
        ensures
            tls == self@.tls,
    {
        self.tls
    }

    /// What was read and not handled yet.
    pub fn read_buf(&self) -> (buf: &Vec<u8>)
        ensures
            buf@ == self@.read_buf,
    {
        &self.read_buf
    }

    /// What is to be written.
    pub fn write_buf(&self) -> (buf: &Vec<u8>)
        ensures
            buf@ == self@.write_buf,
    {
        &self.write_buf
    }

    /// Closes the connection.
    pub fn close(&mut self)
        ensures
            final(self)@ == closed(old(self)@),
            consistent(final(self)@),
    {
        self.state = State::Closing;
        self.interest = Interest::Nothing;
        self.handshaking = false;
        self.read_buf = Vec::new();
        self.write_buf = Vec::new();
    }

    /// Takes in what draining the socket of a plain connection brought.
    pub fn receive(&mut self, bytes: &[u8], end: ReadEnd)
        requires
            consistent(old(self)@),
            !old(self)@.tls,
        ensures
            final(self)@ == received(old(self)@, bytes@, end),
            consistent(final(self)@),
    {
        if end != ReadEnd::WouldBlock || self.state == State::Closing {
            self.close();
        } else {
            self.read_buf.extend_from_slice(bytes);
            if self.state == State::Idle {
                self.state = State::Reading;
            }
            assert(self@.read_buf == old(self)@.read_buf + bytes@);
        }
    }

    /// Takes in what the codec made of what was read. With a complete
    /// request the result is the request's bytes, which go to the handler.
    pub fn parse(&mut self, complete: bool) -> (request: Option<Vec<u8>>)
        requires
            consistent(old(self)@),
        ensures
            final(self)@ == parsed(old(self)@, complete),
            consistent(final(self)@),
            match request {
                Some(bytes) => old(self)@.state == State::Reading && complete && bytes@ == old(
                    self,
                )@.read_buf,
                None => !(old(self)@.state == State::Reading && complete),
            },
    {
        if self.state == State::Reading && complete {
            let mut bytes: Vec<u8> = Vec::new();
            core::mem::swap(&mut self.read_buf, &mut bytes);
            self.state = State::Handling;
            self.interest = Interest::Nothing;
            Some(bytes)
        } else {
            None
        }
    }

    /// Takes in the response of the handler.
    pub fn respond(&mut self, response: &[u8])
        requires
            consistent(old(self)@),
        ensures
            final(self)@ == responded(old(self)@, response@),
            consistent(final(self)@),
    {
        if self.state == State::Handling {
            self.write_buf.extend_from_slice(response);
            self.state = State::Writing;
            self.interest = Interest::Write;
            assert(self@.write_buf == old(self)@.write_buf + response@);
        }
    }

    /// Takes in how a write of the write buffer ended.
    pub fn wrote(&mut self, end: WriteEnd)
        requires
            consistent(old(self)@),
        ensures
            final(self)@ == written(old(self)@, end),
            consistent(final(self)@),
    {
        match end {
            WriteEnd::Wrote(n) => {
                if self.state != State::Writing || n == 0 || n > self.write_buf.len() {
                    self.close();
                } else if n == self.write_buf.len() {
                    self.write_buf = Vec::new();
                    self.state = State::Idle;
                    self.interest = Interest::Read;
                } else {
                    let rest = self.write_buf.split_off(n);
                    self.write_buf = rest;
                }
            },
            WriteEnd::Failed => {
                self.close();
            },
        }
    }

    /// Takes in how a write of the TLS session to the socket ended, and
    /// what the session wants then.
    pub fn flushed(&mut self, end: WriteEnd, session: Session)
        requires
            consistent(old(self)@),
            old(self)@.tls,
        ensures
            final(self)@ == flushed_view(old(self)@, end, session),
            consistent(final(self)@),
    {
        let failed = match end {
            WriteEnd::Failed => true,
            WriteEnd::Wrote(n) => n == 0,
        };
        if failed || !session.ok || self.state == State::Closing {
            self.close();
        } else if self.state != State::Handling {
            self.interest = select_interest(session);
            if self.state == State::Writing && !session.wants_write {
                self.state = State::Idle;
                self.write_buf = Vec::new();
            }
        }
    }

    /// Takes in what driving the TLS session brought.
    pub fn progress(&mut self, end: ReadEnd, session: Session, plain: &[u8])
        requires
            consistent(old(self)@),
            old(self)@.tls,
        ensures
            final(self)@ == progressed(old(self)@, end, session, plain@),
            consistent(final(self)@),
    {
        if end != ReadEnd::WouldBlock || !session.ok || self.state == State::Closing {
            self.close();
        } else {
            self.read_buf.extend_from_slice(plain);
            if self.state != State::Handling {
                self.interest = select_interest(session);
                if plain.len() > 0 && self.state != State::Writing {
                    self.state = State::Reading;
                    self.handshaking = false;
                }
            }
            assert(self@.read_buf == old(self)@.read_buf + plain@);
        }
    }
}

/// Picks the readiness to wait for from what a TLS session wants.
pub fn select_interest(session: Session) -> (interest: Interest)
    ensures
        interest == session_interest(session),
        interest != Interest::Nothing,
{
    if session.wants_read && session.wants_write {
        Interest::ReadWrite
    } else if session.wants_write {
        Interest::Write
    } else {
        Interest::Read
    }
}

} // verus!
