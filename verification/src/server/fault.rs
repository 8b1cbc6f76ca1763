//! What is done about a failure.
//!
//! Failures are told apart by where they arise, and each kind has one
//! answer. Only status codes ever reach the client.

use vstd::prelude::*;

verus! {

/// Where a failure arises.
#[derive(Clone, Copy, Debug, PartialEq, Eq, Structural)]
pub enum Fault {
    /// At start-up: a pattern that cannot be registered, a certificate
    /// that cannot be read.
    Registration,
    /// On a connection: a reset, a failed TLS handshake.
    Transport,
    /// In a request that is larger than the codec takes.
    Oversized,
    /// In a request that is no well-formed HTTP.
    Protocol,
    /// In a handler that panics.
    Application,
    /// In dispatch: no route matches.
    NoRoute,
    /// In the body of a request: JSON or form data that does not parse.
    Body,
}

/// What is done.
#[derive(Clone, Copy, Debug, PartialEq, Eq, Structural)]
pub enum Reaction {
    /// The program stops.
    Fatal,
    /// The connection is closed without an answer.
    Close,
    /// The client gets a response with this status.
    Respond(u16),
    /// The handler is told, and decides.
    Surface,
}

pub open spec fn reaction_to(fault: Fault) -> Reaction {
    match fault {
        Fault::Registration => Reaction::Fatal,
        Fault::Transport | Fault::Oversized => Reaction::Close,
        Fault::Protocol => Reaction::Respond(501),
        Fault::Application => Reaction::Respond(500),
        Fault::NoRoute => Reaction::Respond(404),
        Fault::Body => Reaction::Surface,
    }
}

/// The answer to a failure of the given kind.
pub fn react(fault: Fault) -> (reaction: Reaction)
    ensures
        reaction == reaction_to(fault),
{
    match fault {
        Fault::Registration => Reaction::Fatal,
        Fault::Transport | Fault::Oversized => Reaction::Close,
        Fault::Protocol => Reaction::Respond(501),
        Fault::Application => Reaction::Respond(500),
        Fault::NoRoute => Reaction::Respond(404),
        Fault::Body => Reaction::Surface,
    }
}

} // verus!
