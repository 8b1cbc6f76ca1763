//! The decisions of the connection layer: which worker takes a socket,
//! where a connection is kept, and what a connection does next.

pub mod connection;
pub mod dispense;
pub mod fault;
pub mod tls;
pub mod worker;
