//! HTTP message values.

pub mod client;
pub mod media;
pub mod method;
pub mod multipart;
pub mod read_back;
pub mod request;
pub mod response;
pub mod round_trip;
pub mod status;
pub mod wire;
