//! A minimal HTTP/1.1 application framework: routing, a middleware pipeline,
//! request and response values, a multipart decoder, the decisions of a
//! non-blocking connection layer, and the FastCGI wire format.

pub mod app;
pub mod error;
pub mod fastcgi;
pub mod http;
pub mod server;
pub mod text;
pub mod util;

pub use self::app::App;
pub use self::error::Error;
