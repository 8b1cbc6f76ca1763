//! The application: routes, groups, middleware and dispatch.

pub mod application;
pub mod context;
pub mod declared;
pub mod dispatch;
pub mod group;
pub mod matcher;
pub mod middleware;
pub mod pattern;
pub mod route;
pub mod walk;

pub use self::application::App;
pub use self::context::{Context, Handler};
pub use self::group::Group;
pub use self::route::Route;
