//! A group: routes under a common prefix, with middleware of their own.

use vstd::prelude::*;
use vstd::string::*;
use crate::app::middleware::Middleware;
use crate::app::route::{accepted, refusal, Route};
use crate::error::Result;
use crate::http::method::Method;

verus! {

pub struct Group<H> {
    routes: Vec<Route<H>>,
    prefix: String,
    before: Vec<Middleware<H>>,
    after: Vec<Middleware<H>>,
}

/// What a successful registration leaves: the group as it was, with one
/// more route at the end of its list. The route stands for `method` and for
/// the pattern behind the group's prefix, and has no middleware yet.
pub open spec fn registered<H>(
    before: Group<H>,
    after: Group<H>,
    route: Route<H>,
    last: Route<H>,
    method: Method,
    pattern: Seq<char>,
    handle: H,
) -> bool {
    &&& accepted(before.prefix_text() + pattern)
    &&& route.wf()
    &&& route.pattern_text() == before.prefix_text() + pattern
    &&& route.verb() == method
    &&& route.handler() == handle
    &&& route.before_list().len() == 0
    &&& route.after_list().len() == 0
    &&& after.route_list() == before.route_list().push(last)
    &&& after.prefix_text() == before.prefix_text()
    &&& after.before_list() == before.before_list()
    &&& after.after_list() == before.after_list()
}

impl<H> Group<H> {
    /// The routes, in the order in which they were registered.
    pub closed spec fn route_list(&self) -> Seq<Route<H>> {
        self.routes@
    }

    /// The prefix that stands before every pattern of the group.
    pub closed spec fn prefix_text(&self) -> Seq<char> {
        self.prefix@
    }

    pub closed spec fn before_list(&self) -> Seq<Middleware<H>> {
        self.before@
    }

    pub closed spec fn after_list(&self) -> Seq<Middleware<H>> {
        self.after@
    }

    pub fn new(prefix: &str) -> (group: Group<H>)
        ensures
            group.prefix_text() == prefix@,
            group.route_list().len() == 0,
            group.before_list().len() == 0,
            group.after_list().len() == 0,
    {
        Group {
            routes: Vec::new(),
            prefix: prefix.to_owned(),
            before: Vec::new(),
            after: Vec::new(),
        }
    }

    /// Registers a route for `method` under the group's prefix. The new
    /// route comes last in the order of matching. A pattern that cannot be
    /// registered leaves the group as it was.
    pub fn add(&mut self, method: Method, pattern: &str, handle: H) -> (r: Result<&mut Route<H>>)
        ensures
            match r {
                Ok(route) => registered(
                    *old(self),
                    *final(self),
                    *route,
                    *final(route),
                    method,
                    pattern@,
                    handle,
                ),
                Err(e) => *final(self) == *old(self) && refusal(old(self).prefix_text() + pattern@, e),
            },
    {
        let full = self.prefix.clone().concat(pattern);
        match Route::new(method, full, handle) {
            Ok(route) => {
                let n = self.routes.len();
                self.routes.push(route);
                let ghost pushed = self.routes@;
                let last = &mut self.routes[n];
                proof {
                    assert(pushed.update(n as int, *final(last)) =~= old(self).routes@.push(
                        *final(last),
                    ));
                }
                Ok(last)
            },
            Err(e) => Err(e),
        }
    }

    pub fn get(&mut self, pattern: &str, handle: H) -> (r: Result<&mut Route<H>>)
        ensures
            match r {
                Ok(route) => registered(
                    *old(self),
                    *final(self),
                    *route,
                    *final(route),
                    Method::Get,
                    pattern@,
                    handle,
                ),
                Err(e) => *final(self) == *old(self) && refusal(old(self).prefix_text() + pattern@, e),
            },
    {
        self.add(Method::Get, pattern, handle)
    }

    pub fn put(&mut self, pattern: &str, handle: H) -> (r: Result<&mut Route<H>>)
        ensures
            match r {
                Ok(route) => registered(
                    *old(self),
                    *final(self),
                    *route,
                    *final(route),
                    Method::Put,
                    pattern@,
                    handle,
                ),
                Err(e) => *final(self) == *old(self) && refusal(old(self).prefix_text() + pattern@, e),
            },
    {
        self.add(Method::Put, pattern, handle)
    }

    pub fn post(&mut self, pattern: &str, handle: H) -> (r: Result<&mut Route<H>>)
        ensures
            match r {
                Ok(route) => registered(
                    *old(self),
                    *final(self),
                    *route,
                    *final(route),
                    Method::Post,
                    pattern@,
                    handle,
                ),
                Err(e) => *final(self) == *old(self) && refusal(old(self).prefix_text() + pattern@, e),
            },
    {
        self.add(Method::Post, pattern, handle)
    }

    pub fn head(&mut self, pattern: &str, handle: H) -> (r: Result<&mut Route<H>>)
        ensures
            match r {
                Ok(route) => registered(
                    *old(self),
                    *final(self),
                    *route,
                    *final(route),
                    Method::Head,
                    pattern@,
                    handle,
                ),
                Err(e) => *final(self) == *old(self) && refusal(old(self).prefix_text() + pattern@, e),
            },
    {
        self.add(Method::Head, pattern, handle)
    }

    pub fn patch(&mut self, pattern: &str, handle: H) -> (r: Result<&mut Route<H>>)
        ensures
            match r {
                Ok(route) => registered(
                    *old(self),
                    *final(self),
                    *route,
                    *final(route),
                    Method::Patch,
                    pattern@,
                    handle,
                ),
                Err(e) => *final(self) == *old(self) && refusal(old(self).prefix_text() + pattern@, e),
            },
    {
        self.add(Method::Patch, pattern, handle)
    }

    pub fn trace(&mut self, pattern: &str, handle: H) -> (r: Result<&mut Route<H>>)
        ensures
            match r {
                Ok(route) => registered(
                    *old(self),
                    *final(self),
                    *route,
                    *final(route),
                    Method::Trace,
                    pattern@,
                    handle,
                ),
                Err(e) => *final(self) == *old(self) && refusal(old(self).prefix_text() + pattern@, e),
            },
    {
        self.add(Method::Trace, pattern, handle)
    }

    pub fn delete(&mut self, pattern: &str, handle: H) -> (r: Result<&mut Route<H>>)
        ensures
            match r {
                Ok(route) => registered(
                    *old(self),
                    *final(self),
                    *route,
                    *final(route),
                    Method::Delete,
                    pattern@,
                    handle,
                ),
                Err(e) => *final(self) == *old(self) && refusal(old(self).prefix_text() + pattern@, e),
            },
    {
        self.add(Method::Delete, pattern, handle)
    }

    pub fn options(&mut self, pattern: &str, handle: H) -> (r: Result<&mut Route<H>>)
        ensures
            match r {
                Ok(route) => registered(
                    *old(self),
                    *final(self),
                    *route,
                    *final(route),
                    Method::Options,
                    pattern@,
                    handle,
                ),
                Err(e) => *final(self) == *old(self) && refusal(old(self).prefix_text() + pattern@, e),
            },
    {
        self.add(Method::Options, pattern, handle)
    }

    pub fn connect(&mut self, pattern: &str, handle: H) -> (r: Result<&mut Route<H>>)
        ensures
            match r {
                Ok(route) => registered(
                    *old(self),
                    *final(self),
                    *route,
                    *final(route),
                    Method::Connect,
                    pattern@,
                    handle,
                ),
                Err(e) => *final(self) == *old(self) && refusal(old(self).prefix_text() + pattern@, e),
            },
    {
        self.add(Method::Connect, pattern, handle)
    }

    /// Adds a handler that runs before the routes of the group.
    pub fn before(&mut self, handle: H) -> (r: &mut Group<H>)
        ensures
            r.route_list() == old(self).route_list(),
            r.prefix_text() == old(self).prefix_text(),
            r.before_list() == old(self).before_list().push(Middleware { inner: handle }),
            r.after_list() == old(self).after_list(),
            *final(self) == *final(r),
    {
        self.before.push(Middleware { inner: handle });
        self
    }

    /// Adds a handler that runs after the routes of the group.
    pub fn after(&mut self, handle: H) -> (r: &mut Group<H>)
        ensures
            r.route_list() == old(self).route_list(),
            r.prefix_text() == old(self).prefix_text(),
            r.before_list() == old(self).before_list(),
            r.after_list() == old(self).after_list().push(Middleware { inner: handle }),
            *final(self) == *final(r),
    {
        self.after.push(Middleware { inner: handle });
        self
    }

    pub fn routes(&self) -> (routes: &Vec<Route<H>>)
        ensures
            routes@ == self.route_list(),
    {
        &self.routes
    }

    pub fn before_middleware(&self) -> (list: &Vec<Middleware<H>>)
        ensures
            list@ == self.before_list(),
    {
        &self.before
    }

    pub fn after_middleware(&self) -> (list: &Vec<Middleware<H>>)
        ensures
            list@ == self.after_list(),
    {
        &self.after
    }
}

} // verus!
