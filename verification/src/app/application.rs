//! The application: the registry of routes and middleware, and the walk of
//! a request through them.

use vstd::prelude::*;
use vstd::string::*;
use crate::app::context::{bag_keys, Context, Handler};
use crate::app::dispatch::{
    begin_walk, next, rank, resolve, resolved, start, step, Action, Cursor, Stage,
};
use crate::app::group::{registered, Group};
use crate::app::matcher::{normal, normalize};
use crate::app::middleware::Middleware;
use crate::app::route::{refusal, Route};
use crate::error::Result;
use crate::http::method::Method;
use crate::http::request::{Request, RequestView};
use crate::http::response::Response;
use crate::util::string_map::placed;
use crate::util::url::pairs_of;

verus! {

/// The first route at or after `from` that stands for `method` and matches
/// `path`, with the parameters of the match.
pub open spec fn first_route<H>(routes: Seq<Route<H>>, method: Method, path: Seq<char>, from: int) -> Option<
    (int, Seq<(Seq<char>, Seq<char>)>),
>
    decreases routes.len() - from,
{
    if from < 0 || from >= routes.len() {
        None
    } else if routes[from].verb() == method && routes[from].hits(path) is Some {
        Some((from, routes[from].hits(path).unwrap()))
    } else {
        first_route(routes, method, path, from + 1)
    }
}

/// The route of a request: the first match of the first group at or after
/// `from` that has one. Groups are tried in the order in which they were
/// added, routes in the order in which they were registered.
pub open spec fn first_match<H>(groups: Seq<Group<H>>, method: Method, path: Seq<char>, from: int) -> Option<
    (int, int, Seq<(Seq<char>, Seq<char>)>),
>
    decreases groups.len() - from,
{
    if from < 0 || from >= groups.len() {
        None
    } else {
        match first_route(groups[from].route_list(), method, path, 0) {
            Some((route, params)) => Some((from, route, params)),
            None => first_match(groups, method, path, from + 1),
        }
    }
}

/// A map with the pairs from the `from`th on set in it, one after the
/// other.
pub open spec fn assigned(
    map: Map<Seq<char>, Seq<char>>,
    pairs: Seq<(Seq<char>, Seq<char>)>,
    from: int,
) -> Map<Seq<char>, Seq<char>>
    decreases pairs.len() - from,
{
    if from < 0 || from >= pairs.len() {
        map
    } else {
        assigned(map.insert(pairs[from].0, pairs[from].1), pairs, from + 1)
    }
}

/// Setting pairs in a map adds their names to its keys, and nothing else.
pub proof fn lemma_assigned_keys(
    map: Map<Seq<char>, Seq<char>>,
    pairs: Seq<(Seq<char>, Seq<char>)>,
    from: int,
)
    requires
        0 <= from,
    ensures
        forall|k: Seq<char>| #[trigger]
            assigned(map, pairs, from).contains_key(k) <==> (map.contains_key(k) || exists|j: int|
                from <= j < pairs.len() && (#[trigger] pairs[j]).0 == k),
    decreases pairs.len() - from,
{
    if from < pairs.len() {
        let more = map.insert(pairs[from].0, pairs[from].1);
        lemma_assigned_keys(more, pairs, from + 1);
        assert forall|k: Seq<char>| #[trigger]
            assigned(map, pairs, from).contains_key(k) <==> (map.contains_key(k) || exists|j: int|
                from <= j < pairs.len() && (#[trigger] pairs[j]).0 == k) by {
            if assigned(more, pairs, from + 1).contains_key(k) {
                if more.contains_key(k) {
                    if !map.contains_key(k) {
                        assert(pairs[from].0 == k);
                    }
                } else {
                    let j = choose|j: int| from + 1 <= j < pairs.len() && (#[trigger] pairs[j]).0 == k;
                    assert(from <= j < pairs.len() && pairs[j].0 == k);
                }
            }
            if exists|j: int| from <= j < pairs.len() && (#[trigger] pairs[j]).0 == k {
                let j = choose|j: int| from <= j < pairs.len() && (#[trigger] pairs[j]).0 == k;
                if j == from {
                    assert(more.contains_key(k));
                } else {
                    assert(from + 1 <= j < pairs.len() && pairs[j].0 == k);
                }
            }
        }
    }
}

/// Where a route with parameters matches a path, the parameters of the
/// match are the parameters that the pattern declares, name by name and in
/// their order; the keys of the request's parameter map are then those
/// names and no others. The numbers of their groups start at one and grow
/// along the list.
pub proof fn law_match_binds_declared_names<H>(route: Route<H>, path: Seq<char>)
    requires
        route.matcher() is Some,
        route.hits(path) is Some,
    ensures
        ({
            let pattern = route.pattern_text();
            let params = route.hits(path).unwrap();
            let index = crate::app::pattern::scanned_index(pattern);
            &&& params.len() == index.len()
            &&& forall|j: int| 0 <= j < index.len() ==> (#[trigger] params[j]).0 == index[j].0
            &&& crate::app::pattern::index_in_order(
                index,
                crate::app::pattern::scan(pattern, pattern.len() as int).count,
            )
            &&& forall|k: Seq<char>| #[trigger]
                assigned(Map::empty(), params, 0).contains_key(k) <==> exists|j: int|
                    0 <= j < index.len() && (#[trigger] index[j]).0 == k
        }),
{
    let pattern = route.pattern_text();
    let params = route.hits(path).unwrap();
    let index = crate::app::pattern::scanned_index(pattern);
    crate::app::pattern::lemma_scan_in_order(pattern, pattern.len() as int);
    lemma_assigned_keys(Map::empty(), params, 0);
    assert forall|k: Seq<char>| #[trigger]
        assigned(Map::empty(), params, 0).contains_key(k) <==> exists|j: int|
            0 <= j < index.len() && (#[trigger] index[j]).0 == k by {
        if assigned(Map::empty(), params, 0).contains_key(k) {
            let j = choose|j: int| 0 <= j < params.len() && (#[trigger] params[j]).0 == k;
            assert(index[j].0 == k);
        }
        if exists|j: int| 0 <= j < index.len() && (#[trigger] index[j]).0 == k {
            let j = choose|j: int| 0 <= j < index.len() && (#[trigger] index[j]).0 == k;
            assert(params[j].0 == k);
        }
    }
}

/// Sets the parameters of a match in a request.
pub fn bind_params(request: &mut Request, params: &Vec<(String, String)>)
    ensures
        final(request)@ == (RequestView {
            params: assigned(old(request)@.params, pairs_of(params@), 0),
            ..old(request)@
        }),
{
    let mut k: usize = 0;
    while k < params.len()
        invariant
            k <= params@.len(),
            request@ == (RequestView { params: request@.params, ..old(request)@ }),
            assigned(old(request)@.params, pairs_of(params@), 0) == assigned(
                request@.params,
                pairs_of(params@),
                k as int,
            ),
        decreases params@.len() - k,
    {
        let map = request.params();
        map.insert(params[k].0.clone(), params[k].1.clone());
        k += 1;
    }
}

/// The answer to a request that nothing in the application takes up:
/// status 404 and the text `Not Found`.
pub open spec fn is_default_not_found(response: Response) -> bool {
    &&& response.status() == 404
    &&& response.content() == "Not Found".spec_bytes()
    &&& response.header_map() == Map::<Seq<char>, Seq<char>>::empty().insert(
        "Content-Type"@,
        "text/plain; charset=UTF-8"@,
    )
}

/// A context that no handler has seen.
pub open spec fn is_fresh<H>(context: Context<H>, request: RequestView) -> bool {
    &&& context.request@ == request
    &&& !context.is_stopped()
    &&& bag_keys(context.contexts) == Set::<Seq<char>>::empty()
    &&& context.response.status() == 200
    &&& context.response.header_map() == Map::<Seq<char>, Seq<char>>::empty()
    &&& context.response.content() == Seq::<u8>::empty()
}

/// What the default answer to an unmatched request does to a response:
/// the status becomes 404 and the body the text `Not Found`, announced as
/// plain text; the other headers stay.
pub open spec fn refused(before: Response, after: Response) -> bool {
    &&& after.status() == 404
    &&& after.content() == "Not Found".spec_bytes()
    &&& after.header_map() == before.header_map().insert(
        "Content-Type"@,
        "text/plain; charset=UTF-8"@,
    )
    &&& after.header_list() == placed(
        before.header_list(),
        "Content-Type"@,
        "text/plain; charset=UTF-8"@,
        0,
    )
}

pub struct App<H> {
    root: Group<H>,
    groups: Vec<Group<H>>,
    begin: Vec<Middleware<H>>,
    before: Vec<Middleware<H>>,
    after: Vec<Middleware<H>>,
    finish: Vec<Middleware<H>>,
    not_found: Option<Middleware<H>>,
}

impl<H> App<H> {
    /// The groups in the order in which they are tried: first the group
    /// without prefix that takes the application's own routes, then the
    /// mounted groups.
    pub closed spec fn all_groups(&self) -> Seq<Group<H>> {
        seq![self.root] + self.groups@
    }

    pub closed spec fn begin_list(&self) -> Seq<Middleware<H>> {
        self.begin@
    }

    pub closed spec fn before_list(&self) -> Seq<Middleware<H>> {
        self.before@
    }

    pub closed spec fn after_list(&self) -> Seq<Middleware<H>> {
        self.after@
    }

    pub closed spec fn finish_list(&self) -> Seq<Middleware<H>> {
        self.finish@
    }

    /// The handler for requests that no route matches.
    pub closed spec fn fallback(&self) -> Option<Middleware<H>> {
        self.not_found
    }

    /// Whether two applications have the same middleware and fallback.
    pub open spec fn same_middleware(&self, other: &App<H>) -> bool {
        &&& self.begin_list() == other.begin_list()
        &&& self.before_list() == other.before_list()
        &&& self.after_list() == other.after_list()
        &&& self.finish_list() == other.finish_list()
        &&& self.fallback() == other.fallback()
    }

    /// An application without routes or middleware.
    pub fn new() -> (app: App<H>)
        ensures
            app.all_groups().len() == 1,
            app.all_groups()[0].prefix_text().len() == 0,
            app.all_groups()[0].route_list().len() == 0,
            app.all_groups()[0].before_list().len() == 0,
            app.all_groups()[0].after_list().len() == 0,
            app.begin_list().len() == 0,
            app.before_list().len() == 0,
            app.after_list().len() == 0,
            app.finish_list().len() == 0,
            app.fallback() is None,
    {
        proof {
            reveal_strlit("");
        }
        App {
            root: Group::new(""),
            groups: Vec::new(),
            begin: Vec::new(),
            before: Vec::new(),
            after: Vec::new(),
            finish: Vec::new(),
            not_found: None,
        }
    }

    /// What a successful registration leaves: the first group with one
    /// more route, and all else as it was.
    pub open spec fn registered(
        before: App<H>,
        after: App<H>,
        route: Route<H>,
        last: Route<H>,
        method: Method,
        pattern: Seq<char>,
        handle: H,
    ) -> bool {
        &&& before.all_groups().len() > 0
        &&& after.all_groups().len() == before.all_groups().len()
        &&& registered(
            before.all_groups()[0],
            after.all_groups()[0],
            route,
            last,
            method,
            pattern,
            handle,
        )
        &&& forall|g: int| 1 <= g < before.all_groups().len() ==> after.all_groups()[g] == before.all_groups()[g]
        &&& after.same_middleware(&before)
    }

    /// Registers a route in the first group.
    pub fn add(&mut self, method: Method, pattern: &str, handle: H) -> (r: Result<&mut Route<H>>)
        ensures
            match r {
                Ok(route) => Self::registered(
                    *old(self),
                    *final(self),
                    *route,
                    *final(route),
                    method,
                    pattern@,
                    handle,
                ),
                Err(e) => *final(self) == *old(self) && refusal(
                    old(self).all_groups()[0].prefix_text() + pattern@,
                    e,
                ),
            },
    {
        let ghost mounted = self.groups@;
        let r = self.root.add(method, pattern, handle);
        proof {
            assert forall|first: Group<H>, g: int| 1 <= g <= mounted.len() implies #[trigger] (seq![
                first,
            ] + mounted)[g] == mounted[g - 1] by {}
        }
        r
    }

    /// Registers a route for `GET` in the first group.
    pub fn get(&mut self, pattern: &str, handle: H) -> (r: Result<&mut Route<H>>)
        ensures
            match r {
                Ok(route) => Self::registered(
                    *old(self),
                    *final(self),
                    *route,
                    *final(route),
                    Method::Get,
                    pattern@,
                    handle,
                ),
                Err(e) => *final(self) == *old(self) && refusal(
                    old(self).all_groups()[0].prefix_text() + pattern@,
                    e,
                ),
            },
    {
        self.add(Method::Get, pattern, handle)
    }

    /// Registers a route for `PUT` in the first group.
    pub fn put(&mut self, pattern: &str, handle: H) -> (r: Result<&mut Route<H>>)
        ensures
            match r {
                Ok(route) => Self::registered(
                    *old(self),
                    *final(self),
                    *route,
                    *final(route),
                    Method::Put,
                    pattern@,
                    handle,
                ),
                Err(e) => *final(self) == *old(self) && refusal(
                    old(self).all_groups()[0].prefix_text() + pattern@,
                    e,
                ),
            },
    {
        self.add(Method::Put, pattern, handle)
    }

    /// Registers a route for `POST` in the first group.
    pub fn post(&mut self, pattern: &str, handle: H) -> (r: Result<&mut Route<H>>)
        ensures
            match r {
                Ok(route) => Self::registered(
                    *old(self),
                    *final(self),
                    *route,
                    *final(route),
                    Method::Post,
                    pattern@,
                    handle,
                ),
                Err(e) => *final(self) == *old(self) && refusal(
                    old(self).all_groups()[0].prefix_text() + pattern@,
                    e,
                ),
            },
    {
        self.add(Method::Post, pattern, handle)
    }

    /// Registers a route for `HEAD` in the first group.
    pub fn head(&mut self, pattern: &str, handle: H) -> (r: Result<&mut Route<H>>)
        ensures
            match r {
                Ok(route) => Self::registered(
                    *old(self),
                    *final(self),
                    *route,
                    *final(route),
                    Method::Head,
                    pattern@,
                    handle,
                ),
                Err(e) => *final(self) == *old(self) && refusal(
                    old(self).all_groups()[0].prefix_text() + pattern@,
                    e,
                ),
            },
    {
        self.add(Method::Head, pattern, handle)
    }

    /// Registers a route for `PATCH` in the first group.
    pub fn patch(&mut self, pattern: &str, handle: H) -> (r: Result<&mut Route<H>>)
        ensures
            match r {
                Ok(route) => Self::registered(
                    *old(self),
                    *final(self),
                    *route,
                    *final(route),
                    Method::Patch,
                    pattern@,
                    handle,
                ),
                Err(e) => *final(self) == *old(self) && refusal(
                    old(self).all_groups()[0].prefix_text() + pattern@,
                    e,
                ),
            },
    {
        self.add(Method::Patch, pattern, handle)
    }

    /// Registers a route for `TRACE` in the first group.
    pub fn trace(&mut self, pattern: &str, handle: H) -> (r: Result<&mut Route<H>>)
        ensures
            match r {
                Ok(route) => Self::registered(
                    *old(self),
                    *final(self),
                    *route,
                    *final(route),
                    Method::Trace,
                    pattern@,
                    handle,
                ),
                Err(e) => *final(self) == *old(self) && refusal(
                    old(self).all_groups()[0].prefix_text() + pattern@,
                    e,
                ),
            },
    {
        self.add(Method::Trace, pattern, handle)
    }

    /// Registers a route for `DELETE` in the first group.
    pub fn delete(&mut self, pattern: &str, handle: H) -> (r: Result<&mut Route<H>>)
        ensures
            match r {
                Ok(route) => Self::registered(
                    *old(self),
                    *final(self),
                    *route,
                    *final(route),
                    Method::Delete,
                    pattern@,
                    handle,
                ),
                Err(e) => *final(self) == *old(self) && refusal(
                    old(self).all_groups()[0].prefix_text() + pattern@,
                    e,
                ),
            },
    {
        self.add(Method::Delete, pattern, handle)
    }

    /// Registers a route for `OPTIONS` in the first group.
    pub fn options(&mut self, pattern: &str, handle: H) -> (r: Result<&mut Route<H>>)
        ensures
            match r {
                Ok(route) => Self::registered(
                    *old(self),
                    *final(self),
                    *route,
                    *final(route),
                    Method::Options,
                    pattern@,
                    handle,
                ),
                Err(e) => *final(self) == *old(self) && refusal(
                    old(self).all_groups()[0].prefix_text() + pattern@,
                    e,
                ),
            },
    {
        self.add(Method::Options, pattern, handle)
    }

    /// Registers a route for `CONNECT` in the first group.
    pub fn connect(&mut self, pattern: &str, handle: H) -> (r: Result<&mut Route<H>>)
        ensures
            match r {
                Ok(route) => Self::registered(
                    *old(self),
                    *final(self),
                    *route,
                    *final(route),
                    Method::Connect,
                    pattern@,
                    handle,
                ),
                Err(e) => *final(self) == *old(self) && refusal(
                    old(self).all_groups()[0].prefix_text() + pattern@,
                    e,
                ),
            },
    {
        self.add(Method::Connect, pattern, handle)
    }

    /// Makes a group with the given prefix, lets `func` fill it, and adds
    /// it: the new group is what `func` leaves of an empty group with that
    /// prefix, and it is tried after the groups that are there.
    pub fn mount<F: FnOnce(&mut Group<H>)>(&mut self, prefix: &str, func: F) -> (r: &mut App<H>)
        requires
            forall|g: &mut Group<H>|
                g.prefix_text() == prefix@ && g.route_list().len() == 0 && g.before_list().len() == 0
                    && g.after_list().len() == 0 ==> #[trigger] call_requires(func, (g,)),
        ensures
            exists|g: &mut Group<H>| #[trigger]
                call_ensures(func, (g,), ()) && g.prefix_text() == prefix@ && g.route_list().len()
                    == 0 && g.before_list().len() == 0 && g.after_list().len() == 0
                    && r.all_groups() == old(self).all_groups().push(*final(g)),
            r.same_middleware(old(self)),
            *final(self) == *final(r),
    {
        let mut group: Group<H> = Group::new(prefix);
        func(&mut group);
        self.groups.push(group);
        assert(self.all_groups() =~= old(self).all_groups().push(group));
        self
    }

    /// Lets `func` work on the application: the application is left as
    /// `func` leaves it.
    pub fn middleware<F: FnOnce(&mut App<H>)>(&mut self, func: F) -> (r: &mut App<H>)
        requires
            forall|a: &mut App<H>| *a == *old(self) ==> #[trigger] call_requires(func, (a,)),
        ensures
            exists|a: &mut App<H>| #[trigger]
                call_ensures(func, (a,), ()) && *a == *old(self) && *final(a) == *r,
            *final(self) == *final(r),
    {
        func(&mut *self);
        self
    }

    /// Adds a group.
    pub fn mount_group(&mut self, group: Group<H>) -> (r: &mut App<H>)
        ensures
            r.all_groups() == old(self).all_groups().push(group),
            r.same_middleware(old(self)),
            *final(self) == *final(r),
    {
        self.groups.push(group);
        assert(self.all_groups() =~= old(self).all_groups().push(group));
        self
    }

    /// Adds a handler that runs first, for every request.
    pub fn begin(&mut self, handle: H) -> (r: &mut App<H>)
        ensures
            r.begin_list() == old(self).begin_list().push(Middleware { inner: handle }),
            r.before_list() == old(self).before_list(),
            r.after_list() == old(self).after_list(),
            r.finish_list() == old(self).finish_list(),
            r.fallback() == old(self).fallback(),
            r.all_groups() == old(self).all_groups(),
            *final(self) == *final(r),
    {
        self.begin.push(Middleware { inner: handle });
        self
    }

    /// Adds a handler that runs before a matched route.
    pub fn before(&mut self, handle: H) -> (r: &mut App<H>)
        ensures
            r.begin_list() == old(self).begin_list(),
            r.before_list() == old(self).before_list().push(Middleware { inner: handle }),
            r.after_list() == old(self).after_list(),
            r.finish_list() == old(self).finish_list(),
            r.fallback() == old(self).fallback(),
            r.all_groups() == old(self).all_groups(),
            *final(self) == *final(r),
    {
        self.before.push(Middleware { inner: handle });
        self
    }

    /// Adds a handler that runs after a matched route.
    pub fn after(&mut self, handle: H) -> (r: &mut App<H>)
        ensures
            r.begin_list() == old(self).begin_list(),
            r.before_list() == old(self).before_list(),
            r.after_list() == old(self).after_list().push(Middleware { inner: handle }),
            r.finish_list() == old(self).finish_list(),
            r.fallback() == old(self).fallback(),
            r.all_groups() == old(self).all_groups(),
            *final(self) == *final(r),
    {
        self.after.push(Middleware { inner: handle });
        self
    }

    /// Adds a handler that runs last, for every request.
    pub fn finish(&mut self, handle: H) -> (r: &mut App<H>)
        ensures
            r.begin_list() == old(self).begin_list(),
            r.before_list() == old(self).before_list(),
            r.after_list() == old(self).after_list(),
            r.finish_list() == old(self).finish_list().push(Middleware { inner: handle }),
            r.fallback() == old(self).fallback(),
            r.all_groups() == old(self).all_groups(),
            *final(self) == *final(r),
    {
        self.finish.push(Middleware { inner: handle });
        self
    }

    /// Sets the handler for requests that no route matches.
    pub fn not_found(&mut self, handle: H)
        ensures
            final(self).fallback() == Some(Middleware { inner: handle }),
            final(self).begin_list() == old(self).begin_list(),
            final(self).before_list() == old(self).before_list(),
            final(self).after_list() == old(self).after_list(),
            final(self).finish_list() == old(self).finish_list(),
            final(self).all_groups() == old(self).all_groups(),
    {
        self.not_found = Some(Middleware { inner: handle });
    }

    /// The group numbered `g` in the order of matching.
    pub fn group(&self, g: usize) -> (group: &Group<H>)
        requires
            g < self.all_groups().len(),
        ensures
            *group == self.all_groups()[g as int],
    {
        if g == 0 {
            &self.root
        } else {
            &self.groups[g - 1]
        }
    }

    /// The number of groups.
    pub fn group_count(&self) -> (n: usize)
        requires
            self.all_groups().len() <= usize::MAX,
        ensures
            n == self.all_groups().len(),
    {
        self.groups.len() + 1
    }

    /// Finds the route of a request: the first route in the order of
    /// matching that stands for the method and matches the path, which is
    /// normalised already. The result is the number of the route's group,
    /// its number in the group, and the parameters of the match.
    pub fn find_route(&self, method: Method, path: &str) -> (found: Option<
        (usize, usize, Vec<(String, String)>),
    >)
        ensures
            match found {
                Some((g, r, params)) => {
                    &&& first_match(self.all_groups(), method, path@, 0) == Some(
                        (g as int, r as int, pairs_of(params@)),
                    )
                    &&& g < self.all_groups().len()
                    &&& r < self.all_groups()[g as int].route_list().len()
                },
                None => first_match(self.all_groups(), method, path@, 0) is None,
            },
    {
        let mut g: usize = 0;
        loop
            invariant
                g <= self.groups@.len(),
                first_match(self.all_groups(), method, path@, 0) == first_match(
                    self.all_groups(),
                    method,
                    path@,
                    g as int,
                ),
            decreases self.groups@.len() - g,
        {
            let group = self.group(g);
            let routes = group.routes();
            let mut r: usize = 0;
            while r < routes.len()
                invariant
                    r <= routes@.len(),
                    routes@ == self.all_groups()[g as int].route_list(),
                    g < self.all_groups().len(),
                    first_match(self.all_groups(), method, path@, 0) == first_match(
                        self.all_groups(),
                        method,
                        path@,
                        g as int,
                    ),
                    first_route(routes@, method, path@, 0) == first_route(
                        routes@,
                        method,
                        path@,
                        r as int,
                    ),
                decreases routes@.len() - r,
            {
                if *routes[r].method() == method {
                    if let Some(params) = routes[r].matches(path) {
                        assert(first_route(routes@, method, path@, r as int) == Some(
                            (r as int, pairs_of(params@)),
                        ));
                        return Some((g, r, params));
                    }
                }
                r += 1;
            }
            assert(first_route(routes@, method, path@, r as int) is None);
            if g == self.groups.len() {
                assert(first_match(self.all_groups(), method, path@, g + 1) is None);
                return None;
            }
            g += 1;
        }
    }
}

impl<H: Handler> App<H> {
    /// Whether the route that a position names exists.
    pub open spec fn holds(&self, c: Cursor) -> bool {
        2 <= rank(c.stage) <= 7 ==> c.group < self.all_groups().len() && c.route
            < self.all_groups()[c.group as int].route_list().len()
    }

    /// The list of handlers that the stage of a position walks.
    pub open spec fn stage_list(&self, c: Cursor) -> Seq<Middleware<H>> {
        match c.stage {
            Stage::Begin => self.begin_list(),
            Stage::AppBefore => self.before_list(),
            Stage::GroupBefore => self.all_groups()[c.group as int].before_list(),
            Stage::RouteBefore => self.all_groups()[c.group as int].route_list()[c.route as int].before_list(),
            Stage::RouteAfter => self.all_groups()[c.group as int].route_list()[c.route as int].after_list(),
            Stage::GroupAfter => self.all_groups()[c.group as int].after_list(),
            Stage::AppAfter => self.after_list(),
            Stage::Finish => self.finish_list(),
            _ => Seq::empty(),
        }
    }

    /// The handler at a position.
    pub open spec fn handler_of(&self, c: Cursor) -> H {
        match c.stage {
            Stage::Handle => self.all_groups()[c.group as int].route_list()[c.route as int].handler(),
            Stage::NotFound => self.fallback().unwrap().inner,
            _ => self.stage_list(c)[c.index as int].inner,
        }
    }

    /// Whether there is a handler at a position.
    pub open spec fn callable(&self, c: Cursor) -> bool {
        &&& self.holds(c)
        &&& match c.stage {
            Stage::Handle => true,
            Stage::NotFound => self.fallback() is Some,
            Stage::Routing | Stage::Done => false,
            _ => c.index < self.stage_list(c).len(),
        }
    }

    /// The length of the list that the stage of a position walks.
    pub fn stage_len(&self, c: &Cursor) -> (len: usize)
        requires
            self.holds(*c),
        ensures
            len == self.stage_list(*c).len(),
    {
        match c.stage {
            Stage::Begin => self.begin.len(),
            Stage::AppBefore => self.before.len(),
            Stage::GroupBefore => self.group(c.group).before_middleware().len(),
            Stage::RouteBefore => self.group(c.group).routes()[c.route].before_middleware().len(),
            Stage::RouteAfter => self.group(c.group).routes()[c.route].after_middleware().len(),
            Stage::GroupAfter => self.group(c.group).after_middleware().len(),
            Stage::AppAfter => self.after.len(),
            Stage::Finish => self.finish.len(),
            _ => 0,
        }
    }

    /// The handler at a position.
    pub fn handler_at(&self, c: &Cursor) -> (handler: &H)
        requires
            self.callable(*c),
        ensures
            *handler == self.handler_of(*c),
    {
        match c.stage {
            Stage::Begin => &self.begin[c.index].inner,
            Stage::AppBefore => &self.before[c.index].inner,
            Stage::GroupBefore => &self.group(c.group).before_middleware()[c.index].inner,
            Stage::RouteBefore => &self.group(c.group).routes()[c.route].before_middleware()[c.index].inner,
            Stage::Handle => self.group(c.group).routes()[c.route].handle(),
            Stage::RouteAfter => &self.group(c.group).routes()[c.route].after_middleware()[c.index].inner,
            Stage::GroupAfter => &self.group(c.group).after_middleware()[c.index].inner,
            Stage::AppAfter => &self.after[c.index].inner,
            Stage::NotFound => match &self.not_found {
                Some(m) => &m.inner,
                None => &self.begin[0].inner,
            },
            _ => &self.finish[c.index].inner,
        }
    }

    /// Whether a request passes through without meeting a handler: the
    /// application has no `begin` or `finish` handler and no fallback, and
    /// no route matches the request.
    pub open spec fn calls_nothing(&self, request: RequestView) -> bool {
        &&& self.begin_list().len() == 0
        &&& self.finish_list().len() == 0
        &&& self.fallback() is None
        &&& first_match(self.all_groups(), request.method, normal(request.path), 0) is None
    }

    /// Whether one move of the walk leads from the position `from` with
    /// the context `before` to the position `to` with the context `after`.
    /// What is to be done is what `next` says:
    ///
    /// - a call hands the context to the handler in place, which leaves
    ///   it as it may;
    /// - a position that is passed over leaves the context alone;
    /// - routing looks for the first route that stands for the method and
    ///   matches the normalised path, sets the parameters of the match in
    ///   the request, and goes on as `resolved` says;
    /// - the default answer sets status 404 and the text `Not Found` in
    ///   the response.
    pub open spec fn moves(&self, from: Cursor, to: Cursor, before: Context<H>, after: Context<H>) -> bool {
        let (onward, action) = next(
            from,
            before.is_stopped(),
            self.stage_list(from).len(),
            self.fallback() is Some,
        );
        match action {
            Action::Call => to == onward && self.handler_of(from).turns(before, after),
            Action::Skip => to == onward && after == before,
            Action::NotFound => {
                &&& to == onward
                &&& after.app == before.app
                &&& after.request == before.request
                &&& after.contexts == before.contexts
                &&& after.latch == before.latch
                &&& refused(before.response, after.response)
            },
            Action::Route => match first_match(
                self.all_groups(),
                before.request@.method,
                normal(before.request@.path),
                0,
            ) {
                Some((group, route, params)) => {
                    &&& to == resolved(from, Some((group as usize, route as usize)))
                    &&& after.request@ == (RequestView {
                        params: assigned(before.request@.params, params, 0),
                        ..before.request@
                    })
                    &&& after.app == before.app
                    &&& after.response == before.response
                    &&& after.contexts == before.contexts
                    &&& after.latch == before.latch
                },
                None => to == resolved(from, None) && after == before,
            },
            Action::Finished => false,
        }
    }

    /// Whether the move numbered `i` of a walk is a move of the
    /// application.
    pub open spec fn moved(&self, positions: Seq<Cursor>, contexts: Seq<Context<H>>, i: int) -> bool {
        self.moves(positions[i], positions[i + 1], contexts[i], contexts[i + 1])
    }

    /// Whether `positions` and `contexts` are the walk of a request that
    /// ends in `response`: the walk starts at the first `begin` handler
    /// with a fresh context, every move is a move of the application, the
    /// walk ends behind the last `finish` handler, and the response is the
    /// one that the context holds there.
    pub open spec fn walks(
        &self,
        positions: Seq<Cursor>,
        contexts: Seq<Context<H>>,
        request: RequestView,
        response: Response,
    ) -> bool {
        &&& positions.len() > 0
        &&& contexts.len() == positions.len()
        &&& positions[0] == start()
        &&& contexts[0].app == self
        &&& is_fresh(contexts[0], request)
        &&& forall|i: int| 0 <= i < positions.len() - 1 ==> #[trigger] self.moved(positions, contexts, i)
        &&& positions.last().stage == Stage::Done
        &&& response == contexts.last().response
    }

    /// Whether `response` is an answer of the application to `request`:
    /// there is a walk of the request that ends in it.
    pub open spec fn answers(&self, request: RequestView, response: Response) -> bool {
        exists|positions: Seq<Cursor>, contexts: Seq<Context<H>>| #[trigger]
            self.walks(positions, contexts, request, response)
    }

    /// Answers a request.
    ///
    /// The request walks the stages from `begin` to `finish`; at each
    /// position `step` says what is to be done, and the handler in place is
    /// called where it says so. Routing looks for the first route that
    /// matches the normalised path and sets the parameters of the match in
    /// the request. What the handlers do to the context is their own
    /// affair; the response is the context's, as the last of them leaves
    /// it. A request that meets no handler at all is answered with the
    /// default `404 Not Found`.
    pub fn handle(&self, request: Request) -> (response: Response)
        ensures
            self.answers(request@, response),
            self.calls_nothing(request@) ==> is_default_not_found(response),
    {
        let ghost arrived = request@;
        let mut context = Context::new(self, request);
        let mut cursor = begin_walk();
        let ghost mut positions: Seq<Cursor> = seq![cursor];
        let ghost mut contexts: Seq<Context<H>> = seq![context];
        loop
            invariant
                self.holds(cursor),
                arrived == request@,
                positions.len() > 0,
                contexts.len() == positions.len(),
                positions[0] == start(),
                contexts[0].app == self,
                is_fresh(contexts[0], arrived),
                positions.last() == cursor,
                contexts.last() == context,
                forall|i: int|
                    0 <= i < positions.len() - 1 ==> #[trigger] self.moved(positions, contexts, i),
                self.calls_nothing(arrived) ==> match cursor.stage {
                    Stage::Begin | Stage::Routing | Stage::NotFound => is_fresh(context, arrived),
                    Stage::Finish | Stage::Done => is_default_not_found(context.response),
                    _ => false,
                },
            decreases 11 - rank(cursor.stage), self.stage_list(cursor).len() - cursor.index,
        {
            let len = self.stage_len(&cursor);
            let stopped = !context.next();
            let (to, action) = step(cursor, stopped, len, self.not_found.is_some());
            let ghost from = cursor;
            let ghost before = context;
            match action {
                Action::Finished => {
                    assert(self.walks(positions, contexts, arrived, context.response));
                    return context.finish();
                },
                Action::Skip => {
                    cursor = to;
                },
                Action::Call => {
                    self.handler_at(&cursor).call(&mut context);
                    cursor = to;
                },
                Action::NotFound => {
                    let _ = context.response.status_code(404).from_text("Not Found");
                    cursor = to;
                },
                Action::Route => {
                    let method = *context.request.method();
                    let found = self.find_route(method, normalize(context.request.path().as_str()));
                    match found {
                        Some((g, r, params)) => {
                            bind_params(&mut context.request, &params);
                            cursor = resolve(cursor, Some((g, r)));
                        },
                        None => {
                            cursor = resolve(cursor, None);
                        },
                    }
                },
            }
            proof {
                assert(self.moves(from, cursor, before, context));
                let walked = positions;
                let seen = contexts;
                positions = positions.push(cursor);
                contexts = contexts.push(context);
                assert forall|i: int| 0 <= i < positions.len() - 1 implies #[trigger] self.moved(
                    positions,
                    contexts,
                    i,
                ) by {
                    if i < walked.len() - 1 {
                        assert(self.moved(walked, seen, i));
                    }
                }
            }
        }
    }
}

} // verus!
