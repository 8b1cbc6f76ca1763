//! The order in which a request passes through the application.
//!
//! A request walks a fixed sequence of stages. `begin` and `finish` handlers
//! run for every request. Routing, the handlers around the matched route,
//! the route itself and the fallback for an unmatched request are guarded
//! by the stop latch: once it is set they are passed over.

use vstd::prelude::*;

verus! {

/// The stages of a request, in the order in which they are passed.
#[derive(Clone, Copy, Debug, PartialEq, Eq, Structural)]
pub enum Stage {
    /// The application's `begin` handlers.
    Begin,
    /// The search for a route.
    Routing,
    /// The application's `before` handlers.
    AppBefore,
    /// The `before` handlers of the matched route's group.
    GroupBefore,
    /// The `before` handlers of the matched route.
    RouteBefore,
    /// The handler of the matched route.
    Handle,
    /// The `after` handlers of the matched route.
    RouteAfter,
    /// The `after` handlers of the matched route's group.
    GroupAfter,
    /// The application's `after` handlers.
    AppAfter,
    /// The answer to a request that no route matched.
    NotFound,
    /// The application's `finish` handlers.
    Finish,
    /// The end.
    Done,
}

/// A position in the walk: a stage, the position in the list of that
/// stage, and the matched route by the number of its group and its number
/// in the group.
#[derive(Clone, Copy, Debug, PartialEq, Eq, Structural)]
pub struct Cursor {
    pub stage: Stage,
    pub index: usize,
    pub group: usize,
    pub route: usize,
}

/// What is to be done at a position.
#[derive(Clone, Copy, Debug, PartialEq, Eq, Structural)]
pub enum Action {
    /// Run the handler at this position.
    Call,
    /// Look for the route of the request.
    Route,
    /// Answer with the default `404 Not Found`.
    NotFound,
    /// Nothing.
    Skip,
    /// The walk is over.
    Finished,
}

/// The place of a stage in the order.
pub open spec fn rank(stage: Stage) -> nat {
    match stage {
        Stage::Begin => 0,
        Stage::Routing => 1,
        Stage::AppBefore => 2,
        Stage::GroupBefore => 3,
        Stage::RouteBefore => 4,
        Stage::Handle => 5,
        Stage::RouteAfter => 6,
        Stage::GroupAfter => 7,
        Stage::AppAfter => 8,
        Stage::NotFound => 9,
        Stage::Finish => 10,
        Stage::Done => 11,
    }
}

/// The stages that the stop latch guards: everything between `begin` and
/// `finish`.
pub open spec fn guarded(stage: Stage) -> bool {
    1 <= rank(stage) <= 9
}

/// The stages that walk a list of handlers.
pub open spec fn walks_list(stage: Stage) -> bool {
    match stage {
        Stage::Routing | Stage::Handle | Stage::NotFound | Stage::Done => false,
        _ => true,
    }
}

/// The stage that follows when a stage is through. After the last
/// handler around a matched route comes `finish`, not the fallback.
pub open spec fn following(stage: Stage) -> Stage {
    match stage {
        Stage::Begin => Stage::Routing,
        Stage::Routing => Stage::Finish,
        Stage::AppBefore => Stage::GroupBefore,
        Stage::GroupBefore => Stage::RouteBefore,
        Stage::RouteBefore => Stage::Handle,
        Stage::Handle => Stage::RouteAfter,
        Stage::RouteAfter => Stage::GroupAfter,
        Stage::GroupAfter => Stage::AppAfter,
        Stage::AppAfter => Stage::Finish,
        Stage::NotFound => Stage::Finish,
        Stage::Finish => Stage::Done,
        Stage::Done => Stage::Done,
    }
}

pub open spec fn at_stage(c: Cursor, stage: Stage) -> Cursor {
    Cursor { stage, index: 0, ..c }
}

pub open spec fn start() -> Cursor {
    Cursor { stage: Stage::Begin, index: 0, group: 0, route: 0 }
}

/// One move of the walk: the position that comes next and what is to be
/// done at the present one. `stopped` says whether the latch is set, `len`
/// is the length of the list of the present stage, and `fallback` says
/// whether the application has a handler for unmatched requests.
///
/// In a stage that walks a list, a position within the list is a handler,
/// which is called unless the stage is guarded and the latch is set; the
/// position past the list leads on to the next stage. Routing is passed
/// over when the latch is set, and is otherwise left to the caller, who
/// moves on with `resolved`.
pub open spec fn next(c: Cursor, stopped: bool, len: nat, fallback: bool) -> (Cursor, Action) {
    let act = if guarded(c.stage) && stopped {
        Action::Skip
    } else {
        Action::Call
    };
    match c.stage {
        Stage::Done => (c, Action::Finished),
        Stage::Routing => if stopped {
            (at_stage(c, Stage::Finish), Action::Skip)
        } else {
            (c, Action::Route)
        },
        Stage::Handle => (at_stage(c, Stage::RouteAfter), act),
        Stage::NotFound => (
            at_stage(c, Stage::Finish),
            if stopped {
                Action::Skip
            } else if fallback {
                Action::Call
            } else {
                Action::NotFound
            },
        ),
        _ => if c.index < len {
            (Cursor { index: (c.index + 1) as usize, ..c }, act)
        } else {
            (at_stage(c, following(c.stage)), Action::Skip)
        },
    }
}

/// Where the walk goes on after routing: into the handlers around the
/// route that was found, or to the fallback.
pub open spec fn resolved(c: Cursor, found: Option<(usize, usize)>) -> Cursor {
    match found {
        Some((group, route)) => Cursor { stage: Stage::AppBefore, index: 0, group, route },
        None => at_stage(c, Stage::NotFound),
    }
}

pub fn begin_walk() -> (c: Cursor)
    ensures
        c == start(),
{
    Cursor { stage: Stage::Begin, index: 0, group: 0, route: 0 }
}

/// Makes one move of the walk.
pub fn step(c: Cursor, stopped: bool, len: usize, fallback: bool) -> (r: (Cursor, Action))
    ensures
        r == next(c, stopped, len as nat, fallback),
{
    let through = Cursor { stage: c.stage, index: 0, group: c.group, route: c.route };
    let (guard, list, then) = match c.stage {
        Stage::Begin => (false, true, Stage::Routing),
        Stage::Routing => (true, false, Stage::Finish),
        Stage::AppBefore => (true, true, Stage::GroupBefore),
        Stage::GroupBefore => (true, true, Stage::RouteBefore),
        Stage::RouteBefore => (true, true, Stage::Handle),
        Stage::Handle => (true, false, Stage::RouteAfter),
        Stage::RouteAfter => (true, true, Stage::GroupAfter),
        Stage::GroupAfter => (true, true, Stage::AppAfter),
        Stage::AppAfter => (true, true, Stage::Finish),
        Stage::NotFound => (true, false, Stage::Finish),
        Stage::Finish => (false, true, Stage::Done),
        Stage::Done => (false, false, Stage::Done),
    };
    let onward = Cursor { stage: then, index: 0, group: c.group, route: c.route };
    let act = if guard && stopped {
        Action::Skip
    } else {
        Action::Call
    };
    if list {
        if c.index < len {
            (Cursor { stage: c.stage, index: c.index + 1, group: c.group, route: c.route }, act)
        } else {
            (onward, Action::Skip)
        }
    } else {
        match c.stage {
            Stage::Done => (c, Action::Finished),
            Stage::Routing => if stopped {
                (onward, Action::Skip)
            } else {
                (c, Action::Route)
            },
            Stage::Handle => (onward, act),
            _ => (
                onward,
                if stopped {
                    Action::Skip
                } else if fallback {
                    Action::Call
                } else {
                    Action::NotFound
                },
            ),
        }
    }
}

/// Moves on from routing.
pub fn resolve(c: Cursor, found: Option<(usize, usize)>) -> (r: Cursor)
    ensures
        r == resolved(c, found),
{
    match found {
        Some((group, route)) => Cursor { stage: Stage::AppBefore, index: 0, group, route },
        None => Cursor { stage: Stage::NotFound, index: 0, group: c.group, route: c.route },
    }
}

/// Once the latch is set, nothing that it guards runs: no `before` or
/// `after` handler of the application, the group or the route, no route
/// handler, no routing and no fallback, whatever the position.
pub proof fn law_stop_skips_guarded(c: Cursor, len: nat, fallback: bool)
    requires
        guarded(c.stage),
    ensures
        next(c, true, len, fallback).1 == Action::Skip,
{
}

/// A request that is stopped when routing is due goes on to `finish`
/// without being routed.
pub proof fn law_stopped_request_is_not_routed(c: Cursor, len: nat, fallback: bool)
    requires
        c.stage == Stage::Routing,
    ensures
        next(c, true, len, fallback).0.stage == Stage::Finish,
{
}

/// Every `begin` and every `finish` handler runs, whether the latch is
/// set or not.
pub proof fn law_begin_and_finish_always_run(c: Cursor, stopped: bool, len: nat, fallback: bool)
    requires
        c.stage == Stage::Begin || c.stage == Stage::Finish,
        c.index < len,
    ensures
        next(c, stopped, len, fallback) == (Cursor { index: (c.index + 1) as usize, ..c }, Action::Call),
{
}

/// From `finish` on, the walk only calls `finish` handlers and ends: the
/// response that the last of them leaves is the one that is handed out.
pub proof fn law_finish_comes_last(c: Cursor, stopped: bool, len: nat, fallback: bool)
    requires
        c.stage == Stage::Finish || c.stage == Stage::Done,
    ensures
        ({
            let (to, action) = next(c, stopped, len, fallback);
            &&& to.stage == Stage::Finish || to.stage == Stage::Done
            &&& action == Action::Call ==> c.stage == Stage::Finish && c.index < len
            &&& action != Action::Route && action != Action::NotFound
        }),
{
}

/// Every move but routing leads forward: to a later stage, or to the next
/// position of the same list.
pub proof fn law_walk_advances(c: Cursor, stopped: bool, len: nat, fallback: bool)
    requires
        c.stage != Stage::Done,
        len <= usize::MAX,
        next(c, stopped, len, fallback).1 != Action::Route,
    ensures
        ({
            let to = next(c, stopped, len, fallback).0;
            rank(to.stage) > rank(c.stage) || (to.stage == c.stage && to.index == c.index + 1
                && c.index < len)
        }),
{
}

} // verus!
