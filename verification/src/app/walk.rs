//! What holds of every walk of a request through the application, from its
//! first position to its last.

use vstd::prelude::*;
use crate::app::application::App;
use crate::app::context::{Context, Handler};
use crate::app::dispatch::{guarded, rank, walks_list, Cursor, Stage};
use crate::http::request::RequestView;
use crate::http::response::Response;

verus! {

/// Whether the move numbered `i` of a walk stands at position `k` of the
/// list of `stage` and hands the context to the handler `h`.
pub open spec fn calls<H: Handler>(
    positions: Seq<Cursor>,
    contexts: Seq<Context<H>>,
    i: int,
    stage: Stage,
    k: int,
    h: H,
) -> bool {
    &&& 0 <= i < positions.len() - 1
    &&& positions[i].stage == stage
    &&& positions[i].index == k
    &&& h.turns(contexts[i], contexts[i + 1])
}

/// Whether position `a` comes before position `b`: in an earlier stage, or
/// earlier in the list of the same stage.
pub open spec fn precedes(a: Cursor, b: Cursor) -> bool {
    rank(a.stage) < rank(b.stage) || (a.stage == b.stage && a.index < b.index)
}

/// A walk never goes back to an earlier stage.
proof fn lemma_stages_in_order<H: Handler>(
    app: App<H>,
    positions: Seq<Cursor>,
    contexts: Seq<Context<H>>,
    request: RequestView,
    response: Response,
    i: int,
    j: int,
)
    requires
        app.walks(positions, contexts, request, response),
        0 <= i <= j < positions.len(),
    ensures
        rank(positions[i].stage) <= rank(positions[j].stage),
    decreases j - i,
{
    if i < j {
        lemma_stages_in_order(app, positions, contexts, request, response, i, j - 1);
        assert(app.moved(positions, contexts, j - 1));
    }
}

/// A walk that stands in a list too long to be counted never leaves it.
proof fn lemma_stays<H: Handler>(
    app: App<H>,
    positions: Seq<Cursor>,
    contexts: Seq<Context<H>>,
    request: RequestView,
    response: Response,
    i: int,
    j: int,
)
    requires
        app.walks(positions, contexts, request, response),
        0 <= i <= j < positions.len(),
        walks_list(positions[i].stage),
        app.stage_list(positions[i]).len() > usize::MAX,
    ensures
        positions[j].stage == positions[i].stage,
        positions[j].group == positions[i].group,
        positions[j].route == positions[i].route,
    decreases j - i,
{
    if i < j {
        lemma_stays(app, positions, contexts, request, response, i, j - 1);
        assert(app.moved(positions, contexts, j - 1));
        assert(app.stage_list(positions[j - 1]) == app.stage_list(positions[i]));
    }
}

/// Every list that a walk passes can be counted.
proof fn lemma_lists_fit<H: Handler>(
    app: App<H>,
    positions: Seq<Cursor>,
    contexts: Seq<Context<H>>,
    request: RequestView,
    response: Response,
    i: int,
)
    requires
        app.walks(positions, contexts, request, response),
        0 <= i < positions.len(),
        walks_list(positions[i].stage),
    ensures
        app.stage_list(positions[i]).len() <= usize::MAX,
{
    if app.stage_list(positions[i]).len() > usize::MAX {
        lemma_stays(app, positions, contexts, request, response, i, positions.len() - 1);
    }
}

/// Every move of a walk leads on to a later position.
proof fn lemma_move_leads_on<H: Handler>(
    app: App<H>,
    positions: Seq<Cursor>,
    contexts: Seq<Context<H>>,
    request: RequestView,
    response: Response,
    i: int,
)
    requires
        app.walks(positions, contexts, request, response),
        0 <= i < positions.len() - 1,
    ensures
        precedes(positions[i], positions[i + 1]),
{
    assert(app.moved(positions, contexts, i));
    if walks_list(positions[i].stage) {
        lemma_lists_fit(app, positions, contexts, request, response, i);
    }
}

proof fn lemma_leads_on<H: Handler>(
    app: App<H>,
    positions: Seq<Cursor>,
    contexts: Seq<Context<H>>,
    request: RequestView,
    response: Response,
    i: int,
    j: int,
)
    requires
        app.walks(positions, contexts, request, response),
        0 <= i < j < positions.len(),
    ensures
        precedes(positions[i], positions[j]),
    decreases j - i,
{
    lemma_move_leads_on(app, positions, contexts, request, response, j - 1);
    if i < j - 1 {
        lemma_leads_on(app, positions, contexts, request, response, i, j - 1);
    }
}

/// A walk passes no position twice: no handler is called a second time.
pub proof fn law_no_position_comes_twice<H: Handler>(
    app: App<H>,
    positions: Seq<Cursor>,
    contexts: Seq<Context<H>>,
    request: RequestView,
    response: Response,
)
    requires
        app.walks(positions, contexts, request, response),
    ensures
        forall|i: int, j: int|
            0 <= i < j < positions.len() ==> precedes(#[trigger] positions[i], #[trigger] positions[j]),
        forall|i: int, j: int|
            0 <= i < j < positions.len() ==> #[trigger] positions[i] != #[trigger] positions[j],
{
    assert forall|i: int, j: int| 0 <= i < j < positions.len() implies precedes(
        #[trigger] positions[i],
        #[trigger] positions[j],
    ) by {
        lemma_leads_on(app, positions, contexts, request, response, i, j);
    }
}

/// The walk starts with the `begin` handlers, one after the other.
proof fn lemma_begins<H: Handler>(
    app: App<H>,
    positions: Seq<Cursor>,
    contexts: Seq<Context<H>>,
    request: RequestView,
    response: Response,
    k: int,
)
    requires
        app.walks(positions, contexts, request, response),
        0 <= k <= app.begin_list().len(),
    ensures
        k < positions.len(),
        positions[k].stage == Stage::Begin,
        positions[k].index == k,
    decreases k,
{
    if k > 0 {
        lemma_begins(app, positions, contexts, request, response, k - 1);
        lemma_lists_fit(app, positions, contexts, request, response, k - 1);
        if k - 1 < positions.len() - 1 {
            assert(app.moved(positions, contexts, k - 1));
        }
    }
}

/// Every `begin` handler is called, whether the latch is set or not: the
/// first moves of a walk call them in the order of their registration, also
/// those that come after one that stopped the request.
pub proof fn law_every_begin_handler_runs<H: Handler>(
    app: App<H>,
    positions: Seq<Cursor>,
    contexts: Seq<Context<H>>,
    request: RequestView,
    response: Response,
)
    requires
        app.walks(positions, contexts, request, response),
    ensures
        forall|k: int|
            0 <= k < app.begin_list().len() ==> calls(
                positions,
                contexts,
                k,
                Stage::Begin,
                k,
                (#[trigger] app.begin_list()[k]).inner,
            ),
{
    assert forall|k: int| 0 <= k < app.begin_list().len() implies calls(
        positions,
        contexts,
        k,
        Stage::Begin,
        k,
        (#[trigger] app.begin_list()[k]).inner,
    ) by {
        lemma_begins(app, positions, contexts, request, response, k);
        lemma_begins(app, positions, contexts, request, response, k + 1);
        assert(app.moved(positions, contexts, k));
    }
}

/// Within the `finish` handlers a walk stands at one of them or right
/// behind the last.
proof fn lemma_finish_within<H: Handler>(
    app: App<H>,
    positions: Seq<Cursor>,
    contexts: Seq<Context<H>>,
    request: RequestView,
    response: Response,
    i: int,
)
    requires
        app.walks(positions, contexts, request, response),
        0 <= i < positions.len(),
        positions[i].stage == Stage::Finish,
    ensures
        positions[i].index <= app.finish_list().len(),
        app.finish_list().len() <= usize::MAX,
        i > 0,
        positions[i].index > 0 ==> positions[i - 1].stage == Stage::Finish && positions[i - 1].index
            + 1 == positions[i].index,
    decreases i,
{
    lemma_lists_fit(app, positions, contexts, request, response, i);
    assert(i > 0);
    assert(app.moved(positions, contexts, i - 1));
    if positions[i - 1].stage == Stage::Finish {
        lemma_finish_within(app, positions, contexts, request, response, i - 1);
    }
}

/// The walk ends with the `finish` handlers, one after the other.
proof fn lemma_finishes<H: Handler>(
    app: App<H>,
    positions: Seq<Cursor>,
    contexts: Seq<Context<H>>,
    request: RequestView,
    response: Response,
    j: int,
)
    requires
        app.walks(positions, contexts, request, response),
        0 <= j <= app.finish_list().len(),
    ensures
        positions.len() - 2 - j >= 0,
        positions[positions.len() - 2 - j].stage == Stage::Finish,
        positions[positions.len() - 2 - j].index == app.finish_list().len() - j,
    decreases j,
{
    let n = positions.len() as int;
    if j == 0 {
        assert(n >= 2);
        assert(app.moved(positions, contexts, n - 2));
        lemma_finish_within(app, positions, contexts, request, response, n - 2);
    } else {
        lemma_finishes(app, positions, contexts, request, response, j - 1);
        lemma_finish_within(app, positions, contexts, request, response, n - 1 - j);
    }
}

/// Every `finish` handler is called, whether the latch is set or not: the
/// last moves of a walk call them in the order of their registration, and
/// the response that is handed out is the one that the last of them
/// leaves.
pub proof fn law_every_finish_handler_runs<H: Handler>(
    app: App<H>,
    positions: Seq<Cursor>,
    contexts: Seq<Context<H>>,
    request: RequestView,
    response: Response,
)
    requires
        app.walks(positions, contexts, request, response),
    ensures
        positions.len() >= app.finish_list().len() + 2,
        forall|k: int|
            0 <= k < app.finish_list().len() ==> calls(
                positions,
                contexts,
                positions.len() - 2 - app.finish_list().len() + k,
                Stage::Finish,
                k,
                (#[trigger] app.finish_list()[k]).inner,
            ),
        response == contexts[positions.len() - 2].response,
{
    let n = positions.len() as int;
    let f = app.finish_list().len() as int;
    lemma_finishes(app, positions, contexts, request, response, f);
    lemma_finishes(app, positions, contexts, request, response, 0);
    assert(app.moved(positions, contexts, n - 2));
    assert forall|k: int| 0 <= k < f implies calls(
        positions,
        contexts,
        n - 2 - f + k,
        Stage::Finish,
        k,
        (#[trigger] app.finish_list()[k]).inner,
    ) by {
        lemma_finishes(app, positions, contexts, request, response, f - k);
        assert(app.moved(positions, contexts, n - 2 - f + k));
    }
}

proof fn lemma_stopped_stays<H: Handler>(
    app: App<H>,
    positions: Seq<Cursor>,
    contexts: Seq<Context<H>>,
    request: RequestView,
    response: Response,
    i: int,
    j: int,
)
    requires
        app.walks(positions, contexts, request, response),
        0 <= i <= j < positions.len(),
        contexts[i].is_stopped(),
        guarded(positions[i].stage),
        j > i ==> guarded(positions[j - 1].stage),
    ensures
        contexts[j] == contexts[i],
    decreases j - i,
{
    if i < j {
        if i < j - 1 {
            lemma_stages_in_order(app, positions, contexts, request, response, i, j - 2);
            lemma_stages_in_order(app, positions, contexts, request, response, j - 2, j - 1);
        }
        lemma_stopped_stays(app, positions, contexts, request, response, i, j - 1);
        assert(app.moved(positions, contexts, j - 1));
    }
}

/// Once the latch is set, nothing that it guards runs for the rest of the
/// request: from a position between `begin` and `finish` at which the
/// request is stopped, the context stays as it is through every move that
/// starts between `begin` and `finish`. No `before` or `after` handler of
/// the application, the group or the route, no route handler and no
/// fallback touches it, the request is not routed, and the first `finish`
/// handler is given the context as it was when the request was stopped.
pub proof fn law_nothing_guarded_runs_once_stopped<H: Handler>(
    app: App<H>,
    positions: Seq<Cursor>,
    contexts: Seq<Context<H>>,
    request: RequestView,
    response: Response,
)
    requires
        app.walks(positions, contexts, request, response),
    ensures
        forall|i: int, j: int|
            0 <= i < j < positions.len() && (#[trigger] contexts[i]).is_stopped() && guarded(
                positions[i].stage,
            ) && guarded(positions[j - 1].stage) ==> #[trigger] contexts[j] == contexts[i],
{
    assert forall|i: int, j: int|
        0 <= i < j < positions.len() && (#[trigger] contexts[i]).is_stopped() && guarded(
            positions[i].stage,
        ) && guarded(positions[j - 1].stage) implies #[trigger] contexts[j] == contexts[i] by {
        lemma_stopped_stays(app, positions, contexts, request, response, i, j);
    }
}

} // verus!
