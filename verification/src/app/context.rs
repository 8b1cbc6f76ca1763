//! The per-request context that handlers work on.

use vstd::prelude::*;
use crate::app::application::App;
use crate::http::request::Request;
use crate::http::response::Response;

verus! {

/// The key-value container of the `nson` crate.
#[verifier::external_type_specification]
#[verifier::external_body]
pub struct ExBag(nson::Map);

/// The keys that a container holds.
pub uninterp spec fn bag_keys(bag: nson::Map) -> Set<Seq<char>>;

/// An empty container: `nson::Map::new`, which makes a map that holds
/// nothing.
#[verifier::external_body]
fn empty_bag() -> (bag: nson::Map)
    ensures
        bag_keys(bag) == Set::<Seq<char>>::empty(),
{
    nson::Map::new()
}

/// A flag that can be set and never cleared.
pub struct Latch {
    set: bool,
}

impl Latch {
    pub closed spec fn is_set(&self) -> bool {
        self.set
    }

    pub(crate) fn new() -> (latch: Latch)
        ensures
            !latch.is_set(),
    {
        Latch { set: false }
    }

    /// Sets the latch.
    pub fn set(&mut self)
        ensures
            final(self).is_set(),
    {
        self.set = true;
    }

    pub fn get(&self) -> (set: bool)
        ensures
            set == self.is_set(),
    {
        self.set
    }
}

/// What a handler gets: the application, the request, the response under
/// construction, a bag for values that handlers pass to each other, and
/// the stop latch.
pub struct Context<'a, H> {
    /// The application that handles the request.
    pub app: &'a App<H>,
    /// The request.
    pub request: Request,
    /// The response.
    pub response: Response,
    /// Values that handlers hand on.
    pub contexts: nson::Map,
    /// Set once the request is stopped.
    pub latch: Latch,
}

impl<'a, H> Context<'a, H> {
    /// Whether the latch is set.
    pub open spec fn is_stopped(&self) -> bool {
        self.latch.is_set()
    }

    /// The context of a fresh request: a response with status 200 and
    /// nothing in it, an empty bag, and the latch open.
    pub fn new(app: &'a App<H>, request: Request) -> (context: Context<'a, H>)
        ensures
            context.app == app,
            context.request == request,
            bag_keys(context.contexts) == Set::<Seq<char>>::empty(),
            context.response.status() == 200,
            context.response.header_map() == Map::<Seq<char>, Seq<char>>::empty(),
            context.response.content() == Seq::<u8>::empty(),
            !context.is_stopped(),
    {
        Context {
            app,
            request,
            response: Response::empty(200u16),
            contexts: empty_bag(),
            latch: Latch::new(),
        }
    }

    /// Sets the latch: what is guarded by it will not run for this request.
    pub fn stop(&mut self)
        ensures
            final(self).is_stopped(),
            final(self).app == old(self).app,
            final(self).request == old(self).request,
            final(self).response == old(self).response,
            final(self).contexts == old(self).contexts,
    {
        self.latch.set();
    }

    /// Whether the latch is still open.
    pub fn next(&self) -> (open: bool)
        ensures
            open == !self.is_stopped(),
    {
        !self.latch.get()
    }

    /// Gives up the context for its response, which is handed on as it
    /// stands.
    pub fn finish(self) -> (response: Response)
        ensures
            response == self.response,
    {
        self.response
    }
}

/// What the application calls: a piece of user code that works on the
/// context. Nothing is asked of it. What it may do is its own to say:
/// `turns` relates the context it is given to the context it leaves.
pub trait Handler: Sized {
    /// Whether the handler may turn the context `before` into `after`. A
    /// handler that says nothing of itself may do anything.
    open spec fn turns(&self, before: Context<Self>, after: Context<Self>) -> bool {
        true
    }

    fn call(&self, context: &mut Context<Self>)
        ensures
            self.turns(*old(context), *final(context)),
    ;
}

/// What a guarded call of a handler does to a context: nothing where the
/// latch is set, and what the handler does where it is open.
pub open spec fn passes<H: Handler>(handler: H, before: Context<H>, after: Context<H>) -> bool {
    if before.is_stopped() {
        after == before
    } else {
        handler.turns(before, after)
    }
}

} // verus!
