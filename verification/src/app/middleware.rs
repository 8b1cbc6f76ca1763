//! A handler that runs around the routes.

use vstd::prelude::*;
use crate::app::context::{passes, Context, Handler};

verus! {

pub struct Middleware<H> {
    pub inner: H,
}

impl<H: Handler> Middleware<H> {
    /// Runs the handler unless the latch is set: a request that was
    /// stopped passes through untouched, and any other is left as the
    /// handler leaves it.
    pub fn execute(&self, context: &mut Context<H>)
        ensures
            passes(self.inner, *old(context), *final(context)),
    {
        if context.next() {
            self.inner.call(context);
        }
    }

    /// Runs the handler whether the latch is set or not: the context is
    /// left as the handler leaves it.
    pub fn execute_always(&self, context: &mut Context<H>)
        ensures
            self.inner.turns(*old(context), *final(context)),
    {
        self.inner.call(context);
    }
}

} // verus!
