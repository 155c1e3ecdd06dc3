//! The calls that are made to a handler of frames.

use super::frame::{FrameRef, Message};
use super::parser;
use vstd::prelude::*;

verus! {

/// A handler, with the calls that were made to it. It can be called only in a
/// way that is noted, and what is noted stays.
#[verifier::reject_recursive_types(F)]
pub struct Calls<F> {
    handler: F,
    made: Ghost<Seq<Message>>,
}

impl<F> View for Calls<F> {
    type V = Seq<Message>;

    /// What the frames said that the handler was called on, call by call.
    closed spec fn view(&self) -> Seq<Message> {
        self.made@
    }
}

impl<F: FnMut(FrameRef<'_>)> Calls<F> {
    /// The handler that is called.
    pub closed spec fn handler(&self) -> F {
        self.handler
    }

    /// No calls yet.
    pub(crate) fn new(handler: F) -> (calls: Calls<F>)
        ensures
            calls.handler() == handler,
            calls@ == Seq::<Message>::empty(),
    {
        Calls { handler, made: Ghost(Seq::empty()) }
    }

    /// Calls the handler on a frame.
    pub(crate) fn call(self, frame: FrameRef<'_>) -> (calls: Calls<F>)
        requires
            call_requires(self.handler(), (frame,)),
        ensures
            calls.handler() == self.handler(),
            calls@ == self@.push(frame@),
            parser::handled(self.handler(), frame@),
    {
        let ghost made = self.made@.push(frame@);
        let mut handler = self.handler;
        handler(frame);
        Calls { handler, made: Ghost(made) }
    }
}

} // verus!
