//! Operations: scripts that can be run step by step.
use crate::dialogue::{Reply, Request};
use crate::script::Script;
use vstd::prelude::*;

verus! {

/// An operation after a step: it either waits for a reply or is done.
pub enum Flow<O, R> {
    Pending(O),
    Done(R),
}

/// An operation that waits for the reply to a request.
///
/// To run it: carry out the request, make sure that the reply is one that the
/// operation admits, resume it with the reply, and so on until it is done.
pub trait Operation: Sized {
    /// The result of the operation.
    type Output;

    /// The result as it stands in the script.
    type Meaning;

    spec fn meaning(output: Self::Output) -> Self::Meaning;

    /// What is left to be done.
    spec fn script(&self) -> Script<Self::Meaning>;

    /// The request that waits for a reply.
    fn request(&self) -> (request: Request<'_>)
        ensures
            self.script() is Ask,
            request@ == self.script()->Ask_0,
    ;

    /// Whether the reply is one to the request, and one that the server can
    /// go on from.
    fn admits(&self, reply: &Reply) -> (b: bool)
        ensures
            b == self.script().admits(*reply),
    ;

    /// Takes the reply and goes on to the next request, or to the end.
    fn resume(self, reply: Reply) -> (flow: Flow<Self, Self::Output>)
        requires
            self.script().admits(reply),
        ensures
            match flow {
                Flow::Pending(next) => next.script() == self.script().after(reply),
                Flow::Done(output) => self.script().after(reply) == Script::Done(
                    Self::meaning(output),
                ),
            },
    ;
}

} // verus!
