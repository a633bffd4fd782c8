//! Scripts: what an operation does, for every behaviour of the outside.
use crate::dialogue::{Reply, RequestView};
use vstd::prelude::*;

verus! {

/// All that is left to be done in an operation with result `R`.
pub enum Script<R> {
    /// The operation is done.
    Done(R),
    /// The outside is asked for something, and what follows depends on its
    /// reply.
    Ask(RequestView, spec_fn(Reply) -> Script<R>),
    /// The operation has come to something that the server does not support.
    Halt,
}

impl<R> Script<R> {
    /// Runs this script and then, with its result, another one.
    pub open spec fn bind<T>(self, then: spec_fn(R) -> Script<T>) -> Script<T>
        decreases self,
    {
        match self {
            Script::Done(result) => then(result),
            Script::Ask(request, next) => Script::Ask(
                request,
                |reply: Reply| next(reply).bind(then),
            ),
            Script::Halt => Script::Halt,
        }
    }

    /// What is left to be done after the reply to the first request.
    pub open spec fn after(self, reply: Reply) -> Script<R> {
        (self->Ask_1)(reply)
    }

    /// The reply is one to the first request, and the operation can go on
    /// from it.
    pub open spec fn admits(self, reply: Reply) -> bool {
        &&& self is Ask
        &&& self->Ask_0.answered_by(reply)
        &&& !(self.after(reply) is Halt)
    }

    /// How a step through `bind` goes.
    pub proof fn lemma_bind<T>(self, then: spec_fn(R) -> Script<T>, reply: Reply)
        requires
            self is Ask,
        ensures
            self.bind(then) is Ask,
            self.bind(then)->Ask_0 == self->Ask_0,
            self.bind(then).after(reply) == self.after(reply).bind(then),
            self.bind(then).admits(reply) == (self.admits(reply) && !(self.after(reply) is Done
                && then(self.after(reply)->Done_0) is Halt)),
            match self.after(reply) {
                Script::Done(result) => self.bind(then).after(reply) == then(result),
                _ => true,
            },
    {
    }
}

/// A request and the reply to it.
pub struct Step {
    pub request: RequestView,
    pub reply: Reply,
}

/// What laws about scripts are made of.
impl<R> Script<R> {
    /// However the outside replies: every request is one that the rule allows
    /// after all that went before, and every result is one that `end` allows
    /// at that point. `past` is what went before the script.
    pub open spec fn obeys(
        self,
        past: Seq<Step>,
        rule: spec_fn(Seq<Step>, RequestView) -> bool,
        end: spec_fn(Seq<Step>, R) -> bool,
    ) -> bool
        decreases self,
    {
        match self {
            Script::Done(result) => end(past, result),
            Script::Ask(request, next) => {
                &&& rule(past, request)
                &&& forall|reply: Reply|
                    request.answered_by(reply) ==> (#[trigger] next(reply)).obeys(
                        past.push(Step { request, reply }),
                        rule,
                        end,
                    )
            },
            Script::Halt => true,
        }
    }

    /// Two scripts, one after the other, obey a rule if both do.
    pub proof fn lemma_obeys_bind<T>(
        self,
        then: spec_fn(R) -> Script<T>,
        past: Seq<Step>,
        rule: spec_fn(Seq<Step>, RequestView) -> bool,
        mid: spec_fn(Seq<Step>, R) -> bool,
        end: spec_fn(Seq<Step>, T) -> bool,
    )
        requires
            self.obeys(past, rule, mid),
            forall|p: Seq<Step>, r: R|
                past.is_prefix_of(p) && #[trigger] mid(p, r) ==> then(r).obeys(p, rule, end),
        ensures
            self.bind(then).obeys(past, rule, end),
        decreases self,
    {
        match self {
            Script::Done(result) => {
                assert(past.is_prefix_of(past));
                assert(mid(past, result));
            },
            Script::Ask(request, next) => {
                let bound = self.bind(then)->Ask_1;
                assert forall|reply: Reply| request.answered_by(reply) implies (#[trigger] bound(
                    reply,
                )).obeys(past.push(Step { request, reply }), rule, end) by {
                    let longer = past.push(Step { request, reply });
                    assert forall|p: Seq<Step>, r: R|
                        longer.is_prefix_of(p) && #[trigger] mid(p, r) implies then(r).obeys(
                        p,
                        rule,
                        end,
                    ) by {
                        assert(past =~= longer.subrange(0, past.len() as int));
                        assert(past.is_prefix_of(p));
                    }
                    next(reply).lemma_obeys_bind(then, longer, rule, mid, end);
                }
            },
            Script::Halt => {},
        }
    }

    /// A script that obeys a rule obeys any weaker one.
    pub proof fn lemma_obeys_weaker(
        self,
        past: Seq<Step>,
        rule: spec_fn(Seq<Step>, RequestView) -> bool,
        end: spec_fn(Seq<Step>, R) -> bool,
        weaker_rule: spec_fn(Seq<Step>, RequestView) -> bool,
        weaker_end: spec_fn(Seq<Step>, R) -> bool,
    )
        requires
            self.obeys(past, rule, end),
            forall|p: Seq<Step>, q: RequestView|
                past.is_prefix_of(p) && #[trigger] rule(p, q) ==> weaker_rule(p, q),
            forall|p: Seq<Step>, r: R|
                past.is_prefix_of(p) && #[trigger] end(p, r) ==> weaker_end(p, r),
        ensures
            self.obeys(past, weaker_rule, weaker_end),
        decreases self,
    {
        assert(past.is_prefix_of(past));
        match self {
            Script::Done(result) => {
                assert(end(past, result));
            },
            Script::Ask(request, next) => {
                assert(rule(past, request));
                assert forall|reply: Reply| request.answered_by(reply) implies (#[trigger] next(
                    reply,
                )).obeys(past.push(Step { request, reply }), weaker_rule, weaker_end) by {
                    let longer = past.push(Step { request, reply });
                    assert(past =~= longer.subrange(0, past.len() as int));
                    assert forall|p: Seq<Step>| longer.is_prefix_of(p) implies past.is_prefix_of(
                        p,
                    ) by {}
                    next(reply).lemma_obeys_weaker(longer, rule, end, weaker_rule, weaker_end);
                }
            },
            Script::Halt => {},
        }
    }

    /// A script obeys what holds of every request and every result from here
    /// on.
    pub proof fn lemma_obeys_settled(
        self,
        past: Seq<Step>,
        rule: spec_fn(Seq<Step>, RequestView) -> bool,
        end: spec_fn(Seq<Step>, R) -> bool,
    )
        requires
            forall|p: Seq<Step>, q: RequestView| past.is_prefix_of(p) ==> #[trigger] rule(p, q),
            forall|p: Seq<Step>, r: R| past.is_prefix_of(p) ==> #[trigger] end(p, r),
        ensures
            self.obeys(past, rule, end),
        decreases self,
    {
        assert(past.is_prefix_of(past));
        if let Script::Ask(request, next) = self {
            assert forall|reply: Reply| request.answered_by(reply) implies (#[trigger] next(
                reply,
            )).obeys(past.push(Step { request, reply }), rule, end) by {
                let longer = past.push(Step { request, reply });
                assert(past =~= longer.subrange(0, past.len() as int));
                next(reply).lemma_obeys_settled(longer, rule, end);
            }
        }
    }
}

} // verus!
