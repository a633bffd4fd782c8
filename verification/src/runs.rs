//! Runs of scripts: the steps that were taken, and what came of them.
use crate::dialogue::{Reply, RequestView};
use crate::error::ErrorView;
use crate::script::{Script, Step};
use crate::store::Missing;
use crate::types::{CertAuth, CommandView};
use vstd::prelude::*;

verus! {

/// With these steps, each of them a request of the script and a reply to it,
/// the script comes to what is left.
pub open spec fn reached<R>(script: Script<R>, steps: Seq<Step>, left: Script<R>) -> bool
    decreases steps.len(),
{
    if steps.len() == 0 {
        script == left
    } else {
        &&& script matches Script::Ask(request, next) && {
            &&& steps[0].request == request
            &&& request.answered_by(steps[0].reply)
            &&& reached(next(steps[0].reply), steps.drop_first(), left)
        }
    }
}

/// These are all steps of the script, and it has ended with this result.
pub open spec fn ran<R>(script: Script<R>, steps: Seq<Step>, result: R) -> bool {
    reached(script, steps, Script::Done(result))
}

/// The steps have led to something that the server does not support.
pub open spec fn halted<R>(script: Script<R>, steps: Seq<Step>) -> bool {
    reached(script, steps, Script::Halt)
}

/// The first step of a run, and the run that is left after it.
pub proof fn lemma_first_step<R>(script: Script<R>, steps: Seq<Step>, result: R)
    requires
        ran(script, steps, result),
        script is Ask,
    ensures
        steps.len() > 0,
        steps[0].request == script->Ask_0,
        steps[0].request.answered_by(steps[0].reply),
        ran((script->Ask_1)(steps[0].reply), steps.skip(1), result),
{
    assert(steps.drop_first() =~= steps.skip(1));
}

/// How a run of two scripts, one after the other, is made up.
pub proof fn lemma_ran_bind<R, T>(
    script: Script<R>,
    then: spec_fn(R) -> Script<T>,
    steps: Seq<Step>,
    result: T,
) -> (cut: (int, R))
    requires
        ran(script.bind(then), steps, result),
    ensures
        0 <= cut.0 <= steps.len(),
        ran(script, steps.take(cut.0), cut.1),
        ran(then(cut.1), steps.skip(cut.0), result),
    decreases script,
{
    match script {
        Script::Done(r) => {
            assert(steps.skip(0) =~= steps);
            assert(steps.take(0).len() == 0);
            (0, r)
        },
        Script::Ask(request, next) => {
            let reply = steps[0].reply;
            let rest = steps.drop_first();
            script.lemma_bind(then, reply);
            assert(steps.len() > 0);
            let (n, r) = lemma_ran_bind(next(reply), then, rest, result);
            assert(steps.take(n + 1).drop_first() =~= rest.take(n));
            assert(steps.skip(n + 1) =~= rest.skip(n));
            assert(steps.take(n + 1)[0] == steps[0]);
            (n + 1, r)
        },
        Script::Halt => {
            assert(false);
            (0, arbitrary())
        },
    }
}

/// How two scripts, one after the other, come to a halt: the first one does,
/// or the second one after the first.
pub proof fn lemma_halted_bind<R, T>(
    script: Script<R>,
    then: spec_fn(R) -> Script<T>,
    steps: Seq<Step>,
) -> (cut: (int, R))
    requires
        halted(script.bind(then), steps),
    ensures
        halted(script, steps) || {
            &&& 0 <= cut.0 <= steps.len()
            &&& ran(script, steps.take(cut.0), cut.1)
            &&& halted(then(cut.1), steps.skip(cut.0))
        },
    decreases script,
{
    match script {
        Script::Done(r) => {
            assert(steps.skip(0) =~= steps);
            (0, r)
        },
        Script::Ask(request, next) => {
            let reply = steps[0].reply;
            let rest = steps.drop_first();
            script.lemma_bind(then, reply);
            assert(steps.len() > 0);
            let (n, r) = lemma_halted_bind(next(reply), then, rest);
            if !halted(next(reply), rest) {
                assert(steps.take(n + 1).drop_first() =~= rest.take(n));
                assert(steps.skip(n + 1) =~= rest.skip(n));
                assert(steps.take(n + 1)[0] == steps[0]);
            }
            (n + 1, r)
        },
        Script::Halt => (0, arbitrary()),
    }
}

/// The error that a step is reported as, if it has failed. `missing` says how
/// it is reported that a CA could not be loaded.
pub open spec fn fault(step: Step, missing: Missing) -> Option<ErrorView> {
    match (step.request, step.reply) {
        (RequestView::Latest(name), Reply::Ca(Err(error))) => Some(
            match missing {
                Missing::TrustAnchor => ErrorView::TrustAnchorNotInitialisedError,
                Missing::Unknown => ErrorView::UnknownCa(name),
                Missing::Store => ErrorView::AggregateStoreError(error@),
            },
        ),
        (_, Reply::Ca(Err(error))) => Some(ErrorView::AggregateStoreError(error@)),
        (_, Reply::StoreOpened(Err(error))) => Some(ErrorView::AggregateStoreError(error@)),
        (_, Reply::Added(Err(error))) => Some(ErrorView::AggregateStoreError(error@)),
        (_, Reply::Init(Err(error))) => Some(ErrorView::CertAuth(error@)),
        (_, Reply::Events(Err(error))) => Some(ErrorView::CertAuth(error@)),
        (_, Reply::Entitlements(Err(error))) => Some(ErrorView::CertAuth(error@)),
        (_, Reply::Issuance(Err(error))) => Some(ErrorView::CertAuth(error@)),
        (_, Reply::Contact(Err(error))) => Some(ErrorView::CertAuth(error@)),
        (_, Reply::Verified(Err(error))) => Some(ErrorView::CertAuth(error@)),
        (RequestView::SignResponse(_, _), Reply::Signed(Err(error))) => Some(
            ErrorView::CertAuth(error@),
        ),
        _ => None,
    }
}

/// No step has failed.
pub open spec fn faultless(steps: Seq<Step>, missing: Missing) -> bool {
    forall|i: int| 0 <= i < steps.len() ==> fault(#[trigger] steps[i], missing) is None
}

/// The run was given up with this error: the last step has failed with it,
/// and no other step has failed.
pub open spec fn given_up(steps: Seq<Step>, missing: Missing, error: ErrorView) -> bool {
    &&& steps.len() > 0
    &&& faultless(steps.drop_last(), missing)
    &&& fault(steps.last(), missing) == Some(error)
}

/// The state of a CA that a step was given.
pub open spec fn given(step: Step) -> CertAuth {
    step.reply->Ca_0->Ok_0
}

/// The CA that the step before has given processes the command.
pub open spec fn commanded(steps: Seq<Step>, i: int, command: CommandView) -> bool {
    steps[i].request == RequestView::Process(given(steps[i - 1]), command)
}

/// What the CA `name`, in the state in which it has processed a command in
/// the step before, has made of it is stored, whatever it is.
pub open spec fn kept(steps: Seq<Step>, i: int, name: Seq<char>) -> bool {
    &&& steps[i - 1].request is Process
    &&& steps[i].request == RequestView::Update(
        name,
        steps[i - 1].request->Process_0,
        steps[i - 1].reply->Events_0->Ok_0@,
    )
}

/// The CA has made no changes of the command of this step.
pub open spec fn idle(step: Step) -> bool {
    step.reply->Events_0->Ok_0@.len() == 0
}

} // verus!
