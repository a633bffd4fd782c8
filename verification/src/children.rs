//! The children of the trust anchor, with one that keeps track of them.
use crate::dialogue::{Reply, RequestView};
use crate::error::ErrorView;
use crate::outcomes::{law_add_child_run, law_show_child_run};
use crate::runs::{fault, given, ran, reached};
use crate::script::{Script, Step};
use crate::session::Call;
use crate::store::{execute_script, Missing, Settled};
use crate::trust_anchor::{child_contact, child_id_cert, show_child_script, ta_add_child_script};
use crate::types::{
    AddChildRequest, CaEvent, CertAuth, ChildAuthRequest, ChildCaInfo, CommandView, ContactView,
    TA_NAME,
};
use vstd::prelude::*;

verus! {

/// The changes that a state of the trust anchor has made of the command to
/// add a child.
pub struct Addition {
    pub ca: CertAuth,
    pub child: Seq<char>,
    pub events: Seq<CaEvent>,
}

/// A trust anchor in the store: its latest state, and the last addition of a
/// child that is not stored yet, if there is one.
pub struct Anchor {
    pub latest: CertAuth,
    pub pending: Option<Addition>,
}

/// The reply is one of a store that holds the trust anchor, and of a trust
/// anchor that keeps track of its children. `details` says what each state
/// knows of a child, if it knows it. What is loaded is the latest state, and
/// a child is shown as that state knows it. When changes are stored, the new
/// state knows every child that the latest one knows, and the child whose
/// addition they are.
pub open spec fn truthful(
    anchor: Anchor,
    details: spec_fn(CertAuth, Seq<char>) -> Option<ChildCaInfo>,
    request: RequestView,
    reply: Reply,
) -> bool {
    match request {
        RequestView::Latest(name) => name == TA_NAME@ ==> reply == Reply::Ca(Ok(anchor.latest)),
        RequestView::Child(ca, child) => match details(ca, child) {
            Some(info) => reply == Reply::Child(Ok(info)),
            None => reply matches Reply::Child(Err(_)),
        },
        RequestView::Update(name, ca, events) => name == TA_NAME@ ==> (reply matches Reply::Ca(
            Ok(new),
        ) ==> {
            &&& forall|child: Seq<char>|
                details(anchor.latest, child) is Some ==> #[trigger] details(new, child) is Some
            &&& anchor.pending matches Some(addition) ==> (addition.ca == ca && addition.events
                == events ==> details(new, addition.child) is Some)
        }),
        _ => true,
    }
}

/// The trust anchor after a request.
pub open spec fn anchor_after(anchor: Anchor, request: RequestView, reply: Reply) -> Anchor {
    match (request, reply) {
        (
            RequestView::Process(ca, CommandView::ChildAdd { ca: name, child, .. }),
            Reply::Events(Ok(events)),
        ) => Anchor {
            latest: anchor.latest,
            pending: if name == TA_NAME@ {
                Some(Addition { ca, child, events: events@ })
            } else {
                None
            },
        },
        (RequestView::Process(_, _), _) => Anchor { latest: anchor.latest, pending: None },
        (RequestView::Update(name, _, _), Reply::Ca(Ok(new))) => if name == TA_NAME@ {
            Anchor { latest: new, pending: None }
        } else {
            anchor
        },
        _ => anchor,
    }
}

/// With such a trust anchor, every result and what has become of the trust
/// anchor is as `end` says.
pub open spec fn tells<R>(
    script: Script<R>,
    anchor: Anchor,
    details: spec_fn(CertAuth, Seq<char>) -> Option<ChildCaInfo>,
    end: spec_fn(Anchor, R) -> bool,
) -> bool
    decreases script,
{
    match script {
        Script::Done(result) => end(anchor, result),
        Script::Ask(request, next) => forall|reply: Reply|
            request.answered_by(reply) && truthful(anchor, details, request, reply) ==> tells(
                #[trigger] next(reply),
                anchor_after(anchor, request, reply),
                details,
                end,
            ),
        Script::Halt => true,
    }
}

/// With such a trust anchor, however the calls go, one after the other, what
/// has become of the trust anchor is as `end` says.
pub open spec fn later(
    calls: Seq<Call>,
    anchor: Anchor,
    details: spec_fn(CertAuth, Seq<char>) -> Option<ChildCaInfo>,
    end: spec_fn(Anchor) -> bool,
) -> bool
    decreases calls.len(), 0nat,
{
    if calls.len() == 0 {
        end(anchor)
    } else {
        tells(calls[0].script(), anchor, details, rest_later(calls.drop_first(), details, end))
    }
}

/// Goes on with the calls that are left.
pub open spec fn rest_later(
    rest: Seq<Call>,
    details: spec_fn(CertAuth, Seq<char>) -> Option<ChildCaInfo>,
    end: spec_fn(Anchor) -> bool,
) -> spec_fn(Anchor, bool) -> bool
    decreases rest.len(), 1nat,
{
    |after: Anchor, well: bool| later(rest, after, details, end)
}

/// A child is shown as the latest state of the trust anchor knows it: its
/// details if it is known, and otherwise nothing, which is no failure. To
/// show it changes nothing.
pub proof fn law_child_is_shown_as_known(
    child: Seq<char>,
    anchor: Anchor,
    details: spec_fn(CertAuth, Seq<char>) -> Option<ChildCaInfo>,
)
    ensures
        tells(
            show_child_script(TA_NAME@, child),
            anchor,
            details,
            |after: Anchor, res: Result<Option<ChildCaInfo>, ErrorView>|
                after == anchor && res == Ok::<_, ErrorView>(details(anchor.latest, child)),
        ),
{
    reveal_with_fuel(tells, 3);
}

/// The latest state of the trust anchor knows the child.
pub open spec fn knows<R>(
    child: Seq<char>,
    details: spec_fn(CertAuth, Seq<char>) -> Option<ChildCaInfo>,
) -> spec_fn(Anchor, R) -> bool {
    |after: Anchor, r: R| details(after.latest, child) is Some
}

/// Whatever is done, a child that is known stays known.
proof fn lemma_stays_known<R>(
    script: Script<R>,
    child: Seq<char>,
    anchor: Anchor,
    details: spec_fn(CertAuth, Seq<char>) -> Option<ChildCaInfo>,
)
    requires
        details(anchor.latest, child) is Some,
    ensures
        tells(script, anchor, details, knows(child, details)),
    decreases script,
{
    if let Script::Ask(request, next) = script {
        assert forall|reply: Reply|
            request.answered_by(reply) && truthful(anchor, details, request, reply) implies tells(
            #[trigger] next(reply),
            anchor_after(anchor, request, reply),
            details,
            knows(child, details),
        ) by {
            let after = anchor_after(anchor, request, reply);
            assert(details(after.latest, child) is Some);
            lemma_stays_known(next(reply), child, after, details);
        }
    }
}

proof fn lemma_tells_weaker<R>(
    script: Script<R>,
    anchor: Anchor,
    details: spec_fn(CertAuth, Seq<char>) -> Option<ChildCaInfo>,
    end: spec_fn(Anchor, R) -> bool,
    weaker: spec_fn(Anchor, R) -> bool,
)
    requires
        tells(script, anchor, details, end),
        forall|after: Anchor, r: R| #[trigger] end(after, r) ==> weaker(after, r),
    ensures
        tells(script, anchor, details, weaker),
    decreases script,
{
    match script {
        Script::Done(result) => {
            assert(end(anchor, result));
        },
        Script::Ask(request, next) => {
            assert forall|reply: Reply|
                request.answered_by(reply) && truthful(
                    anchor,
                    details,
                    request,
                    reply,
                ) implies tells(
                #[trigger] next(reply),
                anchor_after(anchor, request, reply),
                details,
                weaker,
            ) by {
                lemma_tells_weaker(
                    next(reply),
                    anchor_after(anchor, request, reply),
                    details,
                    end,
                    weaker,
                );
            }
        },
        Script::Halt => {},
    }
}

proof fn lemma_tells_bind<R, T>(
    script: Script<R>,
    then: spec_fn(R) -> Script<T>,
    anchor: Anchor,
    details: spec_fn(CertAuth, Seq<char>) -> Option<ChildCaInfo>,
    mid: spec_fn(Anchor, R) -> bool,
    end: spec_fn(Anchor, T) -> bool,
)
    requires
        tells(script, anchor, details, mid),
        forall|after: Anchor, r: R|
            #[trigger] mid(after, r) ==> tells(then(r), after, details, end),
    ensures
        tells(script.bind(then), anchor, details, end),
    decreases script,
{
    match script {
        Script::Done(result) => {
            assert(mid(anchor, result));
        },
        Script::Ask(request, next) => {
            let bound = script.bind(then)->Ask_1;
            assert forall|reply: Reply|
                request.answered_by(reply) && truthful(
                    anchor,
                    details,
                    request,
                    reply,
                ) implies tells(
                #[trigger] bound(reply),
                anchor_after(anchor, request, reply),
                details,
                end,
            ) by {
                lemma_tells_bind(
                    next(reply),
                    then,
                    anchor_after(anchor, request, reply),
                    details,
                    mid,
                    end,
                );
            }
        },
        Script::Halt => {},
    }
}

/// If it went well, the latest state of the trust anchor knows the child.
spec fn knows_if_well<T>(
    child: Seq<char>,
    details: spec_fn(CertAuth, Seq<char>) -> Option<ChildCaInfo>,
) -> spec_fn(Anchor, Result<T, ErrorView>) -> bool {
    |after: Anchor, res: Result<T, ErrorView>|
        res is Ok ==> details(after.latest, child) is Some
}

proof fn lemma_added_is_known(
    req: AddChildRequest,
    base: Seq<char>,
    anchor: Anchor,
    details: spec_fn(CertAuth, Seq<char>) -> Option<ChildCaInfo>,
)
    ensures
        tells(
            ta_add_child_script(req, base),
            anchor,
            details,
            knows_if_well::<ContactView>(req.handle@, details),
        ),
{
    let child = req.handle@;
    let command = CommandView::ChildAdd {
        ca: TA_NAME@,
        child,
        id_cert: child_id_cert(req.auth),
        resources: req.resources,
    };
    let execute = execute_script(TA_NAME@, Missing::TrustAnchor, command, false);
    let mid = knows_if_well::<Settled>(child, details);
    let end = knows_if_well::<ContactView>(child, details);
    assert(tells(execute, anchor, details, mid)) by {
        reveal_with_fuel(tells, 4);
    }
    let then = child_contact(child, req.auth, base);
    lemma_tells_bind(execute, then, anchor, details, mid, end);
}

/// The child is shown, with its details.
pub open spec fn is_shown(
    child: Seq<char>,
    details: spec_fn(CertAuth, Seq<char>) -> Option<ChildCaInfo>,
) -> spec_fn(Anchor) -> bool {
    |anchor: Anchor|
        tells(
            show_child_script(TA_NAME@, child),
            anchor,
            details,
            |after: Anchor, res: Result<Option<ChildCaInfo>, ErrorView>|
                res matches Ok(Some(_)),
        )
}

proof fn lemma_known_is_shown_later(
    child: Seq<char>,
    calls: Seq<Call>,
    anchor: Anchor,
    details: spec_fn(CertAuth, Seq<char>) -> Option<ChildCaInfo>,
)
    requires
        details(anchor.latest, child) is Some,
    ensures
        later(calls, anchor, details, is_shown(child, details)),
    decreases calls.len(),
{
    if calls.len() == 0 {
        reveal_with_fuel(tells, 3);
        assert(is_shown(child, details)(anchor));
    } else {
        let rest = calls.drop_first();
        let then = rest_later(rest, details, is_shown(child, details));
        let end = knows::<bool>(child, details);
        lemma_stays_known(calls[0].script(), child, anchor, details);
        assert forall|after: Anchor, well: bool| #[trigger] end(after, well) implies then(
            after,
            well,
        ) by {
            lemma_known_is_shown_later(child, rest, after, details);
        }
        lemma_tells_weaker(calls[0].script(), anchor, details, end, then);
    }
}

/// A child that was added to the trust anchor is shown from then on, whatever
/// calls come in between.
pub proof fn law_added_child_is_shown(
    req: AddChildRequest,
    base: Seq<char>,
    calls: Seq<Call>,
    anchor: Anchor,
    details: spec_fn(CertAuth, Seq<char>) -> Option<ChildCaInfo>,
)
    ensures
        tells(
            ta_add_child_script(req, base),
            anchor,
            details,
            |after: Anchor, res: Result<ContactView, ErrorView>|
                res is Ok ==> later(calls, after, details, is_shown(req.handle@, details)),
        ),
{
    let child = req.handle@;
    let mid = knows_if_well::<ContactView>(child, details);
    let end = |after: Anchor, res: Result<ContactView, ErrorView>|
        res is Ok ==> later(calls, after, details, is_shown(req.handle@, details));
    lemma_added_is_known(req, base, anchor, details);
    assert forall|after: Anchor, r: Result<ContactView, ErrorView>|
        #[trigger] mid(after, r) implies end(after, r) by {
        if r is Ok {
            lemma_known_is_shown_later(child, calls, after, details);
        }
    }
    lemma_tells_weaker(ta_add_child_script(req, base), anchor, details, mid, end);
}

/// In these steps the trust anchor keeps what it is told of children that are
/// added: once the addition is stored, it knows the child with the identity
/// certificate and the resources of the command.
pub open spec fn keeps_what_it_is_told(
    steps: Seq<Step>,
    details: spec_fn(CertAuth, Seq<char>) -> Option<ChildCaInfo>,
) -> bool {
    forall|i: int|
        #![trigger steps[i]]
        0 < i < steps.len() && steps[i].request is Update && (steps[i].reply matches Reply::Ca(
            Ok(_),
        )) ==> (steps[i - 1].request matches RequestView::Process(
            _,
            CommandView::ChildAdd { child, id_cert, resources, .. },
        ) ==> details(given(steps[i]), child) == Some(ChildCaInfo { id_cert, resources }))
}

/// In these steps a child is shown as the state that is asked knows it.
pub open spec fn shows_what_it_knows(
    steps: Seq<Step>,
    details: spec_fn(CertAuth, Seq<char>) -> Option<ChildCaInfo>,
) -> bool {
    forall|i: int|
        #![trigger steps[i]]
        0 <= i < steps.len() ==> (steps[i].request matches RequestView::Child(ca, child) ==> (
        match details(ca, child) {
            Some(info) => steps[i].reply == Reply::Child(Ok(info)),
            None => steps[i].reply matches Reply::Child(Err(_)),
        }))
}

/// A child that was added is shown, in the state that its addition has led to,
/// with the resources that were asked for, and with the identity certificate
/// of its request if it has sent one and none if it has not.
pub proof fn law_child_is_shown_as_added(
    req: AddChildRequest,
    base: Seq<char>,
    details: spec_fn(CertAuth, Seq<char>) -> Option<ChildCaInfo>,
    adding: Seq<Step>,
    contact: ContactView,
    showing: Seq<Step>,
    shown: Result<Option<ChildCaInfo>, ErrorView>,
)
    requires
        ran(ta_add_child_script(req, base), adding, Ok(contact)),
        keeps_what_it_is_told(adding, details),
        ran(show_child_script(TA_NAME@, req.handle@), showing, shown),
        shows_what_it_knows(showing, details),
        showing[0].reply == adding.last().reply,
    ensures
        shown matches Ok(Some(info)) && {
            &&& info.resources == req.resources
            &&& info.id_cert == match req.auth {
                ChildAuthRequest::Embedded => None,
                ChildAuthRequest::Rfc8183(request) => Some(request.id_cert),
            }
        },
{
    law_add_child_run(req, base, adding, Ok(contact));
    law_show_child_run(req.handle@, showing, shown);
    assert(fault(adding[2], Missing::TrustAnchor) is None);
    lemma_replies_fit(ta_add_child_script(req, base), adding, Script::Done(Ok(contact)));
    assert(adding[2].request.answered_by(adding[2].reply));
    assert(adding[1].request is Process);
    assert(showing.len() > 1 ==> showing[1].request is Child);
}

/// Each reply in a run is an answer to its request.
pub proof fn lemma_replies_fit<R>(script: Script<R>, steps: Seq<Step>, left: Script<R>)
    requires
        reached(script, steps, left),
    ensures
        forall|i: int|
            0 <= i < steps.len() ==> (#[trigger] steps[i]).request.answered_by(steps[i].reply),
    decreases steps.len(),
{
    if steps.len() > 0 {
        let rest = steps.drop_first();
        lemma_replies_fit((script->Ask_1)(steps[0].reply), rest, left);
        assert forall|i: int| 0 <= i < steps.len() implies (
        #[trigger] steps[i]).request.answered_by(steps[i].reply) by {
            if i > 0 {
                assert(rest[i - 1] == steps[i]);
            }
        }
    }
}

} // verus!
