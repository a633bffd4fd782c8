//! CAs are kept up to date: with their parents, and in the repository.
use crate::certificates::{certify_keys_script, CertifyKeys};
use crate::dialogue::{Reply, Request, RequestView};
use crate::entitlements::{entitlements_script, GetEntitlements};
use crate::error::{seen, ErrorView, Incident, IncidentView, ServerResult};
use crate::messages::Entitlements;
use crate::operation::{Flow, Operation};
use crate::revocations::{revoke_keys_script, RevokeKeys};
use crate::script::Script;
use crate::store::{execute_script, perform_script, Execute, Missing, Perform, Settled};
use crate::types::{CertAuth, Command, CommandView, Handle};
use vstd::prelude::*;

verus! {

/// The names of some CAs.
pub open spec fn names(handles: Seq<Handle>) -> Seq<Seq<char>> {
    handles.map_values(|handle: Handle| handle@)
}

/// Turns to certificates, if the revocations have gone well.
pub open spec fn then_certify(name: Seq<char>, parent: Seq<char>) -> spec_fn(
    Result<(), ErrorView>,
) -> Script<Result<(), ErrorView>> {
    |res: Result<(), ErrorView>|
        match res {
            Ok(_) => certify_keys_script(name, parent),
            Err(error) => Script::Done(Err(error)),
        }
}

/// Sends a parent of the CA `name` all open requests, revocations first.
pub open spec fn send_requests_script(name: Seq<char>, parent: Seq<char>) -> Script<
    Result<(), ErrorView>,
> {
    revoke_keys_script(name, parent).bind(then_certify(name, parent))
}

/// Sending a parent all open requests.
#[allow(inconsistent_fields)]
pub enum SendRequests {
    Revoking { inner: RevokeKeys, handle: Handle, parent: Handle },
    Certifying(CertifyKeys),
}

impl SendRequests {
    /// The operation, at its start.
    pub fn start(handle: Handle, parent: Handle) -> (operation: SendRequests)
        ensures
            operation.script() == send_requests_script(handle@, parent@),
    {
        let inner = RevokeKeys::Loading { handle: handle.clone(), parent: parent.clone() };
        SendRequests::Revoking { inner, handle, parent }
    }
}

impl Operation for SendRequests {
    type Output = ServerResult<()>;

    type Meaning = Result<(), ErrorView>;

    open spec fn meaning(output: Self::Output) -> Self::Meaning {
        seen(output)
    }

    open spec fn script(&self) -> Script<Self::Meaning> {
        match *self {
            SendRequests::Revoking { inner, handle, parent } => inner.script().bind(
                then_certify(handle@, parent@),
            ),
            SendRequests::Certifying(inner) => inner.script(),
        }
    }

    fn request(&self) -> (request: Request<'_>) {
        match self {
            SendRequests::Revoking { inner, .. } => inner.request(),
            SendRequests::Certifying(inner) => inner.request(),
        }
    }

    fn admits(&self, reply: &Reply) -> (b: bool) {
        match self {
            SendRequests::Revoking { inner, handle, parent } => {
                let b = inner.admits(reply);
                proof {
                    inner.script().lemma_bind(then_certify(handle@, parent@), *reply);
                }
                b
            },
            SendRequests::Certifying(inner) => inner.admits(reply),
        }
    }

    fn resume(self, reply: Reply) -> (flow: Flow<Self, Self::Output>) {
        match self {
            SendRequests::Revoking { inner, handle, parent } => {
                proof {
                    inner.script().lemma_bind(then_certify(handle@, parent@), reply);
                }
                match inner.resume(reply) {
                    Flow::Pending(inner) => Flow::Pending(
                        SendRequests::Revoking { inner, handle, parent },
                    ),
                    Flow::Done(Ok(_)) => Flow::Pending(
                        SendRequests::Certifying(CertifyKeys::Loading { handle, parent }),
                    ),
                    Flow::Done(Err(error)) => Flow::Done(Err(error)),
                }
            },
            SendRequests::Certifying(inner) => match inner.resume(reply) {
                Flow::Pending(inner) => Flow::Pending(SendRequests::Certifying(inner)),
                Flow::Done(res) => Flow::Done(res),
            },
        }
    }
}

/// Lets the CA `name` take note of what a parent entitles it to.
pub open spec fn update_entitlements_script(
    name: Seq<char>,
    parent: Seq<char>,
    entitlements: Entitlements,
) -> Script<Result<Settled, ErrorView>> {
    execute_script(
        name,
        Missing::Store,
        CommandView::UpdateEntitlements { ca: name, parent, entitlements },
        true,
    )
}

/// Sends the open requests, if the CA has changed; otherwise there is nothing
/// to do.
pub open spec fn then_send(name: Seq<char>, parent: Seq<char>) -> spec_fn(
    Result<Settled, ErrorView>,
) -> Script<Result<(), ErrorView>> {
    |res: Result<Settled, ErrorView>|
        match res {
            Ok(settled) => if settled.changed {
                send_requests_script(name, parent)
            } else {
                Script::Done(Ok(()))
            },
            Err(error) => Script::Done(Err(error)),
        }
}

/// Lets the CA take note of its entitlements, and goes on from there.
pub open spec fn then_update(name: Seq<char>, parent: Seq<char>) -> spec_fn(
    Result<Entitlements, ErrorView>,
) -> Script<Result<(), ErrorView>> {
    |res: Result<Entitlements, ErrorView>|
        match res {
            Ok(entitlements) => update_entitlements_script(name, parent, entitlements).bind(
                then_send(name, parent),
            ),
            Err(error) => Script::Done(Err(error)),
        }
}

/// Brings the CA `name` up to date with a parent.
pub open spec fn get_updates_from_parent_script(name: Seq<char>, parent: Seq<char>) -> Script<
    Result<(), ErrorView>,
> {
    entitlements_script(name, parent).bind(then_update(name, parent))
}

/// Bringing a CA up to date with a parent.
#[allow(inconsistent_fields)]
pub enum UpdateFromParent {
    Asking { inner: GetEntitlements, handle: Handle, parent: Handle },
    Updating { inner: Execute, handle: Handle, parent: Handle },
    Sending(SendRequests),
}

impl UpdateFromParent {
    /// The operation, at its start.
    pub fn start(handle: Handle, parent: Handle) -> (operation: UpdateFromParent)
        ensures
            operation.script() == get_updates_from_parent_script(handle@, parent@),
    {
        let inner = GetEntitlements::Loading { handle: handle.clone(), parent: parent.clone() };
        UpdateFromParent::Asking { inner, handle, parent }
    }
}

impl Operation for UpdateFromParent {
    type Output = ServerResult<()>;

    type Meaning = Result<(), ErrorView>;

    open spec fn meaning(output: Self::Output) -> Self::Meaning {
        seen(output)
    }

    open spec fn script(&self) -> Script<Self::Meaning> {
        match *self {
            UpdateFromParent::Asking { inner, handle, parent } => inner.script().bind(
                then_update(handle@, parent@),
            ),
            UpdateFromParent::Updating { inner, handle, parent } => inner.script().bind(
                then_send(handle@, parent@),
            ),
            UpdateFromParent::Sending(inner) => inner.script(),
        }
    }

    fn request(&self) -> (request: Request<'_>) {
        match self {
            UpdateFromParent::Asking { inner, .. } => inner.request(),
            UpdateFromParent::Updating { inner, .. } => inner.request(),
            UpdateFromParent::Sending(inner) => inner.request(),
        }
    }

    fn admits(&self, reply: &Reply) -> (b: bool) {
        match self {
            UpdateFromParent::Asking { inner, handle, parent } => {
                let b = inner.admits(reply);
                proof {
                    inner.script().lemma_bind(then_update(handle@, parent@), *reply);
                }
                b
            },
            UpdateFromParent::Updating { inner, handle, parent } => {
                let b = inner.admits(reply);
                proof {
                    inner.script().lemma_bind(then_send(handle@, parent@), *reply);
                }
                b
            },
            UpdateFromParent::Sending(inner) => inner.admits(reply),
        }
    }

    fn resume(self, reply: Reply) -> (flow: Flow<Self, Self::Output>) {
        match self {
            UpdateFromParent::Asking { inner, handle, parent } => {
                proof {
                    inner.script().lemma_bind(then_update(handle@, parent@), reply);
                }
                match inner.resume(reply) {
                    Flow::Pending(inner) => Flow::Pending(
                        UpdateFromParent::Asking { inner, handle, parent },
                    ),
                    Flow::Done(Ok(entitlements)) => {
                        let command = Command::UpdateEntitlements {
                            ca: handle.clone(),
                            parent: parent.clone(),
                            entitlements,
                        };
                        let inner = Execute::Loading {
                            handle: handle.clone(),
                            missing: Missing::Store,
                            command,
                            lazy: true,
                        };
                        Flow::Pending(UpdateFromParent::Updating { inner, handle, parent })
                    },
                    Flow::Done(Err(error)) => Flow::Done(Err(error)),
                }
            },
            UpdateFromParent::Updating { inner, handle, parent } => {
                proof {
                    inner.script().lemma_bind(then_send(handle@, parent@), reply);
                }
                match inner.resume(reply) {
                    Flow::Pending(inner) => Flow::Pending(
                        UpdateFromParent::Updating { inner, handle, parent },
                    ),
                    Flow::Done(Ok(settled)) => if settled.changed {
                        Flow::Pending(
                            UpdateFromParent::Sending(SendRequests::start(handle, parent)),
                        )
                    } else {
                        Flow::Done(Ok(()))
                    },
                    Flow::Done(Err(error)) => Flow::Done(Err(error)),
                }
            },
            UpdateFromParent::Sending(inner) => match inner.resume(reply) {
                Flow::Pending(inner) => Flow::Pending(UpdateFromParent::Sending(inner)),
                Flow::Done(res) => Flow::Done(res),
            },
        }
    }
}

/// Publishes the CA `name`, if it has anything to publish.
pub open spec fn republish_script(name: Seq<char>) -> Script<Result<(), ErrorView>> {
    perform_script(name, Missing::Store, CommandView::Publish { ca: name }, true)
}

/// Publishes CAs one after the other. A failure is logged and passed over.
pub open spec fn republish_each_script(cas: Seq<Seq<char>>) -> Script<Result<(), ErrorView>>
    decreases cas.len(), 0nat,
{
    if cas.len() == 0 {
        Script::Done(Ok(()))
    } else {
        republish_script(cas[0]).bind(republish_rest(cas[0], cas.drop_first()))
    }
}

/// Logs a failure, if there was one, and goes on with the CAs that are left.
pub open spec fn republish_rest(name: Seq<char>, rest: Seq<Seq<char>>) -> spec_fn(
    Result<(), ErrorView>,
) -> Script<Result<(), ErrorView>>
    decreases rest.len(), 2nat,
{
    |res: Result<(), ErrorView>|
        match res {
            Ok(_) => republish_each_script(rest),
            Err(error) => republish_log(IncidentView::Publishing(name, error), rest),
        }
}

/// Logs an incident, and goes on with the CAs that are left.
pub open spec fn republish_log(incident: IncidentView, rest: Seq<Seq<char>>) -> Script<
    Result<(), ErrorView>,
>
    decreases rest.len(), 1nat,
{
    Script::Ask(RequestView::Log(incident), |reply: Reply| republish_each_script(rest))
}

/// Publishes all CAs in the store that have anything to publish.
pub open spec fn republish_all_script() -> Script<Result<(), ErrorView>> {
    Script::Ask(
        RequestView::List,
        |reply: Reply| republish_each_script(names(reply->Handles_0@)),
    )
}

/// Publishing a CA.
pub(crate) fn start_republish(handle: Handle) -> (operation: Perform)
    ensures
        operation.script() == republish_script(handle@),
{
    let command = Command::Publish { ca: handle.clone() };
    Perform { inner: Execute::Loading { handle, missing: Missing::Store, command, lazy: true } }
}

/// Publishing all CAs.
#[allow(inconsistent_fields)]
pub enum RepublishAll {
    Listing,
    Publishing { inner: Perform, handle: Handle, rest: Vec<Handle> },
    Logging { incident: Incident, rest: Vec<Handle> },
}

impl RepublishAll {
    /// Turns to the first of the CAs, if there is one.
    fn next(cas: Vec<Handle>) -> (flow: Flow<RepublishAll, ServerResult<()>>)
        ensures
            ({
                let script = republish_each_script(names(cas@));
                match flow {
                    Flow::Pending(operation) => operation.script() == script,
                    Flow::Done(res) => script == Script::Done(seen(res)),
                }
            }),
    {
        let mut rest = cas;
        if rest.len() == 0 {
            return Flow::Done(Ok(()));
        }
        let handle = rest.remove(0);
        proof {
            assert(names(rest@) =~= names(cas@).drop_first());
        }
        let inner = start_republish(handle.clone());
        Flow::Pending(RepublishAll::Publishing { inner, handle, rest })
    }
}

impl Operation for RepublishAll {
    type Output = ServerResult<()>;

    type Meaning = Result<(), ErrorView>;

    open spec fn meaning(output: Self::Output) -> Self::Meaning {
        seen(output)
    }

    open spec fn script(&self) -> Script<Self::Meaning> {
        match *self {
            RepublishAll::Listing => republish_all_script(),
            RepublishAll::Publishing { inner, handle, rest } => inner.script().bind(
                republish_rest(handle@, names(rest@)),
            ),
            RepublishAll::Logging { incident, rest } => republish_log(incident@, names(rest@)),
        }
    }

    fn request(&self) -> (request: Request<'_>) {
        match self {
            RepublishAll::Listing => Request::List,
            RepublishAll::Publishing { inner, .. } => inner.request(),
            RepublishAll::Logging { incident, .. } => Request::Log(incident),
        }
    }

    fn admits(&self, reply: &Reply) -> (b: bool) {
        match self {
            RepublishAll::Publishing { inner, handle, rest } => {
                let b = inner.admits(reply);
                proof {
                    inner.script().lemma_bind(republish_rest(handle@, names(rest@)), *reply);
                }
                b
            },
            _ => self.request().answered_by(reply),
        }
    }

    fn resume(self, reply: Reply) -> (flow: Flow<Self, Self::Output>) {
        match self {
            RepublishAll::Listing => Self::next(reply.into_handles()),
            RepublishAll::Publishing { inner, handle, rest } => {
                proof {
                    inner.script().lemma_bind(republish_rest(handle@, names(rest@)), reply);
                }
                match inner.resume(reply) {
                    Flow::Pending(inner) => Flow::Pending(
                        RepublishAll::Publishing { inner, handle, rest },
                    ),
                    Flow::Done(Ok(_)) => Self::next(rest),
                    Flow::Done(Err(error)) => Flow::Pending(
                        RepublishAll::Logging {
                            incident: Incident::Publishing(handle, error),
                            rest,
                        },
                    ),
                }
            },
            RepublishAll::Logging { rest, .. } => Self::next(rest),
        }
    }
}

/// Brings CAs up to date with their parents, one after the other. A CA that
/// cannot be loaded or has no parents is skipped; a failure is logged and
/// passed over.
pub open spec fn refresh_cas_script(cas: Seq<Seq<char>>) -> Script<Result<(), ErrorView>>
    decreases cas.len(), 0nat, 1nat,
{
    if cas.len() == 0 {
        Script::Done(Ok(()))
    } else {
        Script::Ask(
            RequestView::Latest(cas[0]),
            |reply: Reply|
                match reply->Ca_0 {
                    Ok(ca) => refresh_ca_script(cas[0], ca, cas.drop_first()),
                    Err(_) => refresh_cas_script(cas.drop_first()),
                },
        )
    }
}

/// Looks up the parents of the CA `name`, brings it up to date with them, and
/// goes on with the CAs that are left.
pub open spec fn refresh_ca_script(name: Seq<char>, ca: CertAuth, rest: Seq<Seq<char>>) -> Script<
    Result<(), ErrorView>,
>
    decreases rest.len() + 1, 0nat, 0nat,
{
    Script::Ask(
        RequestView::Parents(ca),
        |reply: Reply|
            match reply->Parents_0 {
                Ok(parents) => refresh_parents_script(name, names(parents@), rest),
                Err(_) => refresh_cas_script(rest),
            },
    )
}

/// Brings the CA `name` up to date with parents, one after the other, and
/// goes on with the CAs that are left.
pub open spec fn refresh_parents_script(
    name: Seq<char>,
    parents: Seq<Seq<char>>,
    rest: Seq<Seq<char>>,
) -> Script<Result<(), ErrorView>>
    decreases rest.len(), parents.len() + 1, 0nat,
{
    if parents.len() == 0 {
        refresh_cas_script(rest)
    } else {
        get_updates_from_parent_script(name, parents[0]).bind(
            refresh_rest(name, parents.drop_first(), rest),
        )
    }
}

/// Logs a failure, if there was one, and goes on with what is left.
pub open spec fn refresh_rest(
    name: Seq<char>,
    parents: Seq<Seq<char>>,
    rest: Seq<Seq<char>>,
) -> spec_fn(Result<(), ErrorView>) -> Script<Result<(), ErrorView>>
    decreases rest.len(), parents.len() + 1, 2nat,
{
    |res: Result<(), ErrorView>|
        match res {
            Ok(_) => refresh_parents_script(name, parents, rest),
            Err(error) => refresh_log(IncidentView::Refreshing(name, error), name, parents, rest),
        }
}

/// Logs an incident, and goes on with what is left.
pub open spec fn refresh_log(
    incident: IncidentView,
    name: Seq<char>,
    parents: Seq<Seq<char>>,
    rest: Seq<Seq<char>>,
) -> Script<Result<(), ErrorView>>
    decreases rest.len(), parents.len() + 1, 1nat,
{
    Script::Ask(
        RequestView::Log(incident),
        |reply: Reply| refresh_parents_script(name, parents, rest),
    )
}

/// To bring CAs up to date is always supported.
proof fn lemma_refresh_starts(name: Seq<char>, parents: Seq<Seq<char>>, rest: Seq<Seq<char>>)
    ensures
        !(refresh_cas_script(rest) is Halt),
        !(refresh_parents_script(name, parents, rest) is Halt),
{
    if parents.len() > 0 {
        assert(get_updates_from_parent_script(name, parents[0]) is Ask);
    }
}

/// Brings all CAs in the store up to date with their parents.
pub open spec fn get_updates_for_all_cas_script() -> Script<Result<(), ErrorView>> {
    Script::Ask(
        RequestView::List,
        |reply: Reply| refresh_cas_script(names(reply->Handles_0@)),
    )
}

/// Bringing all CAs up to date with their parents.
#[allow(inconsistent_fields)]
pub enum UpdateAll {
    Listing,
    Loading { handle: Handle, rest: Vec<Handle> },
    Asking { handle: Handle, ca: CertAuth, rest: Vec<Handle> },
    Updating { inner: UpdateFromParent, handle: Handle, parents: Vec<Handle>, rest: Vec<Handle> },
    Logging { incident: Incident, handle: Handle, parents: Vec<Handle>, rest: Vec<Handle> },
}

impl UpdateAll {
    /// Turns to the first of the CAs, if there is one.
    fn next_ca(cas: Vec<Handle>) -> (flow: Flow<UpdateAll, ServerResult<()>>)
        ensures
            ({
                let script = refresh_cas_script(names(cas@));
                match flow {
                    Flow::Pending(operation) => operation.script() == script,
                    Flow::Done(res) => script == Script::Done(seen(res)),
                }
            }),
    {
        let mut rest = cas;
        if rest.len() == 0 {
            return Flow::Done(Ok(()));
        }
        let handle = rest.remove(0);
        let operation = UpdateAll::Loading { handle, rest };
        proof {
            let all = names(cas@);
            assert(names(rest@) =~= all.drop_first());
            assert(seq![handle@] + names(rest@) =~= all);
        }
        Flow::Pending(operation)
    }

    /// Turns to the first of the parents, or, if there is none, to the CAs
    /// that are left.
    fn next_parent(handle: Handle, parents: Vec<Handle>, rest: Vec<Handle>) -> (flow: Flow<
        UpdateAll,
        ServerResult<()>,
    >)
        ensures
            ({
                let script = refresh_parents_script(handle@, names(parents@), names(rest@));
                match flow {
                    Flow::Pending(operation) => operation.script() == script,
                    Flow::Done(res) => script == Script::Done(seen(res)),
                }
            }),
    {
        let mut parents_left = parents;
        if parents_left.len() == 0 {
            return Self::next_ca(rest);
        }
        let parent = parents_left.remove(0);
        proof {
            assert(names(parents_left@) =~= names(parents@).drop_first());
        }
        let inner = UpdateFromParent::start(handle.clone(), parent);
        Flow::Pending(UpdateAll::Updating { inner, handle, parents: parents_left, rest })
    }
}

impl Operation for UpdateAll {
    type Output = ServerResult<()>;

    type Meaning = Result<(), ErrorView>;

    open spec fn meaning(output: Self::Output) -> Self::Meaning {
        seen(output)
    }

    open spec fn script(&self) -> Script<Self::Meaning> {
        match *self {
            UpdateAll::Listing => get_updates_for_all_cas_script(),
            UpdateAll::Loading { handle, rest } => refresh_cas_script(
                seq![handle@] + names(rest@),
            ),
            UpdateAll::Asking { handle, ca, rest } => refresh_ca_script(
                handle@,
                ca,
                names(rest@),
            ),
            UpdateAll::Updating { inner, handle, parents, rest } => inner.script().bind(
                refresh_rest(handle@, names(parents@), names(rest@)),
            ),
            UpdateAll::Logging { incident, handle, parents, rest } => refresh_log(
                incident@,
                handle@,
                names(parents@),
                names(rest@),
            ),
        }
    }

    fn request(&self) -> (request: Request<'_>) {
        match self {
            UpdateAll::Listing => Request::List,
            UpdateAll::Loading { handle, .. } => Request::Latest(handle),
            UpdateAll::Asking { ca, .. } => Request::Parents(ca),
            UpdateAll::Updating { inner, .. } => inner.request(),
            UpdateAll::Logging { incident, .. } => Request::Log(incident),
        }
    }

    fn admits(&self, reply: &Reply) -> (b: bool) {
        match self {
            UpdateAll::Updating { inner, handle, parents, rest } => {
                let b = inner.admits(reply);
                proof {
                    inner.script().lemma_bind(
                        refresh_rest(handle@, names(parents@), names(rest@)),
                        *reply,
                    );
                    lemma_refresh_starts(handle@, names(parents@), names(rest@));
                }
                b
            },
            UpdateAll::Loading { handle, rest } => {
                proof {
                    let left = (seq![handle@] + names(rest@)).drop_first();
                    lemma_refresh_starts(handle@, Seq::empty(), left);
                    if let Reply::Ca(Ok(ca)) = reply {
                        assert(refresh_ca_script(handle@, *ca, left) is Ask);
                    }
                }
                self.request().answered_by(reply)
            },
            UpdateAll::Asking { handle, rest, .. } => {
                proof {
                    if let Reply::Parents(Ok(parents)) = reply {
                        lemma_refresh_starts(handle@, names(parents@), names(rest@));
                    }
                }
                self.request().answered_by(reply)
            },
            UpdateAll::Logging { handle, parents, rest, .. } => {
                proof {
                    lemma_refresh_starts(handle@, names(parents@), names(rest@));
                }
                self.request().answered_by(reply)
            },
            _ => self.request().answered_by(reply),
        }
    }

    fn resume(self, reply: Reply) -> (flow: Flow<Self, Self::Output>) {
        match self {
            UpdateAll::Listing => Self::next_ca(reply.into_handles()),
            UpdateAll::Loading { handle, rest } => {
                proof {
                    assert((seq![handle@] + names(rest@)).drop_first() =~= names(rest@));
                }
                match reply.into_ca() {
                    Ok(ca) => Flow::Pending(UpdateAll::Asking { handle, ca, rest }),
                    Err(_) => Self::next_ca(rest),
                }
            },
            UpdateAll::Asking { handle, rest, .. } => match reply.into_parents() {
                Ok(parents) => Self::next_parent(handle, parents, rest),
                Err(_) => Self::next_ca(rest),
            },
            UpdateAll::Updating { inner, handle, parents, rest } => {
                proof {
                    inner.script().lemma_bind(
                        refresh_rest(handle@, names(parents@), names(rest@)),
                        reply,
                    );
                }
                match inner.resume(reply) {
                    Flow::Pending(inner) => Flow::Pending(
                        UpdateAll::Updating { inner, handle, parents, rest },
                    ),
                    Flow::Done(Ok(_)) => Self::next_parent(handle, parents, rest),
                    Flow::Done(Err(error)) => {
                        let incident = Incident::Refreshing(handle.clone(), error);
                        Flow::Pending(UpdateAll::Logging { incident, handle, parents, rest })
                    },
                }
            },
            UpdateAll::Logging { handle, parents, rest, .. } => Self::next_parent(
                handle,
                parents,
                rest,
            ),
        }
    }
}

} // verus!
