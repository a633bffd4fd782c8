//! A CA lets its parents revoke its old keys.
use crate::batch::{apply_all_script, command_views, ApplyAll};
use crate::dialogue::{Reply, Request, RequestView};
use crate::entitlements::{make_query, query_message};
use crate::error::{seen, ErrorView, Incident, IncidentView, ServerError, ServerResult};
use crate::exchange::{exchange_script, Exchange};
use crate::messages::{revoked, ParentResponse, Qry, Res, RevocationRequest, RevocationResponse};
use crate::operation::{Flow, Operation};
use crate::script::Script;
use crate::store::{load_error, loaded, Missing};
use crate::types::{CertAuth, Command, CommandView, Handle, KeyId, ParentCaContact};
use vstd::prelude::*;

verus! {

/// The result of revocations, as it stands in a script.
pub open spec fn responses_seen(res: ServerResult<Vec<RevocationResponse>>) -> Result<
    Seq<RevocationResponse>,
    ErrorView,
> {
    match res {
        Ok(responses) => Ok(responses@),
        Err(error) => Err(error@),
    }
}

/// What is logged if a revocation query is not answered with a revocation.
pub open spec fn revoke_incident(res: Result<Res, ErrorView>) -> IncidentView {
    match res {
        Ok(Res::NotPerformed(response)) => IncidentView::NotPerformed(response),
        Ok(Res::List(_)) => IncidentView::ListForRevoke,
        Ok(_) => IncidentView::IssueForRevoke,
        Err(error) => IncidentView::SendingRevoke(error),
    }
}

/// Sends a remote parent the revocation requests one after the other, and
/// gathers the revocations. One that is not granted is logged and left out.
pub open spec fn revoke_remote_script(
    key: KeyId,
    contact: ParentResponse,
    requests: Seq<RevocationRequest>,
    done: Seq<RevocationResponse>,
) -> Script<Result<Seq<RevocationResponse>, ErrorView>>
    decreases requests.len(), 0nat,
{
    if requests.len() == 0 {
        Script::Done(Ok(done))
    } else {
        exchange_script(key, contact, query_message(contact, Qry::Revoke(requests[0]))).bind(
            revoke_remote_rest(key, contact, requests.drop_first(), done),
        )
    }
}

/// Notes the answer to a revocation request, and goes on with the requests
/// that are left.
pub open spec fn revoke_remote_rest(
    key: KeyId,
    contact: ParentResponse,
    rest: Seq<RevocationRequest>,
    done: Seq<RevocationResponse>,
) -> spec_fn(Result<Res, ErrorView>) -> Script<Result<Seq<RevocationResponse>, ErrorView>>
    decreases rest.len(), 2nat,
{
    |res: Result<Res, ErrorView>|
        match res {
            Ok(Res::Revoke(response)) => revoke_remote_script(
                key,
                contact,
                rest,
                done.push(response),
            ),
            _ => revoke_remote_log(revoke_incident(res), key, contact, rest, done),
        }
}

/// Logs an incident, and goes on with the requests that are left.
pub open spec fn revoke_remote_log(
    incident: IncidentView,
    key: KeyId,
    contact: ParentResponse,
    rest: Seq<RevocationRequest>,
    done: Seq<RevocationResponse>,
) -> Script<Result<Seq<RevocationResponse>, ErrorView>>
    decreases rest.len(), 1nat,
{
    Script::Ask(
        RequestView::Log(incident),
        |reply: Reply| revoke_remote_script(key, contact, rest, done),
    )
}

/// Sending a remote parent revocation requests.
#[allow(inconsistent_fields)]
pub enum RevokeRemote {
    Exchanging {
        inner: Exchange,
        key: KeyId,
        contact: ParentResponse,
        rest: Vec<RevocationRequest>,
        done: Vec<RevocationResponse>,
    },
    Logging {
        incident: Incident,
        key: KeyId,
        contact: ParentResponse,
        rest: Vec<RevocationRequest>,
        done: Vec<RevocationResponse>,
    },
}

impl RevokeRemote {
    /// Turns to the first of the requests, if there is one.
    pub fn start(
        key: KeyId,
        contact: ParentResponse,
        requests: Vec<RevocationRequest>,
        done: Vec<RevocationResponse>,
    ) -> (flow: Flow<RevokeRemote, ServerResult<Vec<RevocationResponse>>>)
        ensures
            ({
                let script = revoke_remote_script(key, contact, requests@, done@);
                match flow {
                    Flow::Pending(operation) => operation.script() == script,
                    Flow::Done(res) => script == Script::Done(responses_seen(res)),
                }
            }),
    {
        let mut rest = requests;
        if rest.len() == 0 {
            return Flow::Done(Ok(done));
        }
        let req = rest.remove(0);
        proof {
            assert(rest@ =~= requests@.drop_first());
        }
        let query = make_query(&contact, Qry::Revoke(req));
        let inner = Exchange::Signing { key: key.clone(), contact: contact.clone(), query };
        Flow::Pending(RevokeRemote::Exchanging { inner, key, contact, rest, done })
    }
}

impl Operation for RevokeRemote {
    type Output = ServerResult<Vec<RevocationResponse>>;

    type Meaning = Result<Seq<RevocationResponse>, ErrorView>;

    open spec fn meaning(output: Self::Output) -> Self::Meaning {
        responses_seen(output)
    }

    open spec fn script(&self) -> Script<Self::Meaning> {
        match *self {
            RevokeRemote::Exchanging { inner, key, contact, rest, done } => inner.script().bind(
                revoke_remote_rest(key, contact, rest@, done@),
            ),
            RevokeRemote::Logging { incident, key, contact, rest, done } => revoke_remote_log(
                incident@,
                key,
                contact,
                rest@,
                done@,
            ),
        }
    }

    fn request(&self) -> (request: Request<'_>) {
        match self {
            RevokeRemote::Exchanging { inner, .. } => inner.request(),
            RevokeRemote::Logging { incident, .. } => Request::Log(incident),
        }
    }

    fn admits(&self, reply: &Reply) -> (b: bool) {
        match self {
            RevokeRemote::Exchanging { inner, key, contact, rest, done } => {
                let b = inner.admits(reply);
                proof {
                    inner.script().lemma_bind(
                        revoke_remote_rest(*key, *contact, rest@, done@),
                        *reply,
                    );
                }
                b
            },
            RevokeRemote::Logging { .. } => self.request().answered_by(reply),
        }
    }

    fn resume(self, reply: Reply) -> (flow: Flow<Self, Self::Output>) {
        match self {
            RevokeRemote::Exchanging { inner, key, contact, rest, done } => {
                proof {
                    inner.script().lemma_bind(
                        revoke_remote_rest(key, contact, rest@, done@),
                        reply,
                    );
                }
                let incident = match inner.resume(reply) {
                    Flow::Pending(inner) => {
                        return Flow::Pending(
                            RevokeRemote::Exchanging { inner, key, contact, rest, done },
                        );
                    },
                    Flow::Done(Ok(Res::Revoke(response))) => {
                        let mut done = done;
                        done.push(response);
                        return Self::start(key, contact, rest, done);
                    },
                    Flow::Done(Ok(Res::NotPerformed(response))) => Incident::NotPerformed(response),
                    Flow::Done(Ok(Res::List(_))) => Incident::ListForRevoke,
                    Flow::Done(Ok(Res::Issue(_))) => Incident::IssueForRevoke,
                    Flow::Done(Err(error)) => Incident::SendingRevoke(error),
                };
                Flow::Pending(RevokeRemote::Logging { incident, key, contact, rest, done })
            },
            RevokeRemote::Logging { key, contact, rest, done, .. } => Self::start(
                key,
                contact,
                rest,
                done,
            ),
        }
    }
}

/// The commands to a parent to revoke keys of a child.
pub open spec fn revoke_commands(
    parent: Seq<char>,
    child: Seq<char>,
    requests: Seq<RevocationRequest>,
) -> Seq<CommandView> {
    requests.map_values(
        |req: RevocationRequest| CommandView::ChildRevokeKey { ca: parent, child, req },
    )
}

/// The responses that grant all of the requests, in their order.
pub open spec fn all_revoked(requests: Seq<RevocationRequest>) -> Seq<RevocationResponse> {
    requests.map_values(|req: RevocationRequest| revoked(req))
}

/// The commands and the responses for revocation requests to an embedded
/// parent.
fn prepare_revocations(parent: &Handle, child: &Handle, requests: Vec<RevocationRequest>) -> (res: (
    Vec<Command>,
    Vec<RevocationResponse>,
))
    ensures
        command_views(res.0@) == revoke_commands(parent@, child@, requests@),
        res.1@ == all_revoked(requests@),
{
    let mut commands: Vec<Command> = Vec::new();
    let mut responses: Vec<RevocationResponse> = Vec::new();
    for i in 0..requests.len()
        invariant
            commands@.len() == i,
            responses@.len() == i,
            forall|j: int| 0 <= j < i ==> #[trigger] responses@[j] == revoked(requests@[j]),
            forall|j: int|
                0 <= j < i ==> #[trigger] commands@[j]@ == (CommandView::ChildRevokeKey {
                    ca: parent@,
                    child: child@,
                    req: requests@[j],
                }),
    {
        responses.push(RevocationResponse::granting(&requests[i]));
        commands.push(
            Command::ChildRevokeKey {
                ca: parent.clone(),
                child: child.clone(),
                req: requests[i].clone(),
            },
        );
    }
    proof {
        assert(command_views(commands@) =~= revoke_commands(parent@, child@, requests@));
        assert(responses@ =~= all_revoked(requests@));
    }
    (commands, responses)
}

/// Gives the responses, if all was carried out.
pub open spec fn then_revoked(responses: Seq<RevocationResponse>) -> spec_fn(
    Result<(), ErrorView>,
) -> Script<Result<Seq<RevocationResponse>, ErrorView>> {
    |res: Result<(), ErrorView>|
        Script::Done(
            match res {
                Ok(_) => Ok(responses),
                Err(error) => Err(error),
            },
        )
}

/// Loads an embedded parent and lets it revoke keys of a child.
pub open spec fn revoke_embedded_script(
    parent: Seq<char>,
    child: Seq<char>,
    requests: Seq<RevocationRequest>,
) -> Script<Result<Seq<RevocationResponse>, ErrorView>> {
    Script::Ask(
        RequestView::Latest(parent),
        |reply: Reply|
            match loaded(parent, Missing::Store, reply->Ca_0) {
                Ok(ca) => apply_all_script(
                    parent,
                    ca,
                    revoke_commands(parent, child, requests),
                ).bind(then_revoked(all_revoked(requests))),
                Err(error) => Script::Done(Err(error)),
            },
    )
}

/// Looks up how the CA `name` reaches a parent, and sends that parent the
/// revocation requests.
pub open spec fn revoke_from_script(
    name: Seq<char>,
    ca: CertAuth,
    parent: Seq<char>,
    requests: Seq<RevocationRequest>,
) -> Script<Result<Seq<RevocationResponse>, ErrorView>> {
    Script::Ask(
        RequestView::Contact(ca, parent),
        |reply: Reply|
            match reply->Contact_0 {
                Ok(ParentCaContact::Embedded) => revoke_embedded_script(parent, name, requests),
                Ok(ParentCaContact::Rfc6492(contact)) => revoke_remote_script(
                    ca.id_key,
                    contact,
                    requests,
                    Seq::empty(),
                ),
                Err(error) => Script::Done(Err(ErrorView::CertAuth(error@))),
            },
    )
}

/// Sends a parent of the CA `name` revocation requests.
pub open spec fn send_revoke_requests_script(
    name: Seq<char>,
    parent: Seq<char>,
    requests: Seq<RevocationRequest>,
) -> Script<Result<Seq<RevocationResponse>, ErrorView>> {
    Script::Ask(
        RequestView::Latest(name),
        |reply: Reply|
            match loaded(name, Missing::Store, reply->Ca_0) {
                Ok(ca) => revoke_from_script(name, ca, parent, requests),
                Err(error) => Script::Done(Err(error)),
            },
    )
}

/// Sending a parent revocation requests.
#[allow(inconsistent_fields)]
pub enum SendRevocations {
    Loading { handle: Handle, parent: Handle, requests: Vec<RevocationRequest> },
    Contacting { handle: Handle, ca: CertAuth, parent: Handle, requests: Vec<RevocationRequest> },
    LoadingParent { handle: Handle, parent: Handle, requests: Vec<RevocationRequest> },
    Embedded { inner: ApplyAll, responses: Vec<RevocationResponse> },
    Remote(RevokeRemote),
}

impl Operation for SendRevocations {
    type Output = ServerResult<Vec<RevocationResponse>>;

    type Meaning = Result<Seq<RevocationResponse>, ErrorView>;

    open spec fn meaning(output: Self::Output) -> Self::Meaning {
        responses_seen(output)
    }

    open spec fn script(&self) -> Script<Self::Meaning> {
        match *self {
            SendRevocations::Loading { handle, parent, requests } => send_revoke_requests_script(
                handle@,
                parent@,
                requests@,
            ),
            SendRevocations::Contacting { handle, ca, parent, requests } => revoke_from_script(
                handle@,
                ca,
                parent@,
                requests@,
            ),
            SendRevocations::LoadingParent { handle, parent, requests } => revoke_embedded_script(
                parent@,
                handle@,
                requests@,
            ),
            SendRevocations::Embedded { inner, responses } => inner.script().bind(
                then_revoked(responses@),
            ),
            SendRevocations::Remote(inner) => inner.script(),
        }
    }

    fn request(&self) -> (request: Request<'_>) {
        match self {
            SendRevocations::Loading { handle, .. } => Request::Latest(handle),
            SendRevocations::Contacting { ca, parent, .. } => Request::Contact(ca, parent),
            SendRevocations::LoadingParent { parent, .. } => Request::Latest(parent),
            SendRevocations::Embedded { inner, .. } => inner.request(),
            SendRevocations::Remote(inner) => inner.request(),
        }
    }

    fn admits(&self, reply: &Reply) -> (b: bool) {
        match self {
            SendRevocations::Embedded { inner, responses } => {
                let b = inner.admits(reply);
                proof {
                    inner.script().lemma_bind(then_revoked(responses@), *reply);
                }
                b
            },
            SendRevocations::Remote(inner) => inner.admits(reply),
            _ => self.request().answered_by(reply),
        }
    }

    fn resume(self, reply: Reply) -> (flow: Flow<Self, Self::Output>) {
        match self {
            SendRevocations::Loading { handle, parent, requests } => match reply.into_ca() {
                Ok(ca) => Flow::Pending(
                    SendRevocations::Contacting { handle, ca, parent, requests },
                ),
                Err(error) => Flow::Done(Err(load_error(handle, Missing::Store, error))),
            },
            SendRevocations::Contacting { handle, ca, parent, requests } =>
                match reply.into_contact() {
                Ok(ParentCaContact::Embedded) => Flow::Pending(
                    SendRevocations::LoadingParent { handle, parent, requests },
                ),
                Ok(ParentCaContact::Rfc6492(contact)) => match RevokeRemote::start(
                    ca.id_key,
                    contact,
                    requests,
                    Vec::new(),
                ) {
                    Flow::Pending(inner) => Flow::Pending(SendRevocations::Remote(inner)),
                    Flow::Done(res) => Flow::Done(res),
                },
                Err(error) => Flow::Done(Err(ServerError::CertAuth(error))),
            },
            SendRevocations::LoadingParent { handle, parent, requests } => match reply.into_ca() {
                Ok(ca) => {
                    let (commands, responses) = prepare_revocations(&parent, &handle, requests);
                    match ApplyAll::start(parent, ca, commands) {
                        Flow::Pending(inner) => Flow::Pending(
                            SendRevocations::Embedded { inner, responses },
                        ),
                        Flow::Done(Ok(_)) => Flow::Done(Ok(responses)),
                        Flow::Done(Err(error)) => Flow::Done(Err(error)),
                    }
                },
                Err(error) => Flow::Done(Err(load_error(parent, Missing::Store, error))),
            },
            SendRevocations::Embedded { inner, responses } => {
                proof {
                    inner.script().lemma_bind(then_revoked(responses@), reply);
                }
                match inner.resume(reply) {
                    Flow::Pending(inner) => Flow::Pending(
                        SendRevocations::Embedded { inner, responses },
                    ),
                    Flow::Done(Ok(_)) => Flow::Done(Ok(responses)),
                    Flow::Done(Err(error)) => Flow::Done(Err(error)),
                }
            },
            SendRevocations::Remote(inner) => match inner.resume(reply) {
                Flow::Pending(inner) => Flow::Pending(SendRevocations::Remote(inner)),
                Flow::Done(res) => Flow::Done(res),
            },
        }
    }
}

/// The commands to a CA to give up the keys that a parent has revoked.
pub open spec fn finish_commands(
    name: Seq<char>,
    parent: Seq<char>,
    responses: Seq<RevocationResponse>,
) -> Seq<CommandView> {
    responses.map_values(
        |response: RevocationResponse| CommandView::KeyRollFinish { ca: name, parent, response },
    )
}

/// The commands that `finish_commands` says.
fn prepare_finish(handle: &Handle, parent: &Handle, responses: Vec<RevocationResponse>) -> (commands:
    Vec<Command>)
    ensures
        command_views(commands@) == finish_commands(handle@, parent@, responses@),
{
    let ghost all = responses@;
    let mut rest = responses;
    let mut commands: Vec<Command> = Vec::new();
    while rest.len() > 0
        invariant
            commands@.len() + rest@.len() == all.len(),
            rest@ == all.skip(commands@.len() as int),
            forall|j: int|
                0 <= j < commands@.len() ==> #[trigger] commands@[j]@ == (
                CommandView::KeyRollFinish { ca: handle@, parent: parent@, response: all[j] }),
        decreases rest@.len(),
    {
        let response = rest.remove(0);
        commands.push(
            Command::KeyRollFinish { ca: handle.clone(), parent: parent.clone(), response },
        );
    }
    proof {
        assert(command_views(commands@) =~= finish_commands(handle@, parent@, all));
    }
    commands
}

/// Lets the CA `name` finish the roll of the keys that were revoked.
pub open spec fn finish_keys(name: Seq<char>, ca: CertAuth, parent: Seq<char>) -> spec_fn(
    Result<Seq<RevocationResponse>, ErrorView>,
) -> Script<Result<(), ErrorView>> {
    |res: Result<Seq<RevocationResponse>, ErrorView>|
        match res {
            Ok(responses) => apply_all_script(name, ca, finish_commands(name, parent, responses)),
            Err(error) => Script::Done(Err(error)),
        }
}

/// Asks the CA `name` which keys a parent is to revoke, and sees to it.
pub open spec fn revoke_wanted_script(name: Seq<char>, ca: CertAuth, parent: Seq<char>) -> Script<
    Result<(), ErrorView>,
> {
    Script::Ask(
        RequestView::Revocations(ca, parent),
        |reply: Reply|
            send_revoke_requests_script(name, parent, reply->Revocations_0@).bind(
                finish_keys(name, ca, parent),
            ),
    )
}

/// Loads the CA `name` and lets a parent revoke its old keys.
pub open spec fn revoke_keys_script(name: Seq<char>, parent: Seq<char>) -> Script<
    Result<(), ErrorView>,
> {
    Script::Ask(
        RequestView::Latest(name),
        |reply: Reply|
            match loaded(name, Missing::Store, reply->Ca_0) {
                Ok(ca) => revoke_wanted_script(name, ca, parent),
                Err(error) => Script::Done(Err(error)),
            },
    )
}

/// Letting a parent revoke old keys.
#[allow(inconsistent_fields)]
pub enum RevokeKeys {
    Loading { handle: Handle, parent: Handle },
    Asking { handle: Handle, ca: CertAuth, parent: Handle },
    Sending { inner: SendRevocations, handle: Handle, ca: CertAuth, parent: Handle },
    Finishing(ApplyAll),
}

impl Operation for RevokeKeys {
    type Output = ServerResult<()>;

    type Meaning = Result<(), ErrorView>;

    open spec fn meaning(output: Self::Output) -> Self::Meaning {
        seen(output)
    }

    open spec fn script(&self) -> Script<Self::Meaning> {
        match *self {
            RevokeKeys::Loading { handle, parent } => revoke_keys_script(handle@, parent@),
            RevokeKeys::Asking { handle, ca, parent } => revoke_wanted_script(
                handle@,
                ca,
                parent@,
            ),
            RevokeKeys::Sending { inner, handle, ca, parent } => inner.script().bind(
                finish_keys(handle@, ca, parent@),
            ),
            RevokeKeys::Finishing(inner) => inner.script(),
        }
    }

    fn request(&self) -> (request: Request<'_>) {
        match self {
            RevokeKeys::Loading { handle, .. } => Request::Latest(handle),
            RevokeKeys::Asking { ca, parent, .. } => Request::Revocations(ca, parent),
            RevokeKeys::Sending { inner, .. } => inner.request(),
            RevokeKeys::Finishing(inner) => inner.request(),
        }
    }

    fn admits(&self, reply: &Reply) -> (b: bool) {
        match self {
            RevokeKeys::Sending { inner, handle, ca, parent } => {
                let b = inner.admits(reply);
                proof {
                    inner.script().lemma_bind(finish_keys(handle@, *ca, parent@), *reply);
                }
                b
            },
            RevokeKeys::Finishing(inner) => inner.admits(reply),
            _ => self.request().answered_by(reply),
        }
    }

    fn resume(self, reply: Reply) -> (flow: Flow<Self, Self::Output>) {
        match self {
            RevokeKeys::Loading { handle, parent } => match reply.into_ca() {
                Ok(ca) => Flow::Pending(RevokeKeys::Asking { handle, ca, parent }),
                Err(error) => Flow::Done(Err(load_error(handle, Missing::Store, error))),
            },
            RevokeKeys::Asking { handle, ca, parent } => {
                let inner = SendRevocations::Loading {
                    handle: handle.clone(),
                    parent: parent.clone(),
                    requests: reply.into_revocations(),
                };
                Flow::Pending(RevokeKeys::Sending { inner, handle, ca, parent })
            },
            RevokeKeys::Sending { inner, handle, ca, parent } => {
                proof {
                    inner.script().lemma_bind(finish_keys(handle@, ca, parent@), reply);
                }
                match inner.resume(reply) {
                    Flow::Pending(inner) => Flow::Pending(
                        RevokeKeys::Sending { inner, handle, ca, parent },
                    ),
                    Flow::Done(Ok(responses)) => {
                        let commands = prepare_finish(&handle, &parent, responses);
                        match ApplyAll::start(handle, ca, commands) {
                            Flow::Pending(inner) => Flow::Pending(RevokeKeys::Finishing(inner)),
                            Flow::Done(res) => Flow::Done(res),
                        }
                    },
                    Flow::Done(Err(error)) => Flow::Done(Err(error)),
                }
            },
            RevokeKeys::Finishing(inner) => match inner.resume(reply) {
                Flow::Pending(inner) => Flow::Pending(RevokeKeys::Finishing(inner)),
                Flow::Done(res) => Flow::Done(res),
            },
        }
    }
}

} // verus!
