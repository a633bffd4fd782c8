//! How commands, requests, errors and results are read in scripts and laws:
//! as they are, with names and texts as sequences of characters and lists as
//! sequences.
use crate::dialogue::{Reply, Request, RequestView};
use crate::error::{ErrorView, Incident, IncidentView, ServerError, ServerResult};
use crate::messages::{
    Entitlements, IssuanceRequest, IssuanceResponse, Message, NotPerformedResponse, ParentResponse,
    PublicKey, RevocationRequest, RevocationResponse, ServiceUri, ServiceUriView, SignedMessage,
};
use crate::operation::Operation;
use crate::outside::{duration_nanos, octets};
use crate::provisioning::{AnswerMessage, Issue, ListEntitlements, Revoke};
use crate::revocations::SendRevocations;
use crate::script::Script;
use crate::server::{BuildServer, CaServer};
use crate::store::{Create, ListCas, Load, MakeToken, Perform};
use crate::trust_anchor::{AddChild, ShowChild, UpdateChild};
use crate::types::{
    CaEvent, CaInit, CertAuth, CertAuthList, ChildCaInfo, Command, CommandView, ContactView, Handle,
    IdCert, KeyId, NewCa, NewCaView, ParentCaContact, RcvdCert, RepoInfo, ResourceSet, Token,
    UpdateChildRequest,
};
use crate::updates::{RepublishAll, SendRequests, UpdateAll, UpdateFromParent};
use crate::uri::HttpsUri;
use bytes::Bytes;
use chrono::Duration;
use rpki::uri::Rsync;
use vstd::prelude::*;

verus! {

/// Commands on children are read as they are.
pub proof fn law_commands_on_children(
    ca: Handle,
    child: Handle,
    id_cert: Option<IdCert>,
    resources: ResourceSet,
    update: UpdateChildRequest,
    grace: Duration,
    issue: IssuanceRequest,
    revoke: RevocationRequest,
)
    ensures
        (Command::ChildAdd { ca, child, id_cert, resources })@ == (CommandView::ChildAdd {
            ca: ca.name@,
            child: child.name@,
            id_cert,
            resources,
        }),
        (Command::ChildUpdate { ca, child, req: update })@ == (CommandView::ChildUpdate {
            ca: ca.name@,
            child: child.name@,
            req: update,
        }),
        (Command::ChildShrink { ca, child, grace })@ == (CommandView::ChildShrink {
            ca: ca.name@,
            child: child.name@,
            grace_nanos: duration_nanos(grace),
        }),
        (Command::ChildCertify { ca, child, req: issue })@ == (CommandView::ChildCertify {
            ca: ca.name@,
            child: child.name@,
            req: issue,
        }),
        (Command::ChildRevokeKey { ca, child, req: revoke })@ == (CommandView::ChildRevokeKey {
            ca: ca.name@,
            child: child.name@,
            req: revoke,
        }),
{
}

/// Commands that a CA processes for itself are read as they are.
pub proof fn law_commands_of_a_ca(
    ca: Handle,
    parent: Handle,
    contact: ParentCaContact,
    time: Duration,
    response: RevocationResponse,
    entitlements: Entitlements,
    class_name: String,
    received: RcvdCert,
)
    ensures
        (Command::Publish { ca })@ == (CommandView::Publish { ca: ca.name@ }),
        (Command::AddParent { ca, parent, contact })@ == (CommandView::AddParent {
            ca: ca.name@,
            parent: parent.name@,
            contact,
        }),
        (Command::KeyRollInit { ca, max_age: time })@ == (CommandView::KeyRollInit {
            ca: ca.name@,
            max_age: time,
        }),
        (Command::KeyRollActivate { ca, staging: time })@ == (CommandView::KeyRollActivate {
            ca: ca.name@,
            staging: time,
        }),
        (Command::KeyRollFinish { ca, parent, response })@ == (CommandView::KeyRollFinish {
            ca: ca.name@,
            parent: parent.name@,
            response,
        }),
        (Command::UpdateEntitlements { ca, parent, entitlements })@ == (
        CommandView::UpdateEntitlements { ca: ca.name@, parent: parent.name@, entitlements }),
        (Command::UpdateRcvdCert { ca, parent, class_name, received })@ == (
        CommandView::UpdateRcvdCert {
            ca: ca.name@,
            parent: parent.name@,
            class_name: class_name@,
            received,
        }),
{
}

/// New CAs and contacts are read as they are.
pub proof fn law_new_cas_and_contacts(
    handle: Handle,
    info: RepoInfo,
    ta_aia: Rsync,
    ta_uris: Vec<HttpsUri>,
    token: Token,
    response: ParentResponse,
    uri: HttpsUri,
    text: String,
)
    ensures
        (NewCa::TrustAnchor { handle, info, ta_aia, ta_uris })@ == (NewCaView::TrustAnchor {
            name: handle.name@,
            info,
            ta_aia,
            ta_uris: ta_uris@,
        }),
        (NewCa::Embedded { handle, token, repo_info: info })@ == (NewCaView::Embedded {
            name: handle.name@,
            token,
            repo_info: info,
        }),
        ParentCaContact::Embedded@ == ContactView::Embedded,
        ParentCaContact::Rfc6492(response)@ == ContactView::Rfc6492(response@),
        response@.tag == response.tag,
        response@.id_cert == response.id_cert,
        response@.parent_handle == response.parent_handle.name@,
        response@.child_handle == response.child_handle.name@,
        response@.service_uri == response.service_uri@,
        ServiceUri::Https(uri)@ == ServiceUriView::Https(uri@),
        ServiceUri::Http(text)@ == ServiceUriView::Http(text@),
        handle@ == handle.name@,
{
}

/// Errors and incidents are read as they are.
pub proof fn law_errors(text: String, ca: Handle, error: ServerError, res: NotPerformedResponse)
    ensures
        ServerError::TrustAnchorNotInitialisedError@ == ErrorView::TrustAnchorNotInitialisedError,
        ServerError::TrustAnchorInitialisedError@ == ErrorView::TrustAnchorInitialisedError,
        ServerError::UnknownCa(text)@ == ErrorView::UnknownCa(text@),
        ServerError::DuplicateCa(text)@ == ErrorView::DuplicateCa(text@),
        ServerError::AggregateStoreError(text)@ == ErrorView::AggregateStoreError(text@),
        ServerError::CertAuth(text)@ == ErrorView::CertAuth(text@),
        ServerError::HttpClientError(text)@ == ErrorView::HttpClientError(text@),
        ServerError::Custom(text)@ == ErrorView::Custom(text@),
        Incident::Publishing(ca, error)@ == IncidentView::Publishing(ca.name@, error@),
        Incident::Refreshing(ca, error)@ == IncidentView::Refreshing(ca.name@, error@),
        Incident::SendingRevoke(error)@ == IncidentView::SendingRevoke(error@),
        Incident::SendingCsr(error)@ == IncidentView::SendingCsr(error@),
        Incident::NotPerformed(res)@ == IncidentView::NotPerformed(res),
        Incident::ListForRevoke@ == IncidentView::ListForRevoke,
        Incident::IssueForRevoke@ == IncidentView::IssueForRevoke,
        Incident::ListForIssue@ == IncidentView::ListForIssue,
        Incident::RevokeForIssue@ == IncidentView::RevokeForIssue,
        Incident::UnparsableResponse(text)@ == IncidentView::UnparsableResponse(text@),
        Incident::InvalidResponse(text)@ == IncidentView::InvalidResponse(text@),
{
}

/// Requests to the store and to CAs are read as they are.
pub proof fn law_requests_to_the_store(
    dir: &str,
    ns: &str,
    handle: &Handle,
    new: &NewCa,
    init: &CaInit,
    ca: &CertAuth,
    command: &Command,
    events: &Vec<CaEvent>,
)
    ensures
        Request::OpenStore(dir, ns)@ == RequestView::OpenStore(dir@, ns@),
        Request::Listen@ == RequestView::Listen,
        Request::Has(handle)@ == RequestView::Has(handle.name@),
        Request::List@ == RequestView::List,
        Request::Latest(handle)@ == RequestView::Latest(handle.name@),
        Request::Init(new)@ == RequestView::Init(new@),
        Request::Add(init)@ == RequestView::Add(*init),
        Request::Process(ca, command)@ == RequestView::Process(*ca, command@),
        Request::Update(handle, ca, events)@ == RequestView::Update(handle.name@, *ca, events@),
{
}

/// Questions to CAs are read as they are.
pub proof fn law_questions_to_a_ca(
    ca: &CertAuth,
    handle: &Handle,
    class_name: &String,
    key: &PublicKey,
)
    ensures
        Request::Child(ca, handle)@ == RequestView::Child(*ca, handle.name@),
        Request::Entitlements(ca, handle)@ == RequestView::Entitlements(*ca, handle.name@),
        Request::Issuance(ca, handle, class_name, key)@ == RequestView::Issuance(
            *ca,
            handle.name@,
            class_name@,
            *key,
        ),
        Request::Parents(ca)@ == RequestView::Parents(*ca),
        Request::Contact(ca, handle)@ == RequestView::Contact(*ca, handle.name@),
        Request::Revocations(ca, handle)@ == RequestView::Revocations(*ca, handle.name@),
        Request::CertRequests(ca, handle)@ == RequestView::CertRequests(*ca, handle.name@),
{
}

/// Requests about messages, for tokens and to the log are read as they are.
pub proof fn law_requests_about_messages(
    ca: &CertAuth,
    signed: &SignedMessage,
    msg: &Message,
    key: &KeyId,
    uri: &str,
    content_type: &str,
    body: &Bytes,
    strict: bool,
    id_cert: &IdCert,
    incident: &Incident,
)
    ensures
        Request::Verify(ca, signed)@ == RequestView::Verify(*ca, *signed),
        Request::SignResponse(ca, msg)@ == RequestView::SignResponse(*ca, *msg),
        Request::Sign(key, msg)@ == RequestView::Sign(*key, *msg),
        Request::Post(uri, content_type, body)@ == RequestView::Post(uri@, content_type@, *body),
        Request::Decode(body, strict)@ == RequestView::Decode(*body, strict),
        Request::Validate(signed, id_cert)@ == RequestView::Validate(*signed, *id_cert),
        Request::Open(signed)@ == RequestView::Open(*signed),
        Request::RandomToken@ == RequestView::RandomToken,
        Request::Log(incident)@ == RequestView::Log(incident@),
{
}

/// Every reply of the kind that belongs to a request is an answer to it, and
/// no other is. The one exception is a body that is too long to be logged.
pub proof fn law_replies(request: RequestView, reply: Reply)
    ensures
        request.answered_by(reply) == match request {
            RequestView::OpenStore(_, _) => reply is StoreOpened,
            RequestView::Listen => reply is Listening,
            RequestView::Has(_) => reply is Has,
            RequestView::List => reply is Handles,
            RequestView::Latest(_) | RequestView::Update(_, _, _) => reply is Ca,
            RequestView::Init(_) => reply is Init,
            RequestView::Add(_) => reply is Added,
            RequestView::Process(_, _) => reply is Events,
            RequestView::Child(_, _) => reply is Child,
            RequestView::Entitlements(_, _) => reply is Entitlements,
            RequestView::Issuance(_, _, _, _) => reply is Issuance,
            RequestView::Parents(_) => reply is Parents,
            RequestView::Contact(_, _) => reply is Contact,
            RequestView::Revocations(_, _) => reply is Revocations,
            RequestView::CertRequests(_, _) => reply is CertRequests,
            RequestView::Verify(_, _) => reply is Verified,
            RequestView::SignResponse(_, _) | RequestView::Sign(_, _) => reply is Signed,
            RequestView::Post(_, _, _) => reply is Posted && (reply->Posted_0 matches Ok(body)
                ==> (octets(body).len() + 2) / 3 * 4 <= isize::MAX),
            RequestView::Decode(_, _) => reply is Decoded,
            RequestView::Validate(_, _) => reply is Validated,
            RequestView::Open(_) => reply is Opened,
            RequestView::RandomToken => reply is Token,
            RequestView::Log(_) => reply is Logged,
        },
{
}

/// An operation goes on with every answer to its request, unless that leads to
/// something that the server does not support.
pub proof fn law_admitted<R>(
    request: RequestView,
    next: spec_fn(Reply) -> Script<R>,
    reply: Reply,
)
    ensures
        Script::Ask(request, next).admits(reply) == (request.answered_by(reply) && next(reply)
            != Script::<R>::Halt),
        Script::Ask(request, next).after(reply) == next(reply),
{
}

/// A result is read as it is, and an error by its text.
pub open spec fn as_it_is<T>(output: ServerResult<T>) -> Result<T, ErrorView> {
    match output {
        Ok(value) => Ok(value),
        Err(error) => Err(error@),
    }
}

/// The results of the operations on the store and on the trust anchor are read
/// as they are.
pub proof fn law_results_of_the_store(
    built: ServerResult<CaServer>,
    ca: ServerResult<CertAuth>,
    done: ServerResult<()>,
    list: CertAuthList,
    token: Token,
    contact: ServerResult<ParentCaContact>,
    child: ServerResult<Option<ChildCaInfo>>,
)
    ensures
        BuildServer::meaning(built) == as_it_is(built),
        Load::meaning(ca) == as_it_is(ca),
        Create::meaning(done) == as_it_is(done),
        Perform::meaning(done) == as_it_is(done),
        ListCas::meaning(list) == Seq::new(list.cas@.len(), |i: int| list.cas@[i].name.name@),
        MakeToken::meaning(token) == token,
        AddChild::meaning(contact) == match contact {
            Ok(contact) => Ok(contact@),
            Err(error) => Err(error@),
        },
        ShowChild::meaning(child) == as_it_is(child),
        UpdateChild::meaning(done) == as_it_is(done),
{
    assert(ListCas::meaning(list) =~= Seq::new(
        list.cas@.len(),
        |i: int| list.cas@[i].name.name@,
    ));
}

/// The results of the operations between parents and children are read as they
/// are.
pub proof fn law_results_of_provisioning(
    answer: ServerResult<Bytes>,
    entitlements: ServerResult<Entitlements>,
    issued: ServerResult<IssuanceResponse>,
    revoked: ServerResult<RevocationResponse>,
    responses: ServerResult<Vec<RevocationResponse>>,
    done: ServerResult<()>,
)
    ensures
        AnswerMessage::meaning(answer) == as_it_is(answer),
        ListEntitlements::meaning(entitlements) == as_it_is(entitlements),
        Issue::meaning(issued) == as_it_is(issued),
        Revoke::meaning(revoked) == as_it_is(revoked),
        SendRevocations::meaning(responses) == match responses {
            Ok(responses) => Ok(responses@),
            Err(error) => Err(error@),
        },
        SendRequests::meaning(done) == as_it_is(done),
        UpdateFromParent::meaning(done) == as_it_is(done),
        UpdateAll::meaning(done) == as_it_is(done),
        RepublishAll::meaning(done) == as_it_is(done),
{
}

} // verus!
