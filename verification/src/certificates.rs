//! A CA lets its parents issue certificates for its keys.
use crate::batch::{apply_all_script, command_views, ApplyAll};
use crate::dialogue::{Reply, Request, RequestView};
use crate::entitlements::{make_query, query_message};
use crate::error::{seen, ErrorView, Incident, IncidentView, ServerError, ServerResult};
use crate::exchange::{exchange_script, Exchange};
use crate::messages::{IssuanceRequest, IssuedCert, ParentResponse, Qry, Res};
use crate::operation::{Flow, Operation};
use crate::provisioning::{certify_script, Certified, Certify};
use crate::script::Script;
use crate::store::{load_error, loaded, Missing};
use crate::types::{
    received, CertAuth, Command, CommandView, Handle, KeyId, ParentCaContact, RcvdCert,
};
use vstd::prelude::*;

verus! {

/// The result of certificate requests, as it stands in a script: for each
/// certificate the name of its resource class.
pub open spec fn issued_seen(res: ServerResult<Vec<(String, IssuedCert)>>) -> Result<
    Seq<(String, IssuedCert)>,
    ErrorView,
> {
    match res {
        Ok(issued) => Ok(issued@),
        Err(error) => Err(error@),
    }
}

/// Lets the embedded parent `parent`, first in the state `ca`, process the
/// certificate requests of a child one after the other, and gathers what is
/// issued, under the class that was asked for. The first failure ends it.
pub open spec fn certify_all_script(
    parent: Seq<char>,
    ca: CertAuth,
    child: Seq<char>,
    requests: Seq<IssuanceRequest>,
    done: Seq<(String, IssuedCert)>,
) -> Script<Result<Seq<(String, IssuedCert)>, ErrorView>>
    decreases requests.len(), 0nat,
{
    if requests.len() == 0 {
        Script::Done(Ok(done))
    } else {
        certify_script(parent, ca, child, requests[0]).bind(
            certify_rest(parent, child, requests[0].class_name, requests.drop_first(), done),
        )
    }
}

/// Notes what was issued, and goes on with the requests that are left.
pub open spec fn certify_rest(
    parent: Seq<char>,
    child: Seq<char>,
    class_name: String,
    rest: Seq<IssuanceRequest>,
    done: Seq<(String, IssuedCert)>,
) -> spec_fn(Result<Certified, ErrorView>) -> Script<Result<Seq<(String, IssuedCert)>, ErrorView>>
    decreases rest.len(), 1nat,
{
    |res: Result<Certified, ErrorView>|
        match res {
            Ok(certified) => certify_all_script(
                parent,
                certified.ca,
                child,
                rest,
                done.push((class_name, certified.response.issued)),
            ),
            Err(error) => Script::Done(Err(error)),
        }
}

/// An embedded parent that processes certificate requests.
pub struct CertifyAll {
    pub inner: Certify,
    pub parent: Handle,
    pub child: Handle,
    pub class_name: String,
    pub rest: Vec<IssuanceRequest>,
    pub done: Vec<(String, IssuedCert)>,
}

impl CertifyAll {
    /// Turns to the first of the requests, if there is one.
    pub fn start(
        parent: Handle,
        ca: CertAuth,
        child: Handle,
        requests: Vec<IssuanceRequest>,
        done: Vec<(String, IssuedCert)>,
    ) -> (flow: Flow<CertifyAll, ServerResult<Vec<(String, IssuedCert)>>>)
        ensures
            ({
                let script = certify_all_script(parent@, ca, child@, requests@, done@);
                match flow {
                    Flow::Pending(operation) => operation.script() == script,
                    Flow::Done(res) => script == Script::Done(issued_seen(res)),
                }
            }),
    {
        let mut rest = requests;
        if rest.len() == 0 {
            return Flow::Done(Ok(done));
        }
        let req = rest.remove(0);
        proof {
            assert(rest@ =~= requests@.drop_first());
        }
        let class_name = req.class_name.clone();
        let inner = Certify::start(&parent, ca, child.clone(), req);
        Flow::Pending(CertifyAll { inner, parent, child, class_name, rest, done })
    }
}

impl Operation for CertifyAll {
    type Output = ServerResult<Vec<(String, IssuedCert)>>;

    type Meaning = Result<Seq<(String, IssuedCert)>, ErrorView>;

    open spec fn meaning(output: Self::Output) -> Self::Meaning {
        issued_seen(output)
    }

    open spec fn script(&self) -> Script<Self::Meaning> {
        self.inner.script().bind(
            certify_rest(self.parent@, self.child@, self.class_name, self.rest@, self.done@),
        )
    }

    fn request(&self) -> (request: Request<'_>) {
        self.inner.request()
    }

    fn admits(&self, reply: &Reply) -> (b: bool) {
        let b = self.inner.admits(reply);
        proof {
            self.inner.script().lemma_bind(
                certify_rest(self.parent@, self.child@, self.class_name, self.rest@, self.done@),
                *reply,
            );
        }
        b
    }

    fn resume(self, reply: Reply) -> (flow: Flow<Self, Self::Output>) {
        proof {
            self.inner.script().lemma_bind(
                certify_rest(self.parent@, self.child@, self.class_name, self.rest@, self.done@),
                reply,
            );
        }
        match self.inner.resume(reply) {
            Flow::Pending(inner) => Flow::Pending(
                CertifyAll {
                    inner,
                    parent: self.parent,
                    child: self.child,
                    class_name: self.class_name,
                    rest: self.rest,
                    done: self.done,
                },
            ),
            Flow::Done(Ok(certified)) => {
                let mut done = self.done;
                done.push((self.class_name, certified.response.issued));
                Self::start(self.parent, certified.ca, self.child, self.rest, done)
            },
            Flow::Done(Err(error)) => Flow::Done(Err(error)),
        }
    }
}

/// What is logged if a certificate query is not answered with a certificate.
pub open spec fn issue_incident(res: Result<Res, ErrorView>) -> IncidentView {
    match res {
        Ok(Res::NotPerformed(response)) => IncidentView::NotPerformed(response),
        Ok(Res::List(_)) => IncidentView::ListForIssue,
        Ok(_) => IncidentView::RevokeForIssue,
        Err(error) => IncidentView::SendingCsr(error),
    }
}

/// Sends a remote parent the certificate requests one after the other, and
/// gathers what is issued, under the class that the parent names. A request
/// that is not granted is logged and left out.
pub open spec fn certify_remote_script(
    key: KeyId,
    contact: ParentResponse,
    requests: Seq<IssuanceRequest>,
    done: Seq<(String, IssuedCert)>,
) -> Script<Result<Seq<(String, IssuedCert)>, ErrorView>>
    decreases requests.len(), 0nat,
{
    if requests.len() == 0 {
        Script::Done(Ok(done))
    } else {
        exchange_script(key, contact, query_message(contact, Qry::Issue(requests[0]))).bind(
            certify_remote_rest(key, contact, requests.drop_first(), done),
        )
    }
}

/// Notes the answer to a certificate request, and goes on with the requests
/// that are left.
pub open spec fn certify_remote_rest(
    key: KeyId,
    contact: ParentResponse,
    rest: Seq<IssuanceRequest>,
    done: Seq<(String, IssuedCert)>,
) -> spec_fn(Result<Res, ErrorView>) -> Script<Result<Seq<(String, IssuedCert)>, ErrorView>>
    decreases rest.len(), 2nat,
{
    |res: Result<Res, ErrorView>|
        match res {
            Ok(Res::Issue(response)) => certify_remote_script(
                key,
                contact,
                rest,
                done.push((response.class_name, response.issued)),
            ),
            _ => certify_remote_log(issue_incident(res), key, contact, rest, done),
        }
}

/// Logs an incident, and goes on with the requests that are left.
pub open spec fn certify_remote_log(
    incident: IncidentView,
    key: KeyId,
    contact: ParentResponse,
    rest: Seq<IssuanceRequest>,
    done: Seq<(String, IssuedCert)>,
) -> Script<Result<Seq<(String, IssuedCert)>, ErrorView>>
    decreases rest.len(), 1nat,
{
    Script::Ask(
        RequestView::Log(incident),
        |reply: Reply| certify_remote_script(key, contact, rest, done),
    )
}

/// Sending a remote parent certificate requests.
#[allow(inconsistent_fields)]
pub enum CertifyRemote {
    Exchanging {
        inner: Exchange,
        key: KeyId,
        contact: ParentResponse,
        rest: Vec<IssuanceRequest>,
        done: Vec<(String, IssuedCert)>,
    },
    Logging {
        incident: Incident,
        key: KeyId,
        contact: ParentResponse,
        rest: Vec<IssuanceRequest>,
        done: Vec<(String, IssuedCert)>,
    },
}

impl CertifyRemote {
    /// Turns to the first of the requests, if there is one.
    pub fn start(
        key: KeyId,
        contact: ParentResponse,
        requests: Vec<IssuanceRequest>,
        done: Vec<(String, IssuedCert)>,
    ) -> (flow: Flow<CertifyRemote, ServerResult<Vec<(String, IssuedCert)>>>)
        ensures
            ({
                let script = certify_remote_script(key, contact, requests@, done@);
                match flow {
                    Flow::Pending(operation) => operation.script() == script,
                    Flow::Done(res) => script == Script::Done(issued_seen(res)),
                }
            }),
    {
        let mut rest = requests;
        if rest.len() == 0 {
            return Flow::Done(Ok(done));
        }
        let req = rest.remove(0);
        proof {
            assert(rest@ =~= requests@.drop_first());
        }
        let query = make_query(&contact, Qry::Issue(req));
        let inner = Exchange::Signing { key: key.clone(), contact: contact.clone(), query };
        Flow::Pending(CertifyRemote::Exchanging { inner, key, contact, rest, done })
    }
}

impl Operation for CertifyRemote {
    type Output = ServerResult<Vec<(String, IssuedCert)>>;

    type Meaning = Result<Seq<(String, IssuedCert)>, ErrorView>;

    open spec fn meaning(output: Self::Output) -> Self::Meaning {
        issued_seen(output)
    }

    open spec fn script(&self) -> Script<Self::Meaning> {
        match *self {
            CertifyRemote::Exchanging { inner, key, contact, rest, done } => inner.script().bind(
                certify_remote_rest(key, contact, rest@, done@),
            ),
            CertifyRemote::Logging { incident, key, contact, rest, done } => certify_remote_log(
                incident@,
                key,
                contact,
                rest@,
                done@,
            ),
        }
    }

    fn request(&self) -> (request: Request<'_>) {
        match self {
            CertifyRemote::Exchanging { inner, .. } => inner.request(),
            CertifyRemote::Logging { incident, .. } => Request::Log(incident),
        }
    }

    fn admits(&self, reply: &Reply) -> (b: bool) {
        match self {
            CertifyRemote::Exchanging { inner, key, contact, rest, done } => {
                let b = inner.admits(reply);
                proof {
                    inner.script().lemma_bind(
                        certify_remote_rest(*key, *contact, rest@, done@),
                        *reply,
                    );
                }
                b
            },
            CertifyRemote::Logging { .. } => self.request().answered_by(reply),
        }
    }

    fn resume(self, reply: Reply) -> (flow: Flow<Self, Self::Output>) {
        match self {
            CertifyRemote::Exchanging { inner, key, contact, rest, done } => {
                proof {
                    inner.script().lemma_bind(
                        certify_remote_rest(key, contact, rest@, done@),
                        reply,
                    );
                }
                let incident = match inner.resume(reply) {
                    Flow::Pending(inner) => {
                        return Flow::Pending(
                            CertifyRemote::Exchanging { inner, key, contact, rest, done },
                        );
                    },
                    Flow::Done(Ok(Res::Issue(response))) => {
                        let mut done = done;
                        done.push((response.class_name, response.issued));
                        return Self::start(key, contact, rest, done);
                    },
                    Flow::Done(Ok(Res::NotPerformed(response))) => Incident::NotPerformed(response),
                    Flow::Done(Ok(Res::List(_))) => Incident::ListForIssue,
                    Flow::Done(Ok(Res::Revoke(_))) => Incident::RevokeForIssue,
                    Flow::Done(Err(error)) => Incident::SendingCsr(error),
                };
                Flow::Pending(CertifyRemote::Logging { incident, key, contact, rest, done })
            },
            CertifyRemote::Logging { key, contact, rest, done, .. } => Self::start(
                key,
                contact,
                rest,
                done,
            ),
        }
    }
}

/// The commands to a CA to take certificates over from a parent.
pub open spec fn receive_commands(
    name: Seq<char>,
    parent: Seq<char>,
    issued: Seq<(String, IssuedCert)>,
) -> Seq<CommandView> {
    issued.map_values(
        |cert: (String, IssuedCert)|
            CommandView::UpdateRcvdCert {
                ca: name,
                parent,
                class_name: cert.0@,
                received: received(cert.1),
            },
    )
}

/// The commands that `receive_commands` says.
fn prepare_receive(handle: &Handle, parent: &Handle, issued: Vec<(String, IssuedCert)>) -> (commands:
    Vec<Command>)
    ensures
        command_views(commands@) == receive_commands(handle@, parent@, issued@),
{
    let ghost all = issued@;
    let mut rest = issued;
    let mut commands: Vec<Command> = Vec::new();
    while rest.len() > 0
        invariant
            commands@.len() + rest@.len() == all.len(),
            rest@ == all.skip(commands@.len() as int),
            forall|j: int|
                0 <= j < commands@.len() ==> #[trigger] commands@[j]@ == (
                CommandView::UpdateRcvdCert {
                    ca: handle@,
                    parent: parent@,
                    class_name: all[j].0@,
                    received: received(all[j].1),
                }),
        decreases rest@.len(),
    {
        let (class_name, cert) = rest.remove(0);
        commands.push(
            Command::UpdateRcvdCert {
                ca: handle.clone(),
                parent: parent.clone(),
                class_name,
                received: RcvdCert::from_issued(cert),
            },
        );
    }
    proof {
        assert(command_views(commands@) =~= receive_commands(handle@, parent@, all));
    }
    commands
}

/// Lets the CA `name` take over the certificates that were issued.
pub open spec fn receive_certs(name: Seq<char>, ca: CertAuth, parent: Seq<char>) -> spec_fn(
    Result<Seq<(String, IssuedCert)>, ErrorView>,
) -> Script<Result<(), ErrorView>> {
    |res: Result<Seq<(String, IssuedCert)>, ErrorView>|
        match res {
            Ok(issued) => apply_all_script(name, ca, receive_commands(name, parent, issued)),
            Err(error) => Script::Done(Err(error)),
        }
}

/// Loads an embedded parent, lets it issue certificates to the CA `name`,
/// and lets the CA take them over.
pub open spec fn certify_embedded_script(
    name: Seq<char>,
    ca: CertAuth,
    parent: Seq<char>,
    requests: Seq<IssuanceRequest>,
) -> Script<Result<(), ErrorView>> {
    Script::Ask(
        RequestView::Latest(parent),
        |reply: Reply|
            match loaded(parent, Missing::Store, reply->Ca_0) {
                Ok(parent_ca) => certify_all_script(
                    parent,
                    parent_ca,
                    name,
                    requests,
                    Seq::empty(),
                ).bind(receive_certs(name, ca, parent)),
                Err(error) => Script::Done(Err(error)),
            },
    )
}

/// Looks up how the CA `name` reaches a parent, and sends that parent the
/// certificate requests.
pub open spec fn certify_from_script(
    name: Seq<char>,
    ca: CertAuth,
    parent: Seq<char>,
    requests: Seq<IssuanceRequest>,
) -> Script<Result<(), ErrorView>> {
    Script::Ask(
        RequestView::Contact(ca, parent),
        |reply: Reply|
            match reply->Contact_0 {
                Ok(ParentCaContact::Embedded) => certify_embedded_script(
                    name,
                    ca,
                    parent,
                    requests,
                ),
                Ok(ParentCaContact::Rfc6492(contact)) => certify_remote_script(
                    ca.id_key,
                    contact,
                    requests,
                    Seq::empty(),
                ).bind(receive_certs(name, ca, parent)),
                Err(error) => Script::Done(Err(ErrorView::CertAuth(error@))),
            },
    )
}

/// Asks the CA `name` which certificates it wants from a parent, and sees to
/// it.
pub open spec fn certify_wanted_script(name: Seq<char>, ca: CertAuth, parent: Seq<char>) -> Script<
    Result<(), ErrorView>,
> {
    Script::Ask(
        RequestView::CertRequests(ca, parent),
        |reply: Reply| certify_from_script(name, ca, parent, reply->CertRequests_0@),
    )
}

/// Loads the CA `name` and lets a parent issue the certificates that it
/// wants.
pub open spec fn certify_keys_script(name: Seq<char>, parent: Seq<char>) -> Script<
    Result<(), ErrorView>,
> {
    Script::Ask(
        RequestView::Latest(name),
        |reply: Reply|
            match loaded(name, Missing::Store, reply->Ca_0) {
                Ok(ca) => certify_wanted_script(name, ca, parent),
                Err(error) => Script::Done(Err(error)),
            },
    )
}

/// Letting a parent issue certificates.
#[allow(inconsistent_fields)]
pub enum CertifyKeys {
    Loading { handle: Handle, parent: Handle },
    Asking { handle: Handle, ca: CertAuth, parent: Handle },
    Contacting { handle: Handle, ca: CertAuth, parent: Handle, requests: Vec<IssuanceRequest> },
    LoadingParent { handle: Handle, ca: CertAuth, parent: Handle, requests: Vec<IssuanceRequest> },
    Embedded { inner: CertifyAll, handle: Handle, ca: CertAuth, parent: Handle },
    Remote { inner: CertifyRemote, handle: Handle, ca: CertAuth, parent: Handle },
    Receiving(ApplyAll),
}

impl CertifyKeys {
    /// Turns to the certificates that were issued.
    fn receive(
        res: ServerResult<Vec<(String, IssuedCert)>>,
        handle: Handle,
        ca: CertAuth,
        parent: Handle,
    ) -> (flow: Flow<CertifyKeys, ServerResult<()>>)
        ensures
            ({
                let script = receive_certs(handle@, ca, parent@)(issued_seen(res));
                match flow {
                    Flow::Pending(operation) => operation.script() == script,
                    Flow::Done(res) => script == Script::Done(seen(res)),
                }
            }),
    {
        match res {
            Ok(issued) => {
                let commands = prepare_receive(&handle, &parent, issued);
                match ApplyAll::start(handle, ca, commands) {
                    Flow::Pending(inner) => Flow::Pending(CertifyKeys::Receiving(inner)),
                    Flow::Done(res) => Flow::Done(res),
                }
            },
            Err(error) => Flow::Done(Err(error)),
        }
    }
}

impl Operation for CertifyKeys {
    type Output = ServerResult<()>;

    type Meaning = Result<(), ErrorView>;

    open spec fn meaning(output: Self::Output) -> Self::Meaning {
        seen(output)
    }

    open spec fn script(&self) -> Script<Self::Meaning> {
        match *self {
            CertifyKeys::Loading { handle, parent } => certify_keys_script(handle@, parent@),
            CertifyKeys::Asking { handle, ca, parent } => certify_wanted_script(
                handle@,
                ca,
                parent@,
            ),
            CertifyKeys::Contacting { handle, ca, parent, requests } => certify_from_script(
                handle@,
                ca,
                parent@,
                requests@,
            ),
            CertifyKeys::LoadingParent { handle, ca, parent, requests } => certify_embedded_script(
                handle@,
                ca,
                parent@,
                requests@,
            ),
            CertifyKeys::Embedded { inner, handle, ca, parent } => inner.script().bind(
                receive_certs(handle@, ca, parent@),
            ),
            CertifyKeys::Remote { inner, handle, ca, parent } => inner.script().bind(
                receive_certs(handle@, ca, parent@),
            ),
            CertifyKeys::Receiving(inner) => inner.script(),
        }
    }

    fn request(&self) -> (request: Request<'_>) {
        match self {
            CertifyKeys::Loading { handle, .. } => Request::Latest(handle),
            CertifyKeys::Asking { ca, parent, .. } => Request::CertRequests(ca, parent),
            CertifyKeys::Contacting { ca, parent, .. } => Request::Contact(ca, parent),
            CertifyKeys::LoadingParent { parent, .. } => Request::Latest(parent),
            CertifyKeys::Embedded { inner, .. } => inner.request(),
            CertifyKeys::Remote { inner, .. } => inner.request(),
            CertifyKeys::Receiving(inner) => inner.request(),
        }
    }

    fn admits(&self, reply: &Reply) -> (b: bool) {
        match self {
            CertifyKeys::Embedded { inner, handle, ca, parent } => {
                let b = inner.admits(reply);
                proof {
                    inner.script().lemma_bind(receive_certs(handle@, *ca, parent@), *reply);
                }
                b
            },
            CertifyKeys::Remote { inner, handle, ca, parent } => {
                let b = inner.admits(reply);
                proof {
                    inner.script().lemma_bind(receive_certs(handle@, *ca, parent@), *reply);
                }
                b
            },
            CertifyKeys::Receiving(inner) => inner.admits(reply),
            _ => self.request().answered_by(reply),
        }
    }

    fn resume(self, reply: Reply) -> (flow: Flow<Self, Self::Output>) {
        match self {
            CertifyKeys::Loading { handle, parent } => match reply.into_ca() {
                Ok(ca) => Flow::Pending(CertifyKeys::Asking { handle, ca, parent }),
                Err(error) => Flow::Done(Err(load_error(handle, Missing::Store, error))),
            },
            CertifyKeys::Asking { handle, ca, parent } => {
                let requests = reply.into_cert_requests();
                Flow::Pending(CertifyKeys::Contacting { handle, ca, parent, requests })
            },
            CertifyKeys::Contacting { handle, ca, parent, requests } => match reply.into_contact() {
                Ok(ParentCaContact::Embedded) => Flow::Pending(
                    CertifyKeys::LoadingParent { handle, ca, parent, requests },
                ),
                Ok(ParentCaContact::Rfc6492(contact)) => match CertifyRemote::start(
                    ca.id_key.clone(),
                    contact,
                    requests,
                    Vec::new(),
                ) {
                    Flow::Pending(inner) => Flow::Pending(
                        CertifyKeys::Remote { inner, handle, ca, parent },
                    ),
                    Flow::Done(res) => Self::receive(res, handle, ca, parent),
                },
                Err(error) => Flow::Done(Err(ServerError::CertAuth(error))),
            },
            CertifyKeys::LoadingParent { handle, ca, parent, requests } => match reply.into_ca() {
                Ok(parent_ca) => match CertifyAll::start(
                    parent.clone(),
                    parent_ca,
                    handle.clone(),
                    requests,
                    Vec::new(),
                ) {
                    Flow::Pending(inner) => Flow::Pending(
                        CertifyKeys::Embedded { inner, handle, ca, parent },
                    ),
                    Flow::Done(res) => Self::receive(res, handle, ca, parent),
                },
                Err(error) => Flow::Done(Err(load_error(parent, Missing::Store, error))),
            },
            CertifyKeys::Embedded { inner, handle, ca, parent } => {
                proof {
                    inner.script().lemma_bind(receive_certs(handle@, ca, parent@), reply);
                }
                match inner.resume(reply) {
                    Flow::Pending(inner) => Flow::Pending(
                        CertifyKeys::Embedded { inner, handle, ca, parent },
                    ),
                    Flow::Done(res) => Self::receive(res, handle, ca, parent),
                }
            },
            CertifyKeys::Remote { inner, handle, ca, parent } => {
                proof {
                    inner.script().lemma_bind(receive_certs(handle@, ca, parent@), reply);
                }
                match inner.resume(reply) {
                    Flow::Pending(inner) => Flow::Pending(
                        CertifyKeys::Remote { inner, handle, ca, parent },
                    ),
                    Flow::Done(res) => Self::receive(res, handle, ca, parent),
                }
            },
            CertifyKeys::Receiving(inner) => match inner.resume(reply) {
                Flow::Pending(inner) => Flow::Pending(CertifyKeys::Receiving(inner)),
                Flow::Done(res) => Flow::Done(res),
            },
        }
    }
}

} // verus!
