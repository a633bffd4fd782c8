//! The parent's side of provisioning: to list what a child is entitled to,
//! to issue and revoke certificates, and to answer signed messages.
use crate::dialogue::{Reply, Request, RequestView};
use crate::error::{seen, ErrorView, ServerError, ServerResult};
use crate::messages::{
    revoked, Content, Entitlements, IssuanceRequest, IssuanceResponse, Message, PublicKey, Qry, Res,
    RevocationRequest, RevocationResponse, SignedMessage,
};
use crate::operation::{Flow, Operation};
use crate::script::Script;
use crate::store::{apply_script, execute_script, load_error, loaded, Execute, Missing, Settled};
use crate::types::{ta_handle, CertAuth, Command, CommandView, Handle, DFLT_CLASS, TA_NAME};
use bytes::Bytes;
use vstd::prelude::*;

verus! {

/// Asks a CA what a child is entitled to.
pub open spec fn entitled_script(ca: CertAuth, child: Seq<char>) -> Script<
    Result<Entitlements, ErrorView>,
> {
    Script::Ask(
        RequestView::Entitlements(ca, child),
        |reply: Reply|
            Script::Done(
                match reply->Entitlements_0 {
                    Ok(entitlements) => Ok(entitlements),
                    Err(error) => Err(ErrorView::CertAuth(error@)),
                },
            ),
    )
}

/// Loads the CA `name` and asks it what a child is entitled to.
pub open spec fn list_script(name: Seq<char>, missing: Missing, child: Seq<char>) -> Script<
    Result<Entitlements, ErrorView>,
> {
    Script::Ask(
        RequestView::Latest(name),
        |reply: Reply|
            match loaded(name, missing, reply->Ca_0) {
                Ok(ca) => entitled_script(ca, child),
                Err(error) => Script::Done(Err(error)),
            },
    )
}

/// Listing what a child is entitled to.
pub enum ListEntitlements {
    Loading { handle: Handle, missing: Missing, child: Handle },
    Asking { ca: CertAuth, child: Handle },
}

impl Operation for ListEntitlements {
    type Output = ServerResult<Entitlements>;

    type Meaning = Result<Entitlements, ErrorView>;

    open spec fn meaning(output: Self::Output) -> Self::Meaning {
        seen(output)
    }

    open spec fn script(&self) -> Script<Self::Meaning> {
        match *self {
            ListEntitlements::Loading { handle, missing, child } => list_script(
                handle@,
                missing,
                child@,
            ),
            ListEntitlements::Asking { ca, child } => entitled_script(ca, child@),
        }
    }

    fn request(&self) -> (request: Request<'_>) {
        match self {
            ListEntitlements::Loading { handle, .. } => Request::Latest(handle),
            ListEntitlements::Asking { ca, child } => Request::Entitlements(ca, child),
        }
    }

    fn admits(&self, reply: &Reply) -> (b: bool) {
        self.request().answered_by(reply)
    }

    fn resume(self, reply: Reply) -> (flow: Flow<Self, Self::Output>) {
        match self {
            ListEntitlements::Loading { handle, missing, child } => match reply.into_ca() {
                Ok(ca) => Flow::Pending(ListEntitlements::Asking { ca, child }),
                Err(error) => Flow::Done(Err(load_error(handle, missing, error))),
            },
            ListEntitlements::Asking { .. } => match reply.into_entitlements() {
                Ok(entitlements) => Flow::Done(Ok(entitlements)),
                Err(error) => Flow::Done(Err(ServerError::CertAuth(error))),
            },
        }
    }
}

/// A certificate that was issued, and the CA that has issued it.
pub struct Certified {
    pub ca: CertAuth,
    pub response: IssuanceResponse,
}

/// Asks a CA what it has issued to a child.
pub open spec fn issued_script(
    ca: CertAuth,
    child: Seq<char>,
    class_name: Seq<char>,
    key: PublicKey,
) -> Script<Result<Certified, ErrorView>> {
    Script::Ask(
        RequestView::Issuance(ca, child, class_name, key),
        |reply: Reply|
            Script::Done(
                match reply->Issuance_0 {
                    Ok(response) => Ok(Certified { ca, response }),
                    Err(error) => Err(ErrorView::CertAuth(error@)),
                },
            ),
    )
}

/// Asks a CA for what it has issued, now that it has processed the request.
pub open spec fn fetch_issued(
    child: Seq<char>,
    class_name: Seq<char>,
    key: PublicKey,
) -> spec_fn(Result<Settled, ErrorView>) -> Script<Result<Certified, ErrorView>> {
    |res: Result<Settled, ErrorView>|
        match res {
            Ok(settled) => issued_script(settled.ca, child, class_name, key),
            Err(error) => Script::Done(Err(error)),
        }
}

/// Lets the CA `name` issue a certificate to a child, and asks the CA in its
/// new state for what it has issued.
pub open spec fn certify_script(
    name: Seq<char>,
    ca: CertAuth,
    child: Seq<char>,
    req: IssuanceRequest,
) -> Script<Result<Certified, ErrorView>> {
    apply_script(name, ca, CommandView::ChildCertify { ca: name, child, req }, false).bind(
        fetch_issued(child, req.class_name@, req.csr.public_key),
    )
}

/// Letting a CA issue a certificate.
pub enum Certify {
    Applying { inner: Execute, child: Handle, class_name: String, key: PublicKey },
    Asking { ca: CertAuth, child: Handle, class_name: String, key: PublicKey },
}

impl Certify {
    /// The operation, at its start.
    pub fn start(handle: &Handle, ca: CertAuth, child: Handle, req: IssuanceRequest) -> (operation:
        Certify)
        ensures
            operation.script() == certify_script(handle@, ca, child@, req),
    {
        let class_name = req.class_name.clone();
        let key = req.csr.public_key.clone();
        let command = Command::ChildCertify { ca: handle.clone(), child: child.clone(), req };
        let inner = Execute::Processing { handle: handle.clone(), ca, command, lazy: false };
        Certify::Applying { inner, child, class_name, key }
    }
}

impl Operation for Certify {
    type Output = ServerResult<Certified>;

    type Meaning = Result<Certified, ErrorView>;

    open spec fn meaning(output: Self::Output) -> Self::Meaning {
        seen(output)
    }

    open spec fn script(&self) -> Script<Self::Meaning> {
        match *self {
            Certify::Applying { inner, child, class_name, key } => inner.script().bind(
                fetch_issued(child@, class_name@, key),
            ),
            Certify::Asking { ca, child, class_name, key } => issued_script(
                ca,
                child@,
                class_name@,
                key,
            ),
        }
    }

    fn request(&self) -> (request: Request<'_>) {
        match self {
            Certify::Applying { inner, .. } => inner.request(),
            Certify::Asking { ca, child, class_name, key } => Request::Issuance(
                ca,
                child,
                class_name,
                key,
            ),
        }
    }

    fn admits(&self, reply: &Reply) -> (b: bool) {
        match self {
            Certify::Applying { inner, child, class_name, key } => {
                let b = inner.admits(reply);
                proof {
                    inner.script().lemma_bind(fetch_issued(child@, class_name@, *key), *reply);
                }
                b
            },
            Certify::Asking { .. } => self.request().answered_by(reply),
        }
    }

    fn resume(self, reply: Reply) -> (flow: Flow<Self, Self::Output>) {
        match self {
            Certify::Applying { inner, child, class_name, key } => {
                proof {
                    inner.script().lemma_bind(fetch_issued(child@, class_name@, key), reply);
                }
                match inner.resume(reply) {
                    Flow::Pending(inner) => Flow::Pending(
                        Certify::Applying { inner, child, class_name, key },
                    ),
                    Flow::Done(Ok(settled)) => Flow::Pending(
                        Certify::Asking { ca: settled.ca, child, class_name, key },
                    ),
                    Flow::Done(Err(error)) => Flow::Done(Err(error)),
                }
            },
            Certify::Asking { ca, .. } => match reply.into_issuance() {
                Ok(response) => Flow::Done(Ok(Certified { ca, response })),
                Err(error) => Flow::Done(Err(ServerError::CertAuth(error))),
            },
        }
    }
}

/// Takes the response alone.
pub open spec fn response_only() -> spec_fn(Result<Certified, ErrorView>) -> Script<
    Result<IssuanceResponse, ErrorView>,
> {
    |res: Result<Certified, ErrorView>|
        Script::Done(
            match res {
                Ok(certified) => Ok(certified.response),
                Err(error) => Err(error),
            },
        )
}

/// Loads the trust anchor, which is stored as `name`, and lets it issue a
/// certificate to a child. Only the default class is supported.
pub open spec fn issue_script(name: Seq<char>, child: Seq<char>, req: IssuanceRequest) -> Script<
    Result<IssuanceResponse, ErrorView>,
> {
    Script::Ask(
        RequestView::Latest(name),
        |reply: Reply|
            match loaded(name, Missing::TrustAnchor, reply->Ca_0) {
                Ok(ta) => if req.class_name@ == DFLT_CLASS@ {
                    certify_script(name, ta, child, req).bind(response_only())
                } else {
                    Script::Halt
                },
                Err(error) => Script::Done(Err(error)),
            },
    )
}

/// Issuing a certificate.
pub enum Issue {
    Loading { handle: Handle, child: Handle, req: IssuanceRequest },
    Certifying(Certify),
}

impl Operation for Issue {
    type Output = ServerResult<IssuanceResponse>;

    type Meaning = Result<IssuanceResponse, ErrorView>;

    open spec fn meaning(output: Self::Output) -> Self::Meaning {
        seen(output)
    }

    open spec fn script(&self) -> Script<Self::Meaning> {
        match *self {
            Issue::Loading { handle, child, req } => issue_script(handle@, child@, req),
            Issue::Certifying(inner) => inner.script().bind(response_only()),
        }
    }

    fn request(&self) -> (request: Request<'_>) {
        match self {
            Issue::Loading { handle, .. } => Request::Latest(handle),
            Issue::Certifying(inner) => inner.request(),
        }
    }

    fn admits(&self, reply: &Reply) -> (b: bool) {
        match self {
            Issue::Loading { req, .. } => match reply {
                Reply::Ca(Ok(_)) => req.class_name == DFLT_CLASS.to_string(),
                Reply::Ca(Err(_)) => true,
                _ => false,
            },
            Issue::Certifying(inner) => {
                let b = inner.admits(reply);
                proof {
                    inner.script().lemma_bind(response_only(), *reply);
                }
                b
            },
        }
    }

    fn resume(self, reply: Reply) -> (flow: Flow<Self, Self::Output>) {
        match self {
            Issue::Loading { handle, child, req } => match reply.into_ca() {
                Ok(ta) => Flow::Pending(
                    Issue::Certifying(Certify::start(&handle, ta, child, req)),
                ),
                Err(error) => Flow::Done(Err(load_error(handle, Missing::TrustAnchor, error))),
            },
            Issue::Certifying(inner) => {
                proof {
                    inner.script().lemma_bind(response_only(), reply);
                }
                match inner.resume(reply) {
                    Flow::Pending(inner) => Flow::Pending(Issue::Certifying(inner)),
                    Flow::Done(Ok(certified)) => Flow::Done(Ok(certified.response)),
                    Flow::Done(Err(error)) => Flow::Done(Err(error)),
                }
            },
        }
    }
}

/// Gives the response that a revocation is granted with, if it was carried
/// out.
pub open spec fn granted(response: RevocationResponse) -> spec_fn(
    Result<Settled, ErrorView>,
) -> Script<Result<RevocationResponse, ErrorView>> {
    |res: Result<Settled, ErrorView>|
        Script::Done(
            match res {
                Ok(_) => Ok(response),
                Err(error) => Err(error),
            },
        )
}

/// Lets the CA `name` revoke the certificates for a key of a child.
pub open spec fn revoke_script(name: Seq<char>, child: Seq<char>, req: RevocationRequest) -> Script<
    Result<RevocationResponse, ErrorView>,
> {
    execute_script(
        name,
        Missing::Unknown,
        CommandView::ChildRevokeKey { ca: name, child, req },
        false,
    ).bind(granted(revoked(req)))
}

/// Revoking a key.
pub struct Revoke {
    pub inner: Execute,
    pub response: RevocationResponse,
}

impl Revoke {
    /// The operation, at its start.
    pub fn start(handle: &Handle, child: Handle, req: RevocationRequest) -> (operation: Revoke)
        ensures
            operation.script() == revoke_script(handle@, child@, req),
    {
        let response = RevocationResponse::granting(&req);
        let command = Command::ChildRevokeKey { ca: handle.clone(), child, req };
        let inner = Execute::Loading {
            handle: handle.clone(),
            missing: Missing::Unknown,
            command,
            lazy: false,
        };
        Revoke { inner, response }
    }
}

impl Operation for Revoke {
    type Output = ServerResult<RevocationResponse>;

    type Meaning = Result<RevocationResponse, ErrorView>;

    open spec fn meaning(output: Self::Output) -> Self::Meaning {
        seen(output)
    }

    open spec fn script(&self) -> Script<Self::Meaning> {
        self.inner.script().bind(granted(self.response))
    }

    fn request(&self) -> (request: Request<'_>) {
        self.inner.request()
    }

    fn admits(&self, reply: &Reply) -> (b: bool) {
        let b = self.inner.admits(reply);
        proof {
            self.inner.script().lemma_bind(granted(self.response), *reply);
        }
        b
    }

    fn resume(self, reply: Reply) -> (flow: Flow<Self, Self::Output>) {
        proof {
            self.inner.script().lemma_bind(granted(self.response), reply);
        }
        match self.inner.resume(reply) {
            Flow::Pending(inner) => Flow::Pending(Revoke { inner, response: self.response }),
            Flow::Done(Ok(_)) => Flow::Done(Ok(self.response)),
            Flow::Done(Err(error)) => Flow::Done(Err(error)),
        }
    }
}

/// Lets a CA sign a response.
pub open spec fn sign_response_script(ca: CertAuth, msg: Message) -> Script<
    Result<Bytes, ErrorView>,
> {
    Script::Ask(
        RequestView::SignResponse(ca, msg),
        |reply: Reply|
            Script::Done(
                match reply->Signed_0 {
                    Ok(signed) => Ok(signed),
                    Err(error) => Err(ErrorView::CertAuth(error@)),
                },
            ),
    )
}

/// Loads the CA `name` and lets it sign a response.
pub open spec fn wrap_script(name: Seq<char>, msg: Message) -> Script<Result<Bytes, ErrorView>> {
    Script::Ask(
        RequestView::Latest(name),
        |reply: Reply|
            match loaded(name, Missing::Store, reply->Ca_0) {
                Ok(ca) => sign_response_script(ca, msg),
                Err(error) => Script::Done(Err(error)),
            },
    )
}

/// Signing a response.
pub enum WrapResponse {
    Loading { handle: Handle, msg: Message },
    Signing { ca: CertAuth, msg: Message },
}

impl Operation for WrapResponse {
    type Output = ServerResult<Bytes>;

    type Meaning = Result<Bytes, ErrorView>;

    open spec fn meaning(output: Self::Output) -> Self::Meaning {
        seen(output)
    }

    open spec fn script(&self) -> Script<Self::Meaning> {
        match *self {
            WrapResponse::Loading { handle, msg } => wrap_script(handle@, msg),
            WrapResponse::Signing { ca, msg } => sign_response_script(ca, msg),
        }
    }

    fn request(&self) -> (request: Request<'_>) {
        match self {
            WrapResponse::Loading { handle, .. } => Request::Latest(handle),
            WrapResponse::Signing { ca, msg } => Request::SignResponse(ca, msg),
        }
    }

    fn admits(&self, reply: &Reply) -> (b: bool) {
        self.request().answered_by(reply)
    }

    fn resume(self, reply: Reply) -> (flow: Flow<Self, Self::Output>) {
        match self {
            WrapResponse::Loading { handle, msg } => match reply.into_ca() {
                Ok(ca) => Flow::Pending(WrapResponse::Signing { ca, msg }),
                Err(error) => Flow::Done(Err(load_error(handle, Missing::Store, error))),
            },
            WrapResponse::Signing { .. } => match reply.into_signed() {
                Ok(signed) => Flow::Done(Ok(signed)),
                Err(error) => Flow::Done(Err(ServerError::CertAuth(error))),
            },
        }
    }
}

/// The response to a query: it bears the sender and the recipient that the
/// query bears.
pub open spec fn response_message(sender: String, recipient: String, res: Res) -> Message {
    Message { sender, recipient, content: Content::Res(res) }
}

/// Lets the CA `name` sign the answer to a revocation query.
pub open spec fn wrap_revoke(name: Seq<char>, sender: String, recipient: String) -> spec_fn(
    Result<RevocationResponse, ErrorView>,
) -> Script<Result<Bytes, ErrorView>> {
    |res: Result<RevocationResponse, ErrorView>|
        match res {
            Ok(response) => wrap_script(
                name,
                response_message(sender, recipient, Res::Revoke(response)),
            ),
            Err(error) => Script::Done(Err(error)),
        }
}

/// Lets the CA `name` sign the answer to a list query.
pub open spec fn wrap_list(name: Seq<char>, sender: String, recipient: String) -> spec_fn(
    Result<Entitlements, ErrorView>,
) -> Script<Result<Bytes, ErrorView>> {
    |res: Result<Entitlements, ErrorView>|
        match res {
            Ok(entitlements) => wrap_script(
                name,
                response_message(sender, recipient, Res::List(entitlements)),
            ),
            Err(error) => Script::Done(Err(error)),
        }
}

/// Lets the CA `name` sign the answer to an issuance query.
pub open spec fn wrap_issue(name: Seq<char>, sender: String, recipient: String) -> spec_fn(
    Result<IssuanceResponse, ErrorView>,
) -> Script<Result<Bytes, ErrorView>> {
    |res: Result<IssuanceResponse, ErrorView>|
        match res {
            Ok(response) => wrap_script(
                name,
                response_message(sender, recipient, Res::Issue(response)),
            ),
            Err(error) => Script::Done(Err(error)),
        }
}

/// Answers a query to the CA `name` that was verified. The child is the one
/// that has sent it. Only the trust anchor lists and issues.
pub open spec fn answer_script(name: Seq<char>, query: Message) -> Script<
    Result<Bytes, ErrorView>,
> {
    let child = query.sender@;
    match query.content {
        Content::Qry(Qry::Revoke(req)) => revoke_script(name, child, req).bind(
            wrap_revoke(name, query.sender, query.recipient),
        ),
        Content::Qry(Qry::List) => if name == TA_NAME@ {
            list_script(TA_NAME@, Missing::TrustAnchor, child).bind(
                wrap_list(name, query.sender, query.recipient),
            )
        } else {
            Script::Halt
        },
        Content::Qry(Qry::Issue(req)) => if name == TA_NAME@ {
            issue_script(TA_NAME@, child, req).bind(wrap_issue(name, query.sender, query.recipient))
        } else {
            Script::Halt
        },
        Content::Res(_) => Script::Done(Err(ErrorView::Custom("Unsupported RFC6492 message"@))),
    }
}

/// Lets a CA verify a message, and answers it.
pub open spec fn verify_script(name: Seq<char>, ca: CertAuth, msg: SignedMessage) -> Script<
    Result<Bytes, ErrorView>,
> {
    Script::Ask(
        RequestView::Verify(ca, msg),
        |reply: Reply|
            match reply->Verified_0 {
                Ok(query) => answer_script(name, query),
                Err(error) => Script::Done(Err(ErrorView::CertAuth(error@))),
            },
    )
}

/// Loads the CA `name`, lets it verify a message, and answers it.
pub open spec fn rfc6492_script(name: Seq<char>, msg: SignedMessage) -> Script<
    Result<Bytes, ErrorView>,
> {
    Script::Ask(
        RequestView::Latest(name),
        |reply: Reply|
            match loaded(name, Missing::Store, reply->Ca_0) {
                Ok(ca) => verify_script(name, ca, msg),
                Err(error) => Script::Done(Err(error)),
            },
    )
}

/// Answering a signed message.
#[allow(inconsistent_fields)]
pub enum AnswerMessage {
    Loading { handle: Handle, msg: SignedMessage },
    Verifying { handle: Handle, ca: CertAuth, msg: SignedMessage },
    Revoking { handle: Handle, sender: String, recipient: String, inner: Revoke },
    Listing { handle: Handle, sender: String, recipient: String, inner: ListEntitlements },
    Issuing { handle: Handle, sender: String, recipient: String, inner: Issue },
    Wrapping(WrapResponse),
}

impl AnswerMessage {
    /// Turns to a query that was verified.
    fn answer(handle: Handle, query: Message) -> (flow: Flow<Self, ServerResult<Bytes>>)
        requires
            !(answer_script(handle@, query) is Halt),
        ensures
            match flow {
                Flow::Pending(next) => next.script() == answer_script(handle@, query),
                Flow::Done(res) => answer_script(handle@, query) == Script::Done(seen(res)),
            },
    {
        let sender = query.sender;
        let recipient = query.recipient;
        let child = Handle { name: sender.clone() };
        match query.content {
            Content::Qry(Qry::Revoke(req)) => {
                let inner = Revoke::start(&handle, child, req);
                Flow::Pending(AnswerMessage::Revoking { handle, sender, recipient, inner })
            },
            Content::Qry(Qry::List) => {
                let inner = ListEntitlements::Loading {
                    handle: ta_handle(),
                    missing: Missing::TrustAnchor,
                    child,
                };
                Flow::Pending(AnswerMessage::Listing { handle, sender, recipient, inner })
            },
            Content::Qry(Qry::Issue(req)) => {
                let inner = Issue::Loading { handle: ta_handle(), child, req };
                Flow::Pending(AnswerMessage::Issuing { handle, sender, recipient, inner })
            },
            Content::Res(_) => Flow::Done(
                Err(ServerError::Custom("Unsupported RFC6492 message".to_string())),
            ),
        }
    }
}

impl Operation for AnswerMessage {
    type Output = ServerResult<Bytes>;

    type Meaning = Result<Bytes, ErrorView>;

    open spec fn meaning(output: Self::Output) -> Self::Meaning {
        seen(output)
    }

    open spec fn script(&self) -> Script<Self::Meaning> {
        match *self {
            AnswerMessage::Loading { handle, msg } => rfc6492_script(handle@, msg),
            AnswerMessage::Verifying { handle, ca, msg } => verify_script(handle@, ca, msg),
            AnswerMessage::Revoking { handle, sender, recipient, inner } => inner.script().bind(
                wrap_revoke(handle@, sender, recipient),
            ),
            AnswerMessage::Listing { handle, sender, recipient, inner } => inner.script().bind(
                wrap_list(handle@, sender, recipient),
            ),
            AnswerMessage::Issuing { handle, sender, recipient, inner } => inner.script().bind(
                wrap_issue(handle@, sender, recipient),
            ),
            AnswerMessage::Wrapping(inner) => inner.script(),
        }
    }

    fn request(&self) -> (request: Request<'_>) {
        match self {
            AnswerMessage::Loading { handle, .. } => Request::Latest(handle),
            AnswerMessage::Verifying { ca, msg, .. } => Request::Verify(ca, msg),
            AnswerMessage::Revoking { inner, .. } => inner.request(),
            AnswerMessage::Listing { inner, .. } => inner.request(),
            AnswerMessage::Issuing { inner, .. } => inner.request(),
            AnswerMessage::Wrapping(inner) => inner.request(),
        }
    }

    fn admits(&self, reply: &Reply) -> (b: bool) {
        match self {
            AnswerMessage::Loading { .. } => self.request().answered_by(reply),
            AnswerMessage::Verifying { handle, .. } => match reply {
                Reply::Verified(Ok(query)) => match query.content {
                    Content::Qry(Qry::List) => handle.same(&ta_handle()),
                    Content::Qry(Qry::Issue(_)) => handle.same(&ta_handle()),
                    _ => true,
                },
                Reply::Verified(Err(_)) => true,
                _ => false,
            },
            AnswerMessage::Revoking { handle, sender, recipient, inner } => {
                let b = inner.admits(reply);
                proof {
                    inner.script().lemma_bind(wrap_revoke(handle@, *sender, *recipient), *reply);
                }
                b
            },
            AnswerMessage::Listing { handle, sender, recipient, inner } => {
                let b = inner.admits(reply);
                proof {
                    inner.script().lemma_bind(wrap_list(handle@, *sender, *recipient), *reply);
                }
                b
            },
            AnswerMessage::Issuing { handle, sender, recipient, inner } => {
                let b = inner.admits(reply);
                proof {
                    inner.script().lemma_bind(wrap_issue(handle@, *sender, *recipient), *reply);
                }
                b
            },
            AnswerMessage::Wrapping(inner) => inner.admits(reply),
        }
    }

    fn resume(self, reply: Reply) -> (flow: Flow<Self, Self::Output>) {
        match self {
            AnswerMessage::Loading { handle, msg } => match reply.into_ca() {
                Ok(ca) => Flow::Pending(AnswerMessage::Verifying { handle, ca, msg }),
                Err(error) => Flow::Done(Err(load_error(handle, Missing::Store, error))),
            },
            AnswerMessage::Verifying { handle, .. } => match reply.into_verified() {
                Ok(query) => Self::answer(handle, query),
                Err(error) => Flow::Done(Err(ServerError::CertAuth(error))),
            },
            AnswerMessage::Revoking { handle, sender, recipient, inner } => {
                proof {
                    inner.script().lemma_bind(wrap_revoke(handle@, sender, recipient), reply);
                }
                match inner.resume(reply) {
                    Flow::Pending(inner) => Flow::Pending(
                        AnswerMessage::Revoking { handle, sender, recipient, inner },
                    ),
                    Flow::Done(Ok(response)) => {
                        let content = Content::Res(Res::Revoke(response));
                        let msg = Message { sender, recipient, content };
                        let inner = WrapResponse::Loading { handle, msg };
                        Flow::Pending(AnswerMessage::Wrapping(inner))
                    },
                    Flow::Done(Err(error)) => Flow::Done(Err(error)),
                }
            },
            AnswerMessage::Listing { handle, sender, recipient, inner } => {
                proof {
                    inner.script().lemma_bind(wrap_list(handle@, sender, recipient), reply);
                }
                match inner.resume(reply) {
                    Flow::Pending(inner) => Flow::Pending(
                        AnswerMessage::Listing { handle, sender, recipient, inner },
                    ),
                    Flow::Done(Ok(entitlements)) => {
                        let content = Content::Res(Res::List(entitlements));
                        let msg = Message { sender, recipient, content };
                        let inner = WrapResponse::Loading { handle, msg };
                        Flow::Pending(AnswerMessage::Wrapping(inner))
                    },
                    Flow::Done(Err(error)) => Flow::Done(Err(error)),
                }
            },
            AnswerMessage::Issuing { handle, sender, recipient, inner } => {
                proof {
                    inner.script().lemma_bind(wrap_issue(handle@, sender, recipient), reply);
                }
                match inner.resume(reply) {
                    Flow::Pending(inner) => Flow::Pending(
                        AnswerMessage::Issuing { handle, sender, recipient, inner },
                    ),
                    Flow::Done(Ok(response)) => {
                        let content = Content::Res(Res::Issue(response));
                        let msg = Message { sender, recipient, content };
                        let inner = WrapResponse::Loading { handle, msg };
                        Flow::Pending(AnswerMessage::Wrapping(inner))
                    },
                    Flow::Done(Err(error)) => Flow::Done(Err(error)),
                }
            },
            AnswerMessage::Wrapping(inner) => match inner.resume(reply) {
                Flow::Pending(inner) => Flow::Pending(AnswerMessage::Wrapping(inner)),
                Flow::Done(res) => Flow::Done(res),
            },
        }
    }
}

} // verus!
