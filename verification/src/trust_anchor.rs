//! Operations on the children of the embedded trust anchor.
use crate::dialogue::{Reply, Request, RequestView};
use crate::error::{seen, ErrorView, ServerResult};
use crate::messages::{ChildRequest, ParentResponse, ParentResponseView, ServiceUri, ServiceUriView};
use crate::operation::{Flow, Operation};
use crate::outside::whole_seconds;
use crate::script::Script;
use crate::store::{
    apply_script, execute_script, load_error, loaded, performed, Execute, Missing, Perform, Settled,
};
use crate::types::{
    ta_handle, AddChildRequest, CertAuth, ChildAuthRequest, ChildCaInfo, Command, CommandView,
    ContactView, Handle, IdCert, ParentCaContact, UpdateChildRequest, TA_NAME,
};
use crate::uri::{has_https_scheme, is_https_uri, is_uri_text, HttpsUri, UriError};
use vstd::prelude::*;
use vstd::string::*;

verus! {

/// Where the CA `name` takes provisioning messages, on a server whose
/// services are found under `base`.
pub open spec fn provisioning_uri(base: Seq<char>, name: Seq<char>) -> Seq<char> {
    base + "rfc6492/"@ + name
}

/// The URI at which a CA takes provisioning messages.
pub fn provisioning_uri_of(base: &HttpsUri, ca: &Handle) -> (res: Result<HttpsUri, UriError>)
    ensures
        ({
            let text = provisioning_uri(base@, ca@);
            match res {
                Ok(uri) => is_https_uri(text) && uri@ == text,
                Err(UriError::NotAscii) => !is_uri_text(text),
                Err(UriError::BadScheme) => is_uri_text(text) && !has_https_scheme(text),
                Err(_) => false,
            }
        }),
{
    let text = base.as_str().to_string().concat("rfc6492/").concat(ca.name.as_str());
    HttpsUri::from_string(text)
}

/// The identity certificate by which a child is known, if it has one.
pub open spec fn child_id_cert(auth: ChildAuthRequest) -> Option<IdCert> {
    match auth {
        ChildAuthRequest::Embedded => None,
        ChildAuthRequest::Rfc8183(req) => Some(req.id_cert),
    }
}

/// What the trust anchor answers a child that it has added.
pub open spec fn parent_response(
    ta: CertAuth,
    child: Seq<char>,
    req: ChildRequest,
    base: Seq<char>,
) -> ParentResponseView {
    ParentResponseView {
        tag: req.tag,
        id_cert: ta.id_cert,
        parent_handle: ta.handle@,
        child_handle: child,
        service_uri: ServiceUriView::Https(provisioning_uri(base, ta.handle@)),
    }
}

/// How a child that was added reaches the trust anchor.
pub open spec fn child_contact(
    child: Seq<char>,
    auth: ChildAuthRequest,
    base: Seq<char>,
) -> spec_fn(Result<Settled, ErrorView>) -> Script<Result<ContactView, ErrorView>> {
    |res: Result<Settled, ErrorView>|
        match res {
            Ok(settled) => match auth {
                ChildAuthRequest::Embedded => Script::Done(Ok(ContactView::Embedded)),
                ChildAuthRequest::Rfc8183(req) => if is_https_uri(
                    provisioning_uri(base, settled.ca.handle@),
                ) {
                    Script::Done(
                        Ok(ContactView::Rfc6492(parent_response(settled.ca, child, req, base))),
                    )
                } else {
                    Script::Halt
                },
            },
            Err(error) => Script::Done(Err(error)),
        }
}

/// Adds a child to the trust anchor, and says how the child reaches it.
pub open spec fn ta_add_child_script(req: AddChildRequest, base: Seq<char>) -> Script<
    Result<ContactView, ErrorView>,
> {
    execute_script(
        TA_NAME@,
        Missing::TrustAnchor,
        CommandView::ChildAdd {
            ca: TA_NAME@,
            child: req.handle@,
            id_cert: child_id_cert(req.auth),
            resources: req.resources,
        },
        false,
    ).bind(child_contact(req.handle@, req.auth, base))
}

/// Adding a child to the trust anchor.
pub struct AddChild {
    pub inner: Execute,
    pub child: Handle,
    pub auth: ChildAuthRequest,
    pub base: HttpsUri,
}

impl AddChild {
    /// The operation, at its start.
    pub fn start(req: AddChildRequest, base: HttpsUri) -> (operation: AddChild)
        ensures
            operation.script() == ta_add_child_script(req, base@),
    {
        let id_cert = match &req.auth {
            ChildAuthRequest::Embedded => None,
            ChildAuthRequest::Rfc8183(req) => Some(req.id_cert.clone()),
        };
        let command = Command::ChildAdd {
            ca: ta_handle(),
            child: req.handle.clone(),
            id_cert,
            resources: req.resources,
        };
        let inner = Execute::Loading {
            handle: ta_handle(),
            missing: Missing::TrustAnchor,
            command,
            lazy: false,
        };
        AddChild { inner, child: req.handle, auth: req.auth, base }
    }
}

impl Operation for AddChild {
    type Output = ServerResult<ParentCaContact>;

    type Meaning = Result<ContactView, ErrorView>;

    open spec fn meaning(output: Self::Output) -> Self::Meaning {
        match output {
            Ok(contact) => Ok(contact@),
            Err(error) => Err(error@),
        }
    }

    open spec fn script(&self) -> Script<Self::Meaning> {
        self.inner.script().bind(child_contact(self.child@, self.auth, self.base@))
    }

    fn request(&self) -> (request: Request<'_>) {
        self.inner.request()
    }

    fn admits(&self, reply: &Reply) -> (b: bool) {
        let fits = self.inner.admits(reply);
        proof {
            let then = child_contact(self.child@, self.auth, self.base@);
            self.inner.script().lemma_bind(then, *reply);
        }
        if !fits {
            return false;
        }
        match (self.inner.settles(reply), &self.auth) {
            (Some(ta), ChildAuthRequest::Rfc8183(_)) => provisioning_uri_of(
                &self.base,
                &ta.handle,
            ).is_ok(),
            _ => true,
        }
    }

    fn resume(self, reply: Reply) -> (flow: Flow<Self, Self::Output>) {
        proof {
            let then = child_contact(self.child@, self.auth, self.base@);
            self.inner.script().lemma_bind(then, reply);
        }
        match self.inner.resume(reply) {
            Flow::Pending(inner) => Flow::Pending(
                AddChild { inner, child: self.child, auth: self.auth, base: self.base },
            ),
            Flow::Done(Ok(settled)) => match self.auth {
                ChildAuthRequest::Embedded => Flow::Done(Ok(ParentCaContact::Embedded)),
                ChildAuthRequest::Rfc8183(req) => {
                    let ta = settled.ca;
                    let uri = provisioning_uri_of(&self.base, &ta.handle).unwrap();
                    let response = ParentResponse {
                        tag: req.tag,
                        id_cert: ta.id_cert,
                        parent_handle: ta.handle,
                        child_handle: self.child,
                        service_uri: ServiceUri::Https(uri),
                    };
                    Flow::Done(Ok(ParentCaContact::Rfc6492(response)))
                },
            },
            Flow::Done(Err(error)) => Flow::Done(Err(error)),
        }
    }
}

/// Looks a child of the trust anchor up.
pub open spec fn show_script(ta: CertAuth, child: Seq<char>) -> Script<
    Result<Option<ChildCaInfo>, ErrorView>,
> {
    Script::Ask(
        RequestView::Child(ta, child),
        |reply: Reply|
            Script::Done(
                match reply->Child_0 {
                    Ok(info) => Ok(Some(info)),
                    Err(_) => Ok(None),
                },
            ),
    )
}

/// Loads the trust anchor, which is stored as `name`, and looks a child up.
/// An unknown child is no error.
pub open spec fn show_child_script(name: Seq<char>, child: Seq<char>) -> Script<
    Result<Option<ChildCaInfo>, ErrorView>,
> {
    Script::Ask(
        RequestView::Latest(name),
        |reply: Reply|
            match loaded(name, Missing::TrustAnchor, reply->Ca_0) {
                Ok(ta) => show_script(ta, child),
                Err(error) => Script::Done(Err(error)),
            },
    )
}

/// Showing a child of the trust anchor.
pub enum ShowChild {
    Loading { handle: Handle, child: Handle },
    Asking { ta: CertAuth, child: Handle },
}

impl Operation for ShowChild {
    type Output = ServerResult<Option<ChildCaInfo>>;

    type Meaning = Result<Option<ChildCaInfo>, ErrorView>;

    open spec fn meaning(output: Self::Output) -> Self::Meaning {
        seen(output)
    }

    open spec fn script(&self) -> Script<Self::Meaning> {
        match *self {
            ShowChild::Loading { handle, child } => show_child_script(handle@, child@),
            ShowChild::Asking { ta, child } => show_script(ta, child@),
        }
    }

    fn request(&self) -> (request: Request<'_>) {
        match self {
            ShowChild::Loading { handle, .. } => Request::Latest(handle),
            ShowChild::Asking { ta, child } => Request::Child(ta, child),
        }
    }

    fn admits(&self, reply: &Reply) -> (b: bool) {
        self.request().answered_by(reply)
    }

    fn resume(self, reply: Reply) -> (flow: Flow<Self, Self::Output>) {
        match self {
            ShowChild::Loading { handle, child } => match reply.into_ca() {
                Ok(ta) => Flow::Pending(ShowChild::Asking { ta, child }),
                Err(error) => Flow::Done(Err(load_error(handle, Missing::TrustAnchor, error))),
            },
            ShowChild::Asking { .. } => match reply.into_child() {
                Ok(info) => Flow::Done(Ok(Some(info))),
                Err(_) => Flow::Done(Ok(None)),
            },
        }
    }
}

/// Takes from a child what it is no longer entitled to, at once, if its
/// details have changed and this was asked for.
pub open spec fn shrink_child(child: Seq<char>, force: bool) -> spec_fn(
    Result<Settled, ErrorView>,
) -> Script<Result<(), ErrorView>> {
    |res: Result<Settled, ErrorView>|
        match res {
            Ok(settled) => if settled.changed && force {
                apply_script(
                    TA_NAME@,
                    settled.ca,
                    CommandView::ChildShrink { ca: TA_NAME@, child, grace_nanos: 0 },
                    true,
                ).bind(performed())
            } else {
                Script::Done(Ok(()))
            },
            Err(error) => Script::Done(Err(error)),
        }
}

/// Changes what the trust anchor knows of a child.
pub open spec fn ta_update_child_script(child: Seq<char>, req: UpdateChildRequest) -> Script<
    Result<(), ErrorView>,
> {
    execute_script(
        TA_NAME@,
        Missing::TrustAnchor,
        CommandView::ChildUpdate { ca: TA_NAME@, child, req },
        true,
    ).bind(shrink_child(child, req.force))
}

/// Changing what the trust anchor knows of a child.
pub enum UpdateChild {
    Updating { inner: Execute, child: Handle, force: bool },
    Shrinking(Perform),
}

impl UpdateChild {
    /// The operation, at its start.
    pub fn start(child: Handle, req: UpdateChildRequest) -> (operation: UpdateChild)
        ensures
            operation.script() == ta_update_child_script(child@, req),
    {
        let force = req.force;
        let command = Command::ChildUpdate { ca: ta_handle(), child: child.clone(), req };
        let inner = Execute::Loading {
            handle: ta_handle(),
            missing: Missing::TrustAnchor,
            command,
            lazy: true,
        };
        UpdateChild::Updating { inner, child, force }
    }
}

impl Operation for UpdateChild {
    type Output = ServerResult<()>;

    type Meaning = Result<(), ErrorView>;

    open spec fn meaning(output: Self::Output) -> Self::Meaning {
        seen(output)
    }

    open spec fn script(&self) -> Script<Self::Meaning> {
        match *self {
            UpdateChild::Updating { inner, child, force } => inner.script().bind(
                shrink_child(child@, force),
            ),
            UpdateChild::Shrinking(inner) => inner.script(),
        }
    }

    fn request(&self) -> (request: Request<'_>) {
        match self {
            UpdateChild::Updating { inner, .. } => inner.request(),
            UpdateChild::Shrinking(inner) => inner.request(),
        }
    }

    fn admits(&self, reply: &Reply) -> (b: bool) {
        match self {
            UpdateChild::Updating { inner, child, force } => {
                let b = inner.admits(reply);
                proof {
                    inner.script().lemma_bind(shrink_child(child@, *force), *reply);
                }
                b
            },
            UpdateChild::Shrinking(inner) => inner.admits(reply),
        }
    }

    fn resume(self, reply: Reply) -> (flow: Flow<Self, Self::Output>) {
        match self {
            UpdateChild::Updating { inner, child, force } => {
                proof {
                    inner.script().lemma_bind(shrink_child(child@, force), reply);
                }
                match inner.resume(reply) {
                    Flow::Pending(inner) => Flow::Pending(
                        UpdateChild::Updating { inner, child, force },
                    ),
                    Flow::Done(Ok(settled)) => if settled.changed && force {
                        let grace = whole_seconds(0);
                        let command = Command::ChildShrink { ca: ta_handle(), child, grace };
                        let inner = Execute::Processing {
                            handle: ta_handle(),
                            ca: settled.ca,
                            command,
                            lazy: true,
                        };
                        Flow::Pending(UpdateChild::Shrinking(Perform { inner }))
                    } else {
                        Flow::Done(Ok(()))
                    },
                    Flow::Done(Err(error)) => Flow::Done(Err(error)),
                }
            },
            UpdateChild::Shrinking(inner) => match inner.resume(reply) {
                Flow::Pending(inner) => Flow::Pending(UpdateChild::Shrinking(inner)),
                Flow::Done(res) => Flow::Done(res),
            },
        }
    }
}

} // verus!
