//! The server: what can be asked of it.
use crate::dialogue::{Reply, Request, RequestView};
use crate::error::{seen, ErrorView, ServerError, ServerResult};
use crate::messages::{IssuanceRequest, RevocationRequest, SignedMessage};
use crate::operation::{Flow, Operation};
use crate::outcomes::{law_create_run, law_perform_run};
use crate::provisioning::{
    issue_script, list_script, revoke_script, rfc6492_script, AnswerMessage, Issue,
    ListEntitlements, Revoke,
};
use crate::revocations::{send_revoke_requests_script, SendRevocations};
use crate::runs::{commanded, faultless, given_up, idle, kept, ran};
use crate::script::{Script, Step};
use crate::store::{
    cas_script, create_script, load_script, perform_script, token_script, Create, Execute, ListCas,
    Load, MakeToken, Missing, Perform,
};
use crate::trust_anchor::{
    show_child_script, ta_add_child_script, ta_update_child_script, AddChild, ShowChild,
    UpdateChild,
};
use crate::types::{
    ta_handle, AddChildRequest, AddParentRequest, Command, CommandView, Handle, NewCa, NewCaView,
    RepoInfo, Token, UpdateChildRequest, CA_NS, TA_NAME,
};
use crate::updates::{
    get_updates_for_all_cas_script, get_updates_from_parent_script, republish_all_script,
    republish_script, send_requests_script, start_republish, RepublishAll, SendRequests, UpdateAll,
    UpdateFromParent,
};
use crate::uri::HttpsUri;
use chrono::Duration;
use rpki::uri::Rsync;
use vstd::prelude::*;

verus! {

/// The server for certificate authorities. It keeps nothing itself: all state
/// is in the store and with the signer.
#[derive(Clone, Copy, Debug, PartialEq, Eq, Structural)]
pub struct CaServer;

/// Connects the store to the event queue.
pub open spec fn listen_script() -> Script<Result<CaServer, ErrorView>> {
    Script::Ask(RequestView::Listen, |reply: Reply| Script::Done(Ok(CaServer)))
}

/// Opens the store under a directory and connects it to the event queue.
pub open spec fn build_script(work_dir: Seq<char>) -> Script<Result<CaServer, ErrorView>> {
    Script::Ask(
        RequestView::OpenStore(work_dir, CA_NS@),
        |reply: Reply|
            match reply->StoreOpened_0 {
                Ok(_) => listen_script(),
                Err(error) => Script::Done(Err(ErrorView::AggregateStoreError(error@))),
            },
    )
}

/// Building a server.
pub enum BuildServer {
    Opening { work_dir: String },
    Connecting,
}

impl Operation for BuildServer {
    type Output = ServerResult<CaServer>;

    type Meaning = Result<CaServer, ErrorView>;

    open spec fn meaning(output: Self::Output) -> Self::Meaning {
        seen(output)
    }

    open spec fn script(&self) -> Script<Self::Meaning> {
        match *self {
            BuildServer::Opening { work_dir } => build_script(work_dir@),
            BuildServer::Connecting => listen_script(),
        }
    }

    fn request(&self) -> (request: Request<'_>) {
        match self {
            BuildServer::Opening { work_dir } => Request::OpenStore(work_dir.as_str(), CA_NS),
            BuildServer::Connecting => Request::Listen,
        }
    }

    fn admits(&self, reply: &Reply) -> (b: bool) {
        self.request().answered_by(reply)
    }

    fn resume(self, reply: Reply) -> (flow: Flow<Self, Self::Output>) {
        match self {
            BuildServer::Opening { .. } => match reply.into_store_opened() {
                Ok(_) => Flow::Pending(BuildServer::Connecting),
                Err(error) => Flow::Done(Err(ServerError::AggregateStoreError(error))),
            },
            BuildServer::Connecting => Flow::Done(Ok(CaServer)),
        }
    }
}

/// # Trust anchor support
impl CaServer {
    /// Builds a new server. Fails if the store cannot be initialised.
    pub fn build(work_dir: String) -> (operation: BuildServer)
        ensures
            operation.script() == build_script(work_dir@),
    {
        BuildServer::Opening { work_dir }
    }

    /// Gets the trust anchor. Fails if it is uninitialised.
    pub fn get_trust_anchor(&self) -> (operation: Load)
        ensures
            operation.script() == load_script(TA_NAME@, Missing::TrustAnchor),
    {
        Load { handle: ta_handle(), missing: Missing::TrustAnchor }
    }

    /// Initialises an embedded trust anchor with all resources. Fails if
    /// there is one already.
    pub fn init_ta(&self, info: RepoInfo, ta_aia: Rsync, ta_uris: Vec<HttpsUri>) -> (operation:
        Create)
        ensures
            operation.script() == create_script(
                NewCaView::TrustAnchor { name: TA_NAME@, info, ta_aia, ta_uris: ta_uris@ },
            ),
            forall|steps: Seq<Step>, res: Result<(), ErrorView>|
                #[trigger] ran(operation.script(), steps, res) ==> {
                    &&& steps[0].request == RequestView::Has(TA_NAME@)
                    &&& steps.len() > 1 ==> steps[1].request == RequestView::Init(
                        NewCaView::TrustAnchor { name: TA_NAME@, info, ta_aia, ta_uris: ta_uris@ },
                    )
                    &&& res is Ok ==> steps.len() == 3 && faultless(steps, Missing::Store)
                },
    {
        let ghost new = NewCaView::TrustAnchor { name: TA_NAME@, info, ta_aia, ta_uris: ta_uris@ };
        let operation = Create::Checking(NewCa::TrustAnchor { handle: ta_handle(), info, ta_aia, ta_uris });
        proof {
            assert forall|steps: Seq<Step>, res: Result<(), ErrorView>|
                #[trigger] ran(operation.script(), steps, res) implies {
                &&& steps[0].request == RequestView::Has(TA_NAME@)
                &&& steps.len() > 1 ==> steps[1].request == RequestView::Init(new)
                &&& res is Ok ==> steps.len() == 3 && faultless(steps, Missing::Store)
            } by {
                law_create_run(new, steps, res);
            }
        }
        operation
    }

    /// Republishes the trust anchor and the CAs if needed, that is if they
    /// are close to their next update time. Goes on past failures, which are
    /// logged.
    pub fn republish_all(&self) -> (operation: RepublishAll)
        ensures
            operation.script() == republish_all_script(),
    {
        RepublishAll::Listing
    }

    /// Republishes a CA. Does nothing if there is nothing to publish.
    pub fn republish(&self, handle: &Handle) -> (operation: Perform)
        ensures
            operation.script() == republish_script(handle@),
    {
        start_republish(handle.clone())
    }

    /// Adds a child under the trust anchor, and tells how the child reaches
    /// it. `service_uri` is where the services of this server are found.
    pub fn ta_add_child(&self, req: AddChildRequest, service_uri: &HttpsUri) -> (operation:
        AddChild)
        ensures
            operation.script() == ta_add_child_script(req, service_uri@),
    {
        AddChild::start(req, service_uri.clone())
    }

    /// Shows details of a child under the trust anchor. Gives `None` if the
    /// trust anchor is there but the child is not known.
    pub fn ta_show_child(&self, child: &Handle) -> (operation: ShowChild)
        ensures
            operation.script() == show_child_script(TA_NAME@, child@),
    {
        ShowChild::Loading { handle: ta_handle(), child: child.clone() }
    }

    /// Changes what the trust anchor knows of a child. If the request says
    /// so, certificates are shrunk at once.
    pub fn ta_update_child(&self, child: Handle, req: UpdateChildRequest) -> (operation:
        UpdateChild)
        ensures
            operation.script() == ta_update_child_script(child@, req),
    {
        UpdateChild::start(child, req)
    }

    /// Generates a random token for embedded CAs.
    pub fn random_token(&self) -> (operation: MakeToken)
        ensures
            operation.script() == token_script(),
    {
        MakeToken
    }
}

/// # CA support
impl CaServer {
    /// Gets a CA.
    pub fn get_ca(&self, handle: &Handle) -> (operation: Load)
        ensures
            operation.script() == load_script(handle@, Missing::Unknown),
    {
        Load { handle: handle.clone(), missing: Missing::Unknown }
    }

    /// Verifies a provisioning message to a CA, does what it asks for, and
    /// gives the signed answer.
    pub fn rfc6492(&self, ca_handle: &Handle, msg: SignedMessage) -> (operation: AnswerMessage)
        ensures
            operation.script() == rfc6492_script(ca_handle@, msg),
    {
        AnswerMessage::Loading { handle: ca_handle.clone(), msg }
    }

    /// Lists the entitlements of a child: 3.3.2 of RFC 6492. Only the trust
    /// anchor is supported as a parent.
    pub fn list(&self, parent: &Handle, child: &Handle) -> (operation: ListEntitlements)
        requires
            parent@ == TA_NAME@,
        ensures
            operation.script() == list_script(TA_NAME@, Missing::TrustAnchor, child@),
    {
        ListEntitlements::Loading {
            handle: parent.clone(),
            missing: Missing::TrustAnchor,
            child: child.clone(),
        }
    }

    /// Issues a certificate: 3.4.1-2 of RFC 6492. Only the trust anchor is
    /// supported as a parent.
    pub fn issue(&self, parent: &Handle, child: &Handle, issue_req: IssuanceRequest) -> (operation:
        Issue)
        requires
            parent@ == TA_NAME@,
        ensures
            operation.script() == issue_script(TA_NAME@, child@, issue_req),
    {
        Issue::Loading { handle: parent.clone(), child: child.clone(), req: issue_req }
    }

    /// Revokes the certificates for a key: 3.5.1-2 of RFC 6492.
    pub fn revoke(&self, ca_handle: &Handle, child: Handle, revoke_request: RevocationRequest) -> (
    operation: Revoke)
        ensures
            operation.script() == revoke_script(ca_handle@, child@, revoke_request),
    {
        Revoke::start(ca_handle, child, revoke_request)
    }

    /// Gets the current CAs.
    pub fn cas(&self) -> (operation: ListCas)
        ensures
            operation.script() == cas_script(),
    {
        ListCas
    }

    /// Initialises an embedded CA, without any parents. Fails if there is a
    /// CA of that name already.
    pub fn init_ca(&self, handle: &Handle, token: Token, repo_info: RepoInfo) -> (operation: Create)
        ensures
            operation.script() == create_script(
                NewCaView::Embedded { name: handle@, token, repo_info },
            ),
            forall|steps: Seq<Step>, res: Result<(), ErrorView>|
                #[trigger] ran(operation.script(), steps, res) ==> {
                    &&& steps[0].request == RequestView::Has(handle@)
                    &&& steps.len() > 1 ==> steps[1].request == RequestView::Init(
                        NewCaView::Embedded { name: handle@, token, repo_info },
                    )
                    &&& res is Ok ==> steps.len() == 3 && faultless(steps, Missing::Store)
                },
    {
        let ghost new = NewCaView::Embedded { name: handle@, token, repo_info };
        let operation = Create::Checking(NewCa::Embedded { handle: handle.clone(), token, repo_info });
        proof {
            assert forall|steps: Seq<Step>, res: Result<(), ErrorView>|
                #[trigger] ran(operation.script(), steps, res) implies {
                &&& steps[0].request == RequestView::Has(handle@)
                &&& steps.len() > 1 ==> steps[1].request == RequestView::Init(new)
                &&& res is Ok ==> steps.len() == 3 && faultless(steps, Missing::Store)
            } by {
                law_create_run(new, steps, res);
            }
        }
        operation
    }

    /// Adds a parent to a CA.
    pub fn ca_add_parent(&self, handle: Handle, parent: AddParentRequest) -> (operation: Perform)
        ensures
            operation.script() == perform_script(
                handle@,
                Missing::Unknown,
                CommandView::AddParent {
                    ca: handle@,
                    parent: parent.handle@,
                    contact: parent.contact,
                },
                false,
            ),
            forall|steps: Seq<Step>, res: Result<(), ErrorView>|
                #[trigger] ran(operation.script(), steps, res) ==> {
                    &&& steps[0].request == RequestView::Latest(handle@)
                    &&& steps.len() > 1 ==> commanded(
                        steps,
                        1,
                        CommandView::AddParent {
                            ca: handle@,
                            parent: parent.handle@,
                            contact: parent.contact,
                        },
                    )
                    &&& steps.len() > 2 ==> kept(steps, 2, handle@)
                    &&& match res {
                        Ok(_) => faultless(steps, Missing::Unknown) && (steps.len() == 3),
                        Err(error) => given_up(steps, Missing::Unknown, error),
                    }
                },
    {
        let command = Command::AddParent {
            ca: handle.clone(),
            parent: parent.handle,
            contact: parent.contact,
        };
        let inner = Execute::Loading { handle, missing: Missing::Unknown, command, lazy: false };
        let operation = Perform { inner };
        proof {
            assert forall|steps: Seq<Step>, res: Result<(), ErrorView>|
                #[trigger] ran(operation.script(), steps, res) implies {
                &&& steps[0].request == RequestView::Latest(handle@)
                &&& steps.len() > 1 ==> commanded(steps, 1, command@)
                &&& steps.len() > 2 ==> kept(steps, 2, handle@)
                &&& match res {
                    Ok(_) => faultless(steps, Missing::Unknown) && (steps.len() == 3),
                    Err(error) => given_up(steps, Missing::Unknown, error),
                }
            } by {
                law_perform_run(handle@, Missing::Unknown, command@, false, steps, res);
            }
        }
        operation
    }

    /// Performs a key roll for all active keys in a CA that are older than
    /// the given duration.
    pub fn ca_keyroll_init(&self, handle: Handle, max_age: Duration) -> (operation: Perform)
        ensures
            operation.script() == perform_script(
                handle@,
                Missing::Unknown,
                CommandView::KeyRollInit { ca: handle@, max_age },
                true,
            ),
            forall|steps: Seq<Step>, res: Result<(), ErrorView>|
                #[trigger] ran(operation.script(), steps, res) ==> {
                    &&& steps[0].request == RequestView::Latest(handle@)
                    &&& steps.len() > 1 ==> commanded(
                        steps,
                        1,
                        CommandView::KeyRollInit { ca: handle@, max_age },
                    )
                    &&& steps.len() > 2 ==> kept(steps, 2, handle@)
                    &&& match res {
                        Ok(_) => faultless(steps, Missing::Unknown) && (steps.len() == 3 || (steps.len() == 2 && idle(steps[1]))),
                        Err(error) => given_up(steps, Missing::Unknown, error),
                    }
                },
    {
        let command = Command::KeyRollInit { ca: handle.clone(), max_age };
        let inner = Execute::Loading { handle, missing: Missing::Unknown, command, lazy: true };
        let operation = Perform { inner };
        proof {
            assert forall|steps: Seq<Step>, res: Result<(), ErrorView>|
                #[trigger] ran(operation.script(), steps, res) implies {
                &&& steps[0].request == RequestView::Latest(handle@)
                &&& steps.len() > 1 ==> commanded(steps, 1, command@)
                &&& steps.len() > 2 ==> kept(steps, 2, handle@)
                &&& match res {
                    Ok(_) => faultless(steps, Missing::Unknown) && (steps.len() == 3 || (steps.len() == 2 && idle(steps[1]))),
                    Err(error) => given_up(steps, Missing::Unknown, error),
                }
            } by {
                law_perform_run(handle@, Missing::Unknown, command@, true, steps, res);
            }
        }
        operation
    }

    /// Activates new keys, as part of the key roll process (RFC 6489). Only
    /// new keys that are at least as old as the staging period are promoted.
    /// The RFC mandates a staging period of 24 hours; a shorter one serves
    /// for tests and for manual key rolls in an emergency.
    pub fn ca_keyroll_activate(&self, handle: Handle, staging: Duration) -> (operation: Perform)
        ensures
            operation.script() == perform_script(
                handle@,
                Missing::Unknown,
                CommandView::KeyRollActivate { ca: handle@, staging },
                true,
            ),
            forall|steps: Seq<Step>, res: Result<(), ErrorView>|
                #[trigger] ran(operation.script(), steps, res) ==> {
                    &&& steps[0].request == RequestView::Latest(handle@)
                    &&& steps.len() > 1 ==> commanded(
                        steps,
                        1,
                        CommandView::KeyRollActivate { ca: handle@, staging },
                    )
                    &&& steps.len() > 2 ==> kept(steps, 2, handle@)
                    &&& match res {
                        Ok(_) => faultless(steps, Missing::Unknown) && (steps.len() == 3 || (steps.len() == 2 && idle(steps[1]))),
                        Err(error) => given_up(steps, Missing::Unknown, error),
                    }
                },
    {
        let command = Command::KeyRollActivate { ca: handle.clone(), staging };
        let inner = Execute::Loading { handle, missing: Missing::Unknown, command, lazy: true };
        let operation = Perform { inner };
        proof {
            assert forall|steps: Seq<Step>, res: Result<(), ErrorView>|
                #[trigger] ran(operation.script(), steps, res) implies {
                &&& steps[0].request == RequestView::Latest(handle@)
                &&& steps.len() > 1 ==> commanded(steps, 1, command@)
                &&& steps.len() > 2 ==> kept(steps, 2, handle@)
                &&& match res {
                    Ok(_) => faultless(steps, Missing::Unknown) && (steps.len() == 3 || (steps.len() == 2 && idle(steps[1]))),
                    Err(error) => given_up(steps, Missing::Unknown, error),
                }
            } by {
                law_perform_run(handle@, Missing::Unknown, command@, true, steps, res);
            }
        }
        operation
    }

    /// Tries to get updates for all CAs. Skips the trust anchor and CAs that
    /// have no parents. Goes on past failures, which are logged.
    pub fn get_updates_for_all_cas(&self) -> (operation: UpdateAll)
        ensures
            operation.script() == get_updates_for_all_cas_script(),
    {
        UpdateAll::Listing
    }

    /// Tries to update a specific CA.
    pub fn get_updates_from_parent(&self, handle: &Handle, parent: &Handle) -> (operation:
        UpdateFromParent)
        ensures
            operation.script() == get_updates_from_parent_script(handle@, parent@),
    {
        UpdateFromParent::start(handle.clone(), parent.clone())
    }

    /// Sends a parent all open requests of a CA.
    pub fn send_requests(&self, handle: &Handle, parent: &Handle) -> (operation: SendRequests)
        ensures
            operation.script() == send_requests_script(handle@, parent@),
    {
        SendRequests::start(handle.clone(), parent.clone())
    }

    /// Sends a parent revocation requests of a CA.
    pub fn send_revoke_requests(
        &self,
        handle: &Handle,
        parent: &Handle,
        requests: Vec<RevocationRequest>,
    ) -> (operation: SendRevocations)
        ensures
            operation.script() == send_revoke_requests_script(handle@, parent@, requests@),
    {
        SendRevocations::Loading { handle: handle.clone(), parent: parent.clone(), requests }
    }
}

} // verus!
