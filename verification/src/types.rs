//! The data that the server handles: certificate authorities, the requests
//! of administrators, and what is stored.
use crate::messages::{
    ChildRequest, Entitlements, IssuanceRequest, IssuedCert, ParentResponse, ParentResponseView,
    RevocationRequest, RevocationResponse,
};
use crate::outside::duration_nanos;
use crate::uri::HttpsUri;
use bytes::Bytes;
use chrono::Duration;
use rpki::uri::Rsync;
use vstd::prelude::*;

verus! {

/// The name under which the embedded trust anchor is stored.
pub const TA_NAME: &'static str = "ta";

/// The name of the one resource class that certificates are issued under.
pub const DFLT_CLASS: &'static str = "all";

/// The name space of the certificate authorities in the store.
pub const CA_NS: &'static str = "cas";

/// The name of a certificate authority.
#[derive(Debug, PartialEq, Eq)]
pub struct Handle {
    pub name: String,
}

impl View for Handle {
    type V = Seq<char>;

    open spec fn view(&self) -> Seq<char> {
        self.name@
    }
}

impl Clone for Handle {
    fn clone(&self) -> (copy: Self)
        ensures
            copy == *self,
    {
        Handle { name: self.name.clone() }
    }
}

impl Handle {
    /// Whether both are the same name.
    pub fn same(&self, other: &Handle) -> (b: bool)
        ensures
            b == (self@ == other@),
    {
        self.name == other.name
    }
}

/// The handle of the embedded trust anchor.
pub fn ta_handle() -> (handle: Handle)
    ensures
        handle@ == TA_NAME@,
{
    Handle { name: TA_NAME.to_string() }
}

/// A secret by which a CA is authenticated.
#[derive(Debug, PartialEq, Eq)]
pub struct Token {
    pub value: String,
}

/// The identifier of a key that the signer holds.
#[derive(Debug, PartialEq, Eq)]
pub struct KeyId {
    pub id: String,
}

impl Clone for KeyId {
    fn clone(&self) -> (copy: Self)
        ensures
            copy == *self,
    {
        KeyId { id: self.id.clone() }
    }
}

/// An identity certificate, in Base64.
#[derive(Debug, PartialEq, Eq)]
pub struct IdCert {
    pub encoded: String,
}

impl Clone for IdCert {
    fn clone(&self) -> (copy: Self)
        ensures
            copy == *self,
    {
        IdCert { encoded: self.encoded.clone() }
    }
}

/// Internet number resources.
#[derive(Debug, PartialEq, Eq)]
pub struct ResourceSet {
    pub asn: String,
    pub v4: String,
    pub v6: String,
}

/// Where a CA publishes.
#[derive(Debug, PartialEq)]
pub struct RepoInfo {
    pub base_uri: Rsync,
    pub rpki_notify: HttpsUri,
}

/// How a child authenticates itself.
#[derive(Debug, PartialEq)]
pub enum ChildAuthRequest {
    Embedded,
    Rfc8183(ChildRequest),
}

/// A request to add a child to the trust anchor.
#[derive(Debug, PartialEq)]
pub struct AddChildRequest {
    pub handle: Handle,
    pub resources: ResourceSet,
    pub auth: ChildAuthRequest,
}

/// A request to change what is known of a child.
#[derive(Debug, PartialEq)]
pub struct UpdateChildRequest {
    pub id_cert: Option<IdCert>,
    pub resources: Option<ResourceSet>,
    pub force: bool,
}

/// How a CA reaches its parent.
#[derive(Debug, PartialEq)]
pub enum ParentCaContact {
    Embedded,
    Rfc6492(ParentResponse),
}

/// A `ParentCaContact`, with names and URIs as texts.
pub enum ContactView {
    Embedded,
    Rfc6492(ParentResponseView),
}

impl View for ParentCaContact {
    type V = ContactView;

    open spec fn view(&self) -> ContactView {
        match *self {
            ParentCaContact::Embedded => ContactView::Embedded,
            ParentCaContact::Rfc6492(response) => ContactView::Rfc6492(response@),
        }
    }
}

/// A request to add a parent to a CA.
#[derive(Debug, PartialEq)]
pub struct AddParentRequest {
    pub handle: Handle,
    pub contact: ParentCaContact,
}

/// What is shown of a child.
#[derive(Debug, PartialEq)]
pub struct ChildCaInfo {
    pub id_cert: Option<IdCert>,
    pub resources: ResourceSet,
}

/// What is shown of a CA in a list.
#[derive(Debug, PartialEq)]
pub struct CertAuthSummary {
    pub name: Handle,
}

/// A list of CAs.
#[derive(Debug, PartialEq)]
pub struct CertAuthList {
    pub cas: Vec<CertAuthSummary>,
}

/// One state of a certificate authority in the store. Name and version
/// identify the state; the other fields are what the server reads of it.
#[derive(Debug, PartialEq)]
pub struct CertAuth {
    pub handle: Handle,
    pub version: u64,
    pub id_cert: IdCert,
    pub id_key: KeyId,
}

/// A change of a CA, as it is stored.
#[derive(Debug, PartialEq)]
pub struct CaEvent {
    pub version: u64,
    pub details: String,
}

/// The first state of a CA, as it is stored.
#[derive(Debug, PartialEq)]
pub struct CaInit {
    pub handle: Handle,
    pub details: String,
}

/// A CA that is to be created.
#[derive(Debug, PartialEq)]
pub enum NewCa {
    TrustAnchor { handle: Handle, info: RepoInfo, ta_aia: Rsync, ta_uris: Vec<HttpsUri> },
    Embedded { handle: Handle, token: Token, repo_info: RepoInfo },
}

/// A `NewCa`, with the name as text and the URIs as a sequence.
pub enum NewCaView {
    TrustAnchor { name: Seq<char>, info: RepoInfo, ta_aia: Rsync, ta_uris: Seq<HttpsUri> },
    Embedded { name: Seq<char>, token: Token, repo_info: RepoInfo },
}

impl View for NewCa {
    type V = NewCaView;

    open spec fn view(&self) -> NewCaView {
        match *self {
            NewCa::TrustAnchor { handle, info, ta_aia, ta_uris } => NewCaView::TrustAnchor {
                name: handle@,
                info,
                ta_aia,
                ta_uris: ta_uris@,
            },
            NewCa::Embedded { handle, token, repo_info } => NewCaView::Embedded {
                name: handle@,
                token,
                repo_info,
            },
        }
    }
}

impl NewCaView {
    /// The name of the CA that is to be created.
    pub open spec fn name(self) -> Seq<char> {
        match self {
            NewCaView::TrustAnchor { name, .. } => name,
            NewCaView::Embedded { name, .. } => name,
        }
    }
}

/// A certificate that a CA has received from its parent.
#[derive(Debug, PartialEq)]
pub struct RcvdCert {
    pub uri: Rsync,
    pub resources: ResourceSet,
    pub cert: Bytes,
}

/// The received certificate that an issued certificate is to its subject.
pub open spec fn received(issued: IssuedCert) -> RcvdCert {
    RcvdCert { uri: issued.uri, resources: issued.resources, cert: issued.cert }
}

impl RcvdCert {
    /// Takes a certificate over from its issuer.
    pub fn from_issued(issued: IssuedCert) -> (cert: RcvdCert)
        ensures
            cert == received(issued),
    {
        RcvdCert { uri: issued.uri, resources: issued.resources, cert: issued.cert }
    }
}

/// A command to the CA `ca`.
#[derive(Debug, PartialEq)]
#[allow(inconsistent_fields)]
pub enum Command {
    Publish { ca: Handle },
    ChildAdd { ca: Handle, child: Handle, id_cert: Option<IdCert>, resources: ResourceSet },
    ChildUpdate { ca: Handle, child: Handle, req: UpdateChildRequest },
    ChildShrink { ca: Handle, child: Handle, grace: Duration },
    ChildCertify { ca: Handle, child: Handle, req: IssuanceRequest },
    ChildRevokeKey { ca: Handle, child: Handle, req: RevocationRequest },
    AddParent { ca: Handle, parent: Handle, contact: ParentCaContact },
    KeyRollInit { ca: Handle, max_age: Duration },
    KeyRollActivate { ca: Handle, staging: Duration },
    KeyRollFinish { ca: Handle, parent: Handle, response: RevocationResponse },
    UpdateEntitlements { ca: Handle, parent: Handle, entitlements: Entitlements },
    UpdateRcvdCert { ca: Handle, parent: Handle, class_name: String, received: RcvdCert },
}

/// A command, with the names of CAs and of classes as texts and the grace
/// period of a shrink in nanoseconds.
#[allow(inconsistent_fields)]
pub enum CommandView {
    Publish { ca: Seq<char> },
    ChildAdd { ca: Seq<char>, child: Seq<char>, id_cert: Option<IdCert>, resources: ResourceSet },
    ChildUpdate { ca: Seq<char>, child: Seq<char>, req: UpdateChildRequest },
    ChildShrink { ca: Seq<char>, child: Seq<char>, grace_nanos: int },
    ChildCertify { ca: Seq<char>, child: Seq<char>, req: IssuanceRequest },
    ChildRevokeKey { ca: Seq<char>, child: Seq<char>, req: RevocationRequest },
    AddParent { ca: Seq<char>, parent: Seq<char>, contact: ParentCaContact },
    KeyRollInit { ca: Seq<char>, max_age: Duration },
    KeyRollActivate { ca: Seq<char>, staging: Duration },
    KeyRollFinish { ca: Seq<char>, parent: Seq<char>, response: RevocationResponse },
    UpdateEntitlements { ca: Seq<char>, parent: Seq<char>, entitlements: Entitlements },
    UpdateRcvdCert { ca: Seq<char>, parent: Seq<char>, class_name: Seq<char>, received: RcvdCert },
}

impl View for Command {
    type V = CommandView;

    open spec fn view(&self) -> CommandView {
        match *self {
            Command::Publish { ca } => CommandView::Publish { ca: ca@ },
            Command::ChildAdd { ca, child, id_cert, resources } => CommandView::ChildAdd {
                ca: ca@,
                child: child@,
                id_cert,
                resources,
            },
            Command::ChildUpdate { ca, child, req } => CommandView::ChildUpdate {
                ca: ca@,
                child: child@,
                req,
            },
            Command::ChildShrink { ca, child, grace } => CommandView::ChildShrink {
                ca: ca@,
                child: child@,
                grace_nanos: duration_nanos(grace),
            },
            Command::ChildCertify { ca, child, req } => CommandView::ChildCertify {
                ca: ca@,
                child: child@,
                req,
            },
            Command::ChildRevokeKey { ca, child, req } => CommandView::ChildRevokeKey {
                ca: ca@,
                child: child@,
                req,
            },
            Command::AddParent { ca, parent, contact } => CommandView::AddParent {
                ca: ca@,
                parent: parent@,
                contact,
            },
            Command::KeyRollInit { ca, max_age } => CommandView::KeyRollInit { ca: ca@, max_age },
            Command::KeyRollActivate { ca, staging } => CommandView::KeyRollActivate {
                ca: ca@,
                staging,
            },
            Command::KeyRollFinish { ca, parent, response } => CommandView::KeyRollFinish {
                ca: ca@,
                parent: parent@,
                response,
            },
            Command::UpdateEntitlements { ca, parent, entitlements } =>
                CommandView::UpdateEntitlements { ca: ca@, parent: parent@, entitlements },
            Command::UpdateRcvdCert { ca, parent, class_name, received } =>
                CommandView::UpdateRcvdCert {
                ca: ca@,
                parent: parent@,
                class_name: class_name@,
                received,
            },
        }
    }
}

impl CommandView {
    /// The name of the CA that the command is for.
    pub open spec fn target(self) -> Seq<char> {
        match self {
            CommandView::Publish { ca } => ca,
            CommandView::ChildAdd { ca, .. } => ca,
            CommandView::ChildUpdate { ca, .. } => ca,
            CommandView::ChildShrink { ca, .. } => ca,
            CommandView::ChildCertify { ca, .. } => ca,
            CommandView::ChildRevokeKey { ca, .. } => ca,
            CommandView::AddParent { ca, .. } => ca,
            CommandView::KeyRollInit { ca, .. } => ca,
            CommandView::KeyRollActivate { ca, .. } => ca,
            CommandView::KeyRollFinish { ca, .. } => ca,
            CommandView::UpdateEntitlements { ca, .. } => ca,
            CommandView::UpdateRcvdCert { ca, .. } => ca,
        }
    }
}

} // verus!
