//! The messages between parents and children: identity exchange (RFC 8183)
//! and provisioning (RFC 6492).
use crate::types::{Handle, IdCert, ResourceSet};
use crate::uri::HttpsUri;
use bytes::Bytes;
use rpki::uri::Rsync;
use vstd::prelude::*;

verus! {

/// The media type of provisioning messages.
pub const CONTENT_TYPE: &'static str = "application/rpki-updown";

/// The identity that a child presents to its parent (RFC 8183).
#[derive(Debug, PartialEq)]
pub struct ChildRequest {
    pub tag: Option<String>,
    pub child_handle: Handle,
    pub id_cert: IdCert,
}

/// Where a parent takes provisioning messages.
#[derive(Debug, PartialEq)]
pub enum ServiceUri {
    Https(HttpsUri),
    Http(String),
}

/// A `ServiceUri`, with the URI as text.
pub enum ServiceUriView {
    Https(Seq<char>),
    Http(Seq<char>),
}

impl View for ServiceUri {
    type V = ServiceUriView;

    open spec fn view(&self) -> ServiceUriView {
        match *self {
            ServiceUri::Https(uri) => ServiceUriView::Https(uri@),
            ServiceUri::Http(text) => ServiceUriView::Http(text@),
        }
    }
}

impl ServiceUriView {
    /// The text of the URI.
    pub open spec fn text(self) -> Seq<char> {
        match self {
            ServiceUriView::Https(text) => text,
            ServiceUriView::Http(text) => text,
        }
    }
}

impl Clone for ServiceUri {
    fn clone(&self) -> (copy: Self)
        ensures
            copy == *self,
    {
        match self {
            ServiceUri::Https(uri) => ServiceUri::Https(uri.clone()),
            ServiceUri::Http(text) => ServiceUri::Http(text.clone()),
        }
    }
}

impl ServiceUri {
    /// The text of the URI.
    pub fn as_str(&self) -> (text: &str)
        ensures
            text@ == self@.text(),
    {
        match self {
            ServiceUri::Https(uri) => uri.as_str(),
            ServiceUri::Http(text) => text.as_str(),
        }
    }
}

/// The parent's answer to a `ChildRequest` (RFC 8183).
#[derive(Debug, PartialEq)]
pub struct ParentResponse {
    pub tag: Option<String>,
    pub id_cert: IdCert,
    pub parent_handle: Handle,
    pub child_handle: Handle,
    pub service_uri: ServiceUri,
}

/// A `ParentResponse`, with names and the URI as texts.
pub struct ParentResponseView {
    pub tag: Option<String>,
    pub id_cert: IdCert,
    pub parent_handle: Seq<char>,
    pub child_handle: Seq<char>,
    pub service_uri: ServiceUriView,
}

impl View for ParentResponse {
    type V = ParentResponseView;

    open spec fn view(&self) -> ParentResponseView {
        ParentResponseView {
            tag: self.tag,
            id_cert: self.id_cert,
            parent_handle: self.parent_handle@,
            child_handle: self.child_handle@,
            service_uri: self.service_uri@,
        }
    }
}

impl Clone for ParentResponse {
    fn clone(&self) -> (copy: Self)
        ensures
            copy == *self,
    {
        let tag = match &self.tag {
            Some(tag) => Some(tag.clone()),
            None => None,
        };
        ParentResponse {
            tag,
            id_cert: self.id_cert.clone(),
            parent_handle: self.parent_handle.clone(),
            child_handle: self.child_handle.clone(),
            service_uri: self.service_uri.clone(),
        }
    }
}

/// A public key.
#[derive(Debug, PartialEq, Eq)]
pub struct PublicKey {
    pub spki: String,
}

impl Clone for PublicKey {
    fn clone(&self) -> (copy: Self)
        ensures
            copy == *self,
    {
        PublicKey { spki: self.spki.clone() }
    }
}

/// A certificate sign request and the public key in it.
#[derive(Debug, PartialEq)]
pub struct Csr {
    pub public_key: PublicKey,
    pub encoded: Bytes,
}

/// The resources that a requested certificate is to be limited to.
#[derive(Debug, PartialEq)]
pub struct ResourceLimit {
    pub asn: Option<String>,
    pub v4: Option<String>,
    pub v6: Option<String>,
}

/// The certificate of an issuer and where it is published.
#[derive(Debug, PartialEq)]
pub struct SigningCert {
    pub uri: Rsync,
    pub cert: Bytes,
}

/// A certificate that a parent has issued.
#[derive(Debug, PartialEq)]
pub struct IssuedCert {
    pub uri: Rsync,
    pub limit: ResourceLimit,
    pub resources: ResourceSet,
    pub cert: Bytes,
}

/// What a child is entitled to in one resource class.
#[derive(Debug, PartialEq)]
pub struct EntitlementClass {
    pub class_name: String,
    pub issuer: SigningCert,
    pub resources: ResourceSet,
    pub not_after: i64,
    pub issued: Vec<IssuedCert>,
}

/// What a child is entitled to.
#[derive(Debug, PartialEq)]
pub struct Entitlements {
    pub classes: Vec<EntitlementClass>,
}

/// A child's request for a certificate.
#[derive(Debug, PartialEq)]
pub struct IssuanceRequest {
    pub class_name: String,
    pub limit: ResourceLimit,
    pub csr: Csr,
}

/// The parent's answer to an `IssuanceRequest`.
#[derive(Debug, PartialEq)]
pub struct IssuanceResponse {
    pub class_name: String,
    pub issuer: SigningCert,
    pub resources: ResourceSet,
    pub issued: IssuedCert,
}

/// A child's request to revoke all certificates for a key.
#[derive(Debug, PartialEq, Eq)]
pub struct RevocationRequest {
    pub class_name: String,
    pub key: String,
}

impl Clone for RevocationRequest {
    fn clone(&self) -> (copy: Self)
        ensures
            copy == *self,
    {
        RevocationRequest { class_name: self.class_name.clone(), key: self.key.clone() }
    }
}

/// The parent's answer to a `RevocationRequest`.
#[derive(Debug, PartialEq, Eq)]
pub struct RevocationResponse {
    pub class_name: String,
    pub key: String,
}

/// The answer that grants a revocation: it names the same class and key.
pub open spec fn revoked(req: RevocationRequest) -> RevocationResponse {
    RevocationResponse { class_name: req.class_name, key: req.key }
}

impl RevocationResponse {
    /// The answer that grants the request.
    pub fn granting(req: &RevocationRequest) -> (res: RevocationResponse)
        ensures
            res == revoked(*req),
    {
        RevocationResponse { class_name: req.class_name.clone(), key: req.key.clone() }
    }
}

/// The parent's refusal of a request, as text.
#[derive(Debug, PartialEq, Eq)]
pub struct NotPerformedResponse {
    pub text: String,
}

/// What a child asks of its parent.
#[derive(Debug, PartialEq)]
pub enum Qry {
    List,
    Issue(IssuanceRequest),
    Revoke(RevocationRequest),
}

/// What a parent answers.
#[derive(Debug, PartialEq)]
pub enum Res {
    List(Entitlements),
    Issue(IssuanceResponse),
    Revoke(RevocationResponse),
    NotPerformed(NotPerformedResponse),
}

/// The content of a provisioning message.
#[derive(Debug, PartialEq)]
pub enum Content {
    Qry(Qry),
    Res(Res),
}

/// A provisioning message (RFC 6492).
#[derive(Debug, PartialEq)]
pub struct Message {
    pub sender: String,
    pub recipient: String,
    pub content: Content,
}

/// A signed provisioning message.
#[derive(Debug, PartialEq)]
pub struct SignedMessage {
    pub encoded: Bytes,
}

} // verus!
