//! What the server asks of the outside (the store, the CAs, the signer, the
//! HTTP client) and what it is told.
use crate::error::{Incident, IncidentView};
use crate::messages::{
    Entitlements, IssuanceRequest, IssuanceResponse, Message, PublicKey, Res, RevocationRequest,
    SignedMessage,
};
use crate::outside::{encodable_len, is_encodable, octets};
use crate::types::{
    CaEvent, CaInit, CertAuth, ChildCaInfo, Command, CommandView, Handle, IdCert, KeyId, NewCa,
    NewCaView, ParentCaContact, Token,
};
use bytes::Bytes;
use vstd::pervasive::unreached;
use vstd::prelude::*;

verus! {

/// One thing that the outside is asked to do.
pub enum Request<'a> {
    /// Open the store under a directory, for a name space.
    OpenStore(&'a str, &'a str),
    /// Let the event queue hear of all that is stored.
    Listen,
    /// Does the store hold a CA of this name?
    Has(&'a Handle),
    /// Which CAs does the store hold?
    List,
    /// Load the latest state of a CA.
    Latest(&'a Handle),
    /// Make the first state of a CA.
    Init(&'a NewCa),
    /// Store the first state of a CA.
    Add(&'a CaInit),
    /// Let a CA process a command: which changes come of it?
    Process(&'a CertAuth, &'a Command),
    /// Store changes of a CA, on top of the given state.
    Update(&'a Handle, &'a CertAuth, &'a Vec<CaEvent>),
    /// What does the CA know of a child?
    Child(&'a CertAuth, &'a Handle),
    /// What is a child of the CA entitled to?
    Entitlements(&'a CertAuth, &'a Handle),
    /// What has the CA issued to a child in a class, for a key?
    Issuance(&'a CertAuth, &'a Handle, &'a String, &'a PublicKey),
    /// Which parents does the CA have?
    Parents(&'a CertAuth),
    /// How does the CA reach a parent?
    Contact(&'a CertAuth, &'a Handle),
    /// Which revocations does the CA want from a parent?
    Revocations(&'a CertAuth, &'a Handle),
    /// Which certificates does the CA want from a parent?
    CertRequests(&'a CertAuth, &'a Handle),
    /// Verify and open a message that a child of the CA has signed.
    Verify(&'a CertAuth, &'a SignedMessage),
    /// Sign a message with the identity key of the CA.
    SignResponse(&'a CertAuth, &'a Message),
    /// Sign a message with a key.
    Sign(&'a KeyId, &'a Message),
    /// Post a body of a media type to a URI.
    Post(&'a str, &'a str, &'a Bytes),
    /// Read octets as a signed message, strictly in DER or not.
    Decode(&'a Bytes, bool),
    /// Check a signed message against an identity certificate.
    Validate(&'a SignedMessage, &'a IdCert),
    /// Open a signed message and take the parent's answer out of it.
    Open(&'a SignedMessage),
    /// Make a random token.
    RandomToken,
    /// Log an incident.
    Log(&'a Incident),
}

/// A `Request`, with names as texts and lists as sequences.
pub enum RequestView {
    OpenStore(Seq<char>, Seq<char>),
    Listen,
    Has(Seq<char>),
    List,
    Latest(Seq<char>),
    Init(NewCaView),
    Add(CaInit),
    Process(CertAuth, CommandView),
    Update(Seq<char>, CertAuth, Seq<CaEvent>),
    Child(CertAuth, Seq<char>),
    Entitlements(CertAuth, Seq<char>),
    Issuance(CertAuth, Seq<char>, Seq<char>, PublicKey),
    Parents(CertAuth),
    Contact(CertAuth, Seq<char>),
    Revocations(CertAuth, Seq<char>),
    CertRequests(CertAuth, Seq<char>),
    Verify(CertAuth, SignedMessage),
    SignResponse(CertAuth, Message),
    Sign(KeyId, Message),
    Post(Seq<char>, Seq<char>, Bytes),
    Decode(Bytes, bool),
    Validate(SignedMessage, IdCert),
    Open(SignedMessage),
    RandomToken,
    Log(IncidentView),
}

impl<'a> View for Request<'a> {
    type V = RequestView;

    open spec fn view(&self) -> RequestView {
        match *self {
            Request::OpenStore(dir, ns) => RequestView::OpenStore(dir@, ns@),
            Request::Listen => RequestView::Listen,
            Request::Has(handle) => RequestView::Has(handle@),
            Request::List => RequestView::List,
            Request::Latest(handle) => RequestView::Latest(handle@),
            Request::Init(new) => RequestView::Init(new@),
            Request::Add(init) => RequestView::Add(*init),
            Request::Process(ca, command) => RequestView::Process(*ca, command@),
            Request::Update(handle, ca, events) => RequestView::Update(handle@, *ca, events@),
            Request::Child(ca, child) => RequestView::Child(*ca, child@),
            Request::Entitlements(ca, child) => RequestView::Entitlements(*ca, child@),
            Request::Issuance(ca, child, class_name, key) => RequestView::Issuance(
                *ca,
                child@,
                class_name@,
                *key,
            ),
            Request::Parents(ca) => RequestView::Parents(*ca),
            Request::Contact(ca, parent) => RequestView::Contact(*ca, parent@),
            Request::Revocations(ca, parent) => RequestView::Revocations(*ca, parent@),
            Request::CertRequests(ca, parent) => RequestView::CertRequests(*ca, parent@),
            Request::Verify(ca, msg) => RequestView::Verify(*ca, *msg),
            Request::SignResponse(ca, msg) => RequestView::SignResponse(*ca, *msg),
            Request::Sign(key, msg) => RequestView::Sign(*key, *msg),
            Request::Post(uri, content_type, body) => RequestView::Post(uri@, content_type@, *body),
            Request::Decode(body, strict) => RequestView::Decode(*body, strict),
            Request::Validate(msg, id_cert) => RequestView::Validate(*msg, *id_cert),
            Request::Open(msg) => RequestView::Open(*msg),
            Request::RandomToken => RequestView::RandomToken,
            Request::Log(incident) => RequestView::Log(incident@),
        }
    }
}

/// What came of a request. An error of the outside is given as its text.
#[derive(Debug, PartialEq)]
pub enum Reply {
    StoreOpened(Result<(), String>),
    Listening,
    Has(bool),
    Handles(Vec<Handle>),
    Ca(Result<CertAuth, String>),
    Init(Result<CaInit, String>),
    Added(Result<(), String>),
    Events(Result<Vec<CaEvent>, String>),
    Child(Result<ChildCaInfo, String>),
    Entitlements(Result<Entitlements, String>),
    Issuance(Result<IssuanceResponse, String>),
    Parents(Result<Vec<Handle>, String>),
    Contact(Result<ParentCaContact, String>),
    Revocations(Vec<RevocationRequest>),
    CertRequests(Vec<IssuanceRequest>),
    Verified(Result<Message, String>),
    Signed(Result<Bytes, String>),
    Posted(Result<Bytes, String>),
    Decoded(Result<SignedMessage, String>),
    Validated(Result<(), String>),
    Opened(Result<Res, String>),
    Token(Token),
    Logged,
}

/// What a reply of a known kind holds.
impl Reply {
    pub(crate) fn into_store_opened(self) -> (res: Result<(), String>)
        requires
            self is StoreOpened,
        ensures
            res == self->StoreOpened_0,
    {
        match self {
            Reply::StoreOpened(res) => res,
            _ => unreached(),
        }
    }

    pub(crate) fn into_has(self) -> (res: bool)
        requires
            self is Has,
        ensures
            res == self->Has_0,
    {
        match self {
            Reply::Has(res) => res,
            _ => unreached(),
        }
    }

    pub(crate) fn into_handles(self) -> (res: Vec<Handle>)
        requires
            self is Handles,
        ensures
            res == self->Handles_0,
    {
        match self {
            Reply::Handles(res) => res,
            _ => unreached(),
        }
    }

    pub(crate) fn into_ca(self) -> (res: Result<CertAuth, String>)
        requires
            self is Ca,
        ensures
            res == self->Ca_0,
    {
        match self {
            Reply::Ca(res) => res,
            _ => unreached(),
        }
    }

    pub(crate) fn into_init(self) -> (res: Result<CaInit, String>)
        requires
            self is Init,
        ensures
            res == self->Init_0,
    {
        match self {
            Reply::Init(res) => res,
            _ => unreached(),
        }
    }

    pub(crate) fn into_added(self) -> (res: Result<(), String>)
        requires
            self is Added,
        ensures
            res == self->Added_0,
    {
        match self {
            Reply::Added(res) => res,
            _ => unreached(),
        }
    }

    pub(crate) fn into_events(self) -> (res: Result<Vec<CaEvent>, String>)
        requires
            self is Events,
        ensures
            res == self->Events_0,
    {
        match self {
            Reply::Events(res) => res,
            _ => unreached(),
        }
    }

    pub(crate) fn into_child(self) -> (res: Result<ChildCaInfo, String>)
        requires
            self is Child,
        ensures
            res == self->Child_0,
    {
        match self {
            Reply::Child(res) => res,
            _ => unreached(),
        }
    }

    pub(crate) fn into_entitlements(self) -> (res: Result<Entitlements, String>)
        requires
            self is Entitlements,
        ensures
            res == self->Entitlements_0,
    {
        match self {
            Reply::Entitlements(res) => res,
            _ => unreached(),
        }
    }

    pub(crate) fn into_issuance(self) -> (res: Result<IssuanceResponse, String>)
        requires
            self is Issuance,
        ensures
            res == self->Issuance_0,
    {
        match self {
            Reply::Issuance(res) => res,
            _ => unreached(),
        }
    }

    pub(crate) fn into_parents(self) -> (res: Result<Vec<Handle>, String>)
        requires
            self is Parents,
        ensures
            res == self->Parents_0,
    {
        match self {
            Reply::Parents(res) => res,
            _ => unreached(),
        }
    }

    pub(crate) fn into_contact(self) -> (res: Result<ParentCaContact, String>)
        requires
            self is Contact,
        ensures
            res == self->Contact_0,
    {
        match self {
            Reply::Contact(res) => res,
            _ => unreached(),
        }
    }

    pub(crate) fn into_revocations(self) -> (res: Vec<RevocationRequest>)
        requires
            self is Revocations,
        ensures
            res == self->Revocations_0,
    {
        match self {
            Reply::Revocations(res) => res,
            _ => unreached(),
        }
    }

    pub(crate) fn into_cert_requests(self) -> (res: Vec<IssuanceRequest>)
        requires
            self is CertRequests,
        ensures
            res == self->CertRequests_0,
    {
        match self {
            Reply::CertRequests(res) => res,
            _ => unreached(),
        }
    }

    pub(crate) fn into_verified(self) -> (res: Result<Message, String>)
        requires
            self is Verified,
        ensures
            res == self->Verified_0,
    {
        match self {
            Reply::Verified(res) => res,
            _ => unreached(),
        }
    }

    pub(crate) fn into_signed(self) -> (res: Result<Bytes, String>)
        requires
            self is Signed,
        ensures
            res == self->Signed_0,
    {
        match self {
            Reply::Signed(res) => res,
            _ => unreached(),
        }
    }

    pub(crate) fn into_posted(self) -> (res: Result<Bytes, String>)
        requires
            self is Posted,
        ensures
            res == self->Posted_0,
    {
        match self {
            Reply::Posted(res) => res,
            _ => unreached(),
        }
    }

    pub(crate) fn into_decoded(self) -> (res: Result<SignedMessage, String>)
        requires
            self is Decoded,
        ensures
            res == self->Decoded_0,
    {
        match self {
            Reply::Decoded(res) => res,
            _ => unreached(),
        }
    }

    pub(crate) fn into_validated(self) -> (res: Result<(), String>)
        requires
            self is Validated,
        ensures
            res == self->Validated_0,
    {
        match self {
            Reply::Validated(res) => res,
            _ => unreached(),
        }
    }

    pub(crate) fn into_opened(self) -> (res: Result<Res, String>)
        requires
            self is Opened,
        ensures
            res == self->Opened_0,
    {
        match self {
            Reply::Opened(res) => res,
            _ => unreached(),
        }
    }

    pub(crate) fn into_token(self) -> (res: Token)
        requires
            self is Token,
        ensures
            res == self->Token_0,
    {
        match self {
            Reply::Token(res) => res,
            _ => unreached(),
        }
    }
}

impl RequestView {
    /// The reply is one to this request: it is of the right kind, and a body
    /// that was received is short enough to be logged in Base64.
    pub open spec fn answered_by(self, reply: Reply) -> bool {
        match self {
            RequestView::OpenStore(..) => reply is StoreOpened,
            RequestView::Listen => reply is Listening,
            RequestView::Has(_) => reply is Has,
            RequestView::List => reply is Handles,
            RequestView::Latest(_) => reply is Ca,
            RequestView::Init(_) => reply is Init,
            RequestView::Add(_) => reply is Added,
            RequestView::Process(..) => reply is Events,
            RequestView::Update(..) => reply is Ca,
            RequestView::Child(..) => reply is Child,
            RequestView::Entitlements(..) => reply is Entitlements,
            RequestView::Issuance(..) => reply is Issuance,
            RequestView::Parents(_) => reply is Parents,
            RequestView::Contact(..) => reply is Contact,
            RequestView::Revocations(..) => reply is Revocations,
            RequestView::CertRequests(..) => reply is CertRequests,
            RequestView::Verify(..) => reply is Verified,
            RequestView::SignResponse(..) => reply is Signed,
            RequestView::Sign(..) => reply is Signed,
            RequestView::Post(..) => match reply {
                Reply::Posted(Ok(body)) => encodable_len(octets(body).len()),
                Reply::Posted(Err(_)) => true,
                _ => false,
            },
            RequestView::Decode(..) => reply is Decoded,
            RequestView::Validate(..) => reply is Validated,
            RequestView::Open(_) => reply is Opened,
            RequestView::RandomToken => reply is Token,
            RequestView::Log(_) => reply is Logged,
        }
    }
}

impl<'a> Request<'a> {
    /// Whether the reply is one to this request.
    pub fn answered_by(&self, reply: &Reply) -> (b: bool)
        ensures
            b == self@.answered_by(*reply),
    {
        match (self, reply) {
            (Request::OpenStore(..), Reply::StoreOpened(_)) => true,
            (Request::Listen, Reply::Listening) => true,
            (Request::Has(_), Reply::Has(_)) => true,
            (Request::List, Reply::Handles(_)) => true,
            (Request::Latest(_), Reply::Ca(_)) => true,
            (Request::Init(_), Reply::Init(_)) => true,
            (Request::Add(_), Reply::Added(_)) => true,
            (Request::Process(..), Reply::Events(_)) => true,
            (Request::Update(..), Reply::Ca(_)) => true,
            (Request::Child(..), Reply::Child(_)) => true,
            (Request::Entitlements(..), Reply::Entitlements(_)) => true,
            (Request::Issuance(..), Reply::Issuance(_)) => true,
            (Request::Parents(_), Reply::Parents(_)) => true,
            (Request::Contact(..), Reply::Contact(_)) => true,
            (Request::Revocations(..), Reply::Revocations(_)) => true,
            (Request::CertRequests(..), Reply::CertRequests(_)) => true,
            (Request::Verify(..), Reply::Verified(_)) => true,
            (Request::SignResponse(..), Reply::Signed(_)) => true,
            (Request::Sign(..), Reply::Signed(_)) => true,
            (Request::Post(..), Reply::Posted(res)) => match res {
                Ok(body) => is_encodable(body),
                Err(_) => true,
            },
            (Request::Decode(..), Reply::Decoded(_)) => true,
            (Request::Validate(..), Reply::Validated(_)) => true,
            (Request::Open(_), Reply::Opened(_)) => true,
            (Request::RandomToken, Reply::Token(_)) => true,
            (Request::Log(_), Reply::Logged) => true,
            _ => false,
        }
    }
}

} // verus!
