//! What can go wrong.
use crate::messages::NotPerformedResponse;
use crate::types::Handle;
use vstd::prelude::*;

verus! {

/// Why an operation of the server failed. The texts of the last four come
/// from the store, from a CA, from the HTTP client and from message handling.
#[derive(Debug, PartialEq, Eq)]
pub enum ServerError {
    TrustAnchorNotInitialisedError,
    TrustAnchorInitialisedError,
    UnknownCa(String),
    DuplicateCa(String),
    AggregateStoreError(String),
    CertAuth(String),
    HttpClientError(String),
    Custom(String),
}

pub type ServerResult<T> = Result<T, ServerError>;

/// A `ServerError`, with its text as a sequence of characters.
pub enum ErrorView {
    TrustAnchorNotInitialisedError,
    TrustAnchorInitialisedError,
    UnknownCa(Seq<char>),
    DuplicateCa(Seq<char>),
    AggregateStoreError(Seq<char>),
    CertAuth(Seq<char>),
    HttpClientError(Seq<char>),
    Custom(Seq<char>),
}

impl View for ServerError {
    type V = ErrorView;

    open spec fn view(&self) -> ErrorView {
        match *self {
            ServerError::TrustAnchorNotInitialisedError =>
                ErrorView::TrustAnchorNotInitialisedError,
            ServerError::TrustAnchorInitialisedError => ErrorView::TrustAnchorInitialisedError,
            ServerError::UnknownCa(text) => ErrorView::UnknownCa(text@),
            ServerError::DuplicateCa(text) => ErrorView::DuplicateCa(text@),
            ServerError::AggregateStoreError(text) => ErrorView::AggregateStoreError(text@),
            ServerError::CertAuth(text) => ErrorView::CertAuth(text@),
            ServerError::HttpClientError(text) => ErrorView::HttpClientError(text@),
            ServerError::Custom(text) => ErrorView::Custom(text@),
        }
    }
}

/// The result of an operation, with the error seen as an `ErrorView`.
pub open spec fn seen<T>(res: ServerResult<T>) -> Result<T, ErrorView> {
    match res {
        Ok(value) => Ok(value),
        Err(error) => Err(error@),
    }
}

/// Something that went wrong and is passed over: it is logged, and the
/// operation goes on.
#[derive(Debug, PartialEq)]
pub enum Incident {
    /// A CA could not be republished.
    Publishing(Handle, ServerError),
    /// The certificates of a CA could not be refreshed.
    Refreshing(Handle, ServerError),
    /// A revocation request got no valid answer.
    SendingRevoke(ServerError),
    /// A certificate request got no valid answer.
    SendingCsr(ServerError),
    /// The parent refused a request.
    NotPerformed(NotPerformedResponse),
    /// The parent answered a revocation request with a list.
    ListForRevoke,
    /// The parent answered a revocation request with a certificate.
    IssueForRevoke,
    /// The parent answered a certificate request with a list.
    ListForIssue,
    /// The parent answered a certificate request with a revocation.
    RevokeForIssue,
    /// The parent's answer, here in Base64, is no signed message.
    UnparsableResponse(String),
    /// The parent's answer, here in Base64, is not signed by the parent.
    InvalidResponse(String),
}

/// An `Incident`, with its texts as sequences of characters.
pub enum IncidentView {
    Publishing(Seq<char>, ErrorView),
    Refreshing(Seq<char>, ErrorView),
    SendingRevoke(ErrorView),
    SendingCsr(ErrorView),
    NotPerformed(NotPerformedResponse),
    ListForRevoke,
    IssueForRevoke,
    ListForIssue,
    RevokeForIssue,
    UnparsableResponse(Seq<char>),
    InvalidResponse(Seq<char>),
}

impl View for Incident {
    type V = IncidentView;

    open spec fn view(&self) -> IncidentView {
        match *self {
            Incident::Publishing(handle, error) => IncidentView::Publishing(handle@, error@),
            Incident::Refreshing(handle, error) => IncidentView::Refreshing(handle@, error@),
            Incident::SendingRevoke(error) => IncidentView::SendingRevoke(error@),
            Incident::SendingCsr(error) => IncidentView::SendingCsr(error@),
            Incident::NotPerformed(response) => IncidentView::NotPerformed(response),
            Incident::ListForRevoke => IncidentView::ListForRevoke,
            Incident::IssueForRevoke => IncidentView::IssueForRevoke,
            Incident::ListForIssue => IncidentView::ListForIssue,
            Incident::RevokeForIssue => IncidentView::RevokeForIssue,
            Incident::UnparsableResponse(text) => IncidentView::UnparsableResponse(text@),
            Incident::InvalidResponse(text) => IncidentView::InvalidResponse(text@),
        }
    }
}

} // verus!
