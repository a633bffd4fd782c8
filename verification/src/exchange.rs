//! One exchange of signed messages with a parent: a query goes out, and the
//! answer is taken only if the parent has signed it.
use crate::dialogue::{Reply, Request, RequestView};
use crate::error::{seen, ErrorView, Incident, IncidentView, ServerError, ServerResult};
use crate::messages::{Message, ParentResponse, Res, SignedMessage, CONTENT_TYPE};
use crate::operation::{Flow, Operation};
use crate::outside::{base64_text, encodable_len, encode_base64, octet_slice, octets};
use crate::script::Script;
use crate::types::KeyId;
use bytes::Bytes;
use vstd::prelude::*;

verus! {

/// The octets of an answer.
pub struct Answer {
    body: Bytes,
}

impl Answer {
    /// The answer is short enough to be rendered in Base64.
    #[verifier::type_invariant]
    spec fn loggable(self) -> bool {
        encodable_len(octets(self.body).len())
    }

    pub closed spec fn bytes(self) -> Bytes {
        self.body
    }

    fn new(body: Bytes) -> (answer: Answer)
        requires
            encodable_len(octets(body).len()),
        ensures
            answer.bytes() == body,
    {
        Answer { body }
    }

    fn as_bytes(&self) -> (body: &Bytes)
        ensures
            *body == self.bytes(),
    {
        &self.body
    }

    fn to_base64(&self) -> (text: String)
        ensures
            text@ == base64_text(octets(self.bytes())),
    {
        proof {
            use_type_invariant(self);
        }
        encode_base64(octet_slice(&self.body))
    }
}

/// Logs an incident and fails.
pub open spec fn report_script(incident: IncidentView, error: Seq<char>) -> Script<
    Result<Res, ErrorView>,
> {
    Script::Ask(
        RequestView::Log(incident),
        |reply: Reply| Script::Done(Err(ErrorView::Custom(error))),
    )
}

/// Takes the parent's answer out of a signed message.
pub open spec fn open_script(msg: SignedMessage) -> Script<Result<Res, ErrorView>> {
    Script::Ask(
        RequestView::Open(msg),
        |reply: Reply|
            Script::Done(
                match reply->Opened_0 {
                    Ok(res) => Ok(res),
                    Err(error) => Err(ErrorView::Custom(error@)),
                },
            ),
    )
}

/// Checks that the parent has signed the message, and opens it.
pub open spec fn validate_script(
    contact: ParentResponse,
    body: Bytes,
    msg: SignedMessage,
) -> Script<Result<Res, ErrorView>> {
    Script::Ask(
        RequestView::Validate(msg, contact.id_cert),
        |reply: Reply|
            match reply->Validated_0 {
                Ok(_) => open_script(msg),
                Err(error) => report_script(
                    IncidentView::InvalidResponse(base64_text(octets(body))),
                    error@,
                ),
            },
    )
}

/// Reads the body that was received as a signed message, and goes on with
/// it. The encoding need not be strict DER.
pub open spec fn decode_script(contact: ParentResponse, body: Bytes) -> Script<
    Result<Res, ErrorView>,
> {
    Script::Ask(
        RequestView::Decode(body, false),
        |reply: Reply|
            match reply->Decoded_0 {
                Ok(msg) => validate_script(contact, body, msg),
                Err(error) => report_script(
                    IncidentView::UnparsableResponse(base64_text(octets(body))),
                    error@,
                ),
            },
    )
}

/// Posts a signed query to the parent, and goes on with what comes back.
pub open spec fn post_script(contact: ParentResponse, signed: Bytes) -> Script<
    Result<Res, ErrorView>,
> {
    Script::Ask(
        RequestView::Post(contact.service_uri@.text(), CONTENT_TYPE@, signed),
        |reply: Reply|
            match reply->Posted_0 {
                Ok(body) => decode_script(contact, body),
                Err(error) => Script::Done(Err(ErrorView::HttpClientError(error@))),
            },
    )
}

/// Signs a query with a key, posts it to the parent, and takes the answer if
/// the parent has signed it.
pub open spec fn exchange_script(key: KeyId, contact: ParentResponse, query: Message) -> Script<
    Result<Res, ErrorView>,
> {
    Script::Ask(
        RequestView::Sign(key, query),
        |reply: Reply|
            match reply->Signed_0 {
                Ok(signed) => post_script(contact, signed),
                Err(error) => Script::Done(Err(ErrorView::Custom(error@))),
            },
    )
}

/// An exchange with a parent.
pub enum Exchange {
    Signing { key: KeyId, contact: ParentResponse, query: Message },
    Posting { contact: ParentResponse, signed: Bytes },
    Decoding { contact: ParentResponse, answer: Answer },
    Validating { contact: ParentResponse, answer: Answer, msg: SignedMessage },
    Opening { msg: SignedMessage },
    Reporting { incident: Incident, error: String },
}

impl Operation for Exchange {
    type Output = ServerResult<Res>;

    type Meaning = Result<Res, ErrorView>;

    open spec fn meaning(output: Self::Output) -> Self::Meaning {
        seen(output)
    }

    open spec fn script(&self) -> Script<Self::Meaning> {
        match *self {
            Exchange::Signing { key, contact, query } => exchange_script(key, contact, query),
            Exchange::Posting { contact, signed } => post_script(contact, signed),
            Exchange::Decoding { contact, answer } => decode_script(contact, answer.bytes()),
            Exchange::Validating { contact, answer, msg } => validate_script(
                contact,
                answer.bytes(),
                msg,
            ),
            Exchange::Opening { msg } => open_script(msg),
            Exchange::Reporting { incident, error } => report_script(incident@, error@),
        }
    }

    fn request(&self) -> (request: Request<'_>) {
        match self {
            Exchange::Signing { key, query, .. } => Request::Sign(key, query),
            Exchange::Posting { contact, signed } => Request::Post(
                contact.service_uri.as_str(),
                CONTENT_TYPE,
                signed,
            ),
            Exchange::Decoding { answer, .. } => Request::Decode(answer.as_bytes(), false),
            Exchange::Validating { contact, msg, .. } => Request::Validate(msg, &contact.id_cert),
            Exchange::Opening { msg } => Request::Open(msg),
            Exchange::Reporting { incident, .. } => Request::Log(incident),
        }
    }

    fn admits(&self, reply: &Reply) -> (b: bool) {
        self.request().answered_by(reply)
    }

    fn resume(self, reply: Reply) -> (flow: Flow<Self, Self::Output>) {
        match self {
            Exchange::Signing { contact, .. } => match reply.into_signed() {
                Ok(signed) => Flow::Pending(Exchange::Posting { contact, signed }),
                Err(error) => Flow::Done(Err(ServerError::Custom(error))),
            },
            Exchange::Posting { contact, .. } => match reply.into_posted() {
                Ok(body) => Flow::Pending(
                    Exchange::Decoding { contact, answer: Answer::new(body) },
                ),
                Err(error) => Flow::Done(Err(ServerError::HttpClientError(error))),
            },
            Exchange::Decoding { contact, answer } => match reply.into_decoded() {
                Ok(msg) => Flow::Pending(Exchange::Validating { contact, answer, msg }),
                Err(error) => {
                    let incident = Incident::UnparsableResponse(answer.to_base64());
                    Flow::Pending(Exchange::Reporting { incident, error })
                },
            },
            Exchange::Validating { answer, msg, .. } => match reply.into_validated() {
                Ok(_) => Flow::Pending(Exchange::Opening { msg }),
                Err(error) => {
                    let incident = Incident::InvalidResponse(answer.to_base64());
                    Flow::Pending(Exchange::Reporting { incident, error })
                },
            },
            Exchange::Opening { .. } => match reply.into_opened() {
                Ok(res) => Flow::Done(Ok(res)),
                Err(error) => Flow::Done(Err(ServerError::Custom(error))),
            },
            Exchange::Reporting { error, .. } => Flow::Done(Err(ServerError::Custom(error))),
        }
    }
}

} // verus!
