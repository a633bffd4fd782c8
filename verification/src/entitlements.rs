//! A CA asks a parent what it is entitled to.
use crate::dialogue::{Reply, Request, RequestView};
use crate::error::{seen, ErrorView, ServerError, ServerResult};
use crate::exchange::{exchange_script, Exchange};
use crate::messages::{Content, Entitlements, Message, ParentResponse, Qry, Res};
use crate::operation::{Flow, Operation};
use crate::provisioning::{list_script, ListEntitlements};
use crate::script::Script;
use crate::store::{load_error, loaded, Missing};
use crate::types::{CertAuth, Handle, ParentCaContact};
use vstd::prelude::*;
use vstd::string::*;

verus! {

/// A query to a parent: it goes from the child to the parent, under the names
/// that the parent has given.
pub open spec fn query_message(contact: ParentResponse, query: Qry) -> Message {
    Message {
        sender: contact.child_handle.name,
        recipient: contact.parent_handle.name,
        content: Content::Qry(query),
    }
}

/// The message that `query_message` is.
pub(crate) fn make_query(contact: &ParentResponse, query: Qry) -> (msg: Message)
    ensures
        msg == query_message(*contact, query),
{
    Message {
        sender: contact.child_handle.name.clone(),
        recipient: contact.parent_handle.name.clone(),
        content: Content::Qry(query),
    }
}

/// What the answer to a list query says.
pub open spec fn listed(res: Result<Res, ErrorView>) -> Result<Entitlements, ErrorView> {
    match res {
        Ok(Res::List(entitlements)) => Ok(entitlements),
        Ok(Res::NotPerformed(response)) => Err(
            ErrorView::Custom("Not performed: "@ + response.text@),
        ),
        Ok(_) => Err(ErrorView::Custom("Got unexpected response to list query"@)),
        Err(error) => Err(error),
    }
}

/// Takes the entitlements out of the answer to a list query.
pub fn take_list(res: ServerResult<Res>) -> (entitlements: ServerResult<Entitlements>)
    ensures
        seen(entitlements) == listed(seen(res)),
{
    match res {
        Ok(Res::List(entitlements)) => Ok(entitlements),
        Ok(Res::NotPerformed(response)) => {
            let text = "Not performed: ".to_string().concat(response.text.as_str());
            Err(ServerError::Custom(text))
        },
        Ok(_) => Err(ServerError::Custom("Got unexpected response to list query".to_string())),
        Err(error) => Err(error),
    }
}

/// Takes the entitlements out of the answer to a list query.
pub open spec fn then_listed() -> spec_fn(Result<Res, ErrorView>) -> Script<
    Result<Entitlements, ErrorView>,
> {
    |res: Result<Res, ErrorView>| Script::Done(listed(res))
}

/// Loads the CA `name` and sends a remote parent a list query, signed with
/// the identity key of the CA.
pub open spec fn list_remote_script(name: Seq<char>, contact: ParentResponse) -> Script<
    Result<Entitlements, ErrorView>,
> {
    Script::Ask(
        RequestView::Latest(name),
        |reply: Reply|
            match loaded(name, Missing::Store, reply->Ca_0) {
                Ok(ca) => exchange_script(
                    ca.id_key,
                    contact,
                    query_message(contact, Qry::List),
                ).bind(then_listed()),
                Err(error) => Script::Done(Err(error)),
            },
    )
}

/// Looks up how the CA `name` reaches a parent, and asks that parent.
pub open spec fn list_from_script(name: Seq<char>, ca: CertAuth, parent: Seq<char>) -> Script<
    Result<Entitlements, ErrorView>,
> {
    Script::Ask(
        RequestView::Contact(ca, parent),
        |reply: Reply|
            match reply->Contact_0 {
                Ok(ParentCaContact::Embedded) => list_script(parent, Missing::Store, name),
                Ok(ParentCaContact::Rfc6492(contact)) => list_remote_script(name, contact),
                Err(error) => Script::Done(Err(ErrorView::CertAuth(error@))),
            },
    )
}

/// Asks a parent of the CA `name` what the CA is entitled to.
pub open spec fn entitlements_script(name: Seq<char>, parent: Seq<char>) -> Script<
    Result<Entitlements, ErrorView>,
> {
    Script::Ask(
        RequestView::Latest(name),
        |reply: Reply|
            match loaded(name, Missing::Unknown, reply->Ca_0) {
                Ok(ca) => list_from_script(name, ca, parent),
                Err(error) => Script::Done(Err(error)),
            },
    )
}

/// Asking a parent what a CA is entitled to.
#[allow(inconsistent_fields)]
pub enum GetEntitlements {
    Loading { handle: Handle, parent: Handle },
    Contacting { handle: Handle, ca: CertAuth, parent: Handle },
    Embedded(ListEntitlements),
    Reloading { handle: Handle, contact: ParentResponse },
    Remote(Exchange),
}

impl Operation for GetEntitlements {
    type Output = ServerResult<Entitlements>;

    type Meaning = Result<Entitlements, ErrorView>;

    open spec fn meaning(output: Self::Output) -> Self::Meaning {
        seen(output)
    }

    open spec fn script(&self) -> Script<Self::Meaning> {
        match *self {
            GetEntitlements::Loading { handle, parent } => entitlements_script(handle@, parent@),
            GetEntitlements::Contacting { handle, ca, parent } => list_from_script(
                handle@,
                ca,
                parent@,
            ),
            GetEntitlements::Embedded(inner) => inner.script(),
            GetEntitlements::Reloading { handle, contact } => list_remote_script(handle@, contact),
            GetEntitlements::Remote(inner) => inner.script().bind(then_listed()),
        }
    }

    fn request(&self) -> (request: Request<'_>) {
        match self {
            GetEntitlements::Loading { handle, .. } => Request::Latest(handle),
            GetEntitlements::Contacting { ca, parent, .. } => Request::Contact(ca, parent),
            GetEntitlements::Embedded(inner) => inner.request(),
            GetEntitlements::Reloading { handle, .. } => Request::Latest(handle),
            GetEntitlements::Remote(inner) => inner.request(),
        }
    }

    fn admits(&self, reply: &Reply) -> (b: bool) {
        match self {
            GetEntitlements::Embedded(inner) => inner.admits(reply),
            GetEntitlements::Remote(inner) => {
                let b = inner.admits(reply);
                proof {
                    inner.script().lemma_bind(then_listed(), *reply);
                }
                b
            },
            _ => self.request().answered_by(reply),
        }
    }

    fn resume(self, reply: Reply) -> (flow: Flow<Self, Self::Output>) {
        match self {
            GetEntitlements::Loading { handle, parent } => match reply.into_ca() {
                Ok(ca) => Flow::Pending(GetEntitlements::Contacting { handle, ca, parent }),
                Err(error) => Flow::Done(Err(load_error(handle, Missing::Unknown, error))),
            },
            GetEntitlements::Contacting { handle, parent, .. } => match reply.into_contact() {
                Ok(ParentCaContact::Embedded) => {
                    let inner = ListEntitlements::Loading {
                        handle: parent,
                        missing: Missing::Store,
                        child: handle,
                    };
                    Flow::Pending(GetEntitlements::Embedded(inner))
                },
                Ok(ParentCaContact::Rfc6492(contact)) => Flow::Pending(
                    GetEntitlements::Reloading { handle, contact },
                ),
                Err(error) => Flow::Done(Err(ServerError::CertAuth(error))),
            },
            GetEntitlements::Embedded(inner) => match inner.resume(reply) {
                Flow::Pending(inner) => Flow::Pending(GetEntitlements::Embedded(inner)),
                Flow::Done(res) => Flow::Done(res),
            },
            GetEntitlements::Reloading { handle, contact } => match reply.into_ca() {
                Ok(ca) => {
                    let query = make_query(&contact, Qry::List);
                    let inner = Exchange::Signing { key: ca.id_key, contact, query };
                    Flow::Pending(GetEntitlements::Remote(inner))
                },
                Err(error) => Flow::Done(Err(load_error(handle, Missing::Store, error))),
            },
            GetEntitlements::Remote(inner) => {
                proof {
                    inner.script().lemma_bind(then_listed(), reply);
                }
                match inner.resume(reply) {
                    Flow::Pending(inner) => Flow::Pending(GetEntitlements::Remote(inner)),
                    Flow::Done(res) => Flow::Done(take_list(res)),
                }
            },
        }
    }
}

} // verus!
