//! Operations on the store: to load a CA, to create one, and to let one
//! process a command.
use crate::dialogue::{Reply, Request, RequestView};
use crate::error::{seen, ErrorView, ServerError, ServerResult};
use crate::operation::{Flow, Operation};
use crate::script::Script;
use crate::types::{
    CaEvent, CaInit, CertAuth, CertAuthList, CertAuthSummary, Command, CommandView, Handle, NewCa,
    NewCaView, Token,
};
use vstd::prelude::*;

verus! {

/// How it is reported that a CA could not be loaded.
#[derive(Clone, Copy)]
pub enum Missing {
    /// The trust anchor has not been initialised.
    TrustAnchor,
    /// There is no such CA.
    Unknown,
    /// The error of the store.
    Store,
}

/// What comes of the store's answer when the CA `name` was to be loaded.
pub open spec fn loaded(name: Seq<char>, missing: Missing, res: Result<CertAuth, String>) -> Result<
    CertAuth,
    ErrorView,
> {
    match res {
        Ok(ca) => Ok(ca),
        Err(error) => Err(
            match missing {
                Missing::TrustAnchor => ErrorView::TrustAnchorNotInitialisedError,
                Missing::Unknown => ErrorView::UnknownCa(name),
                Missing::Store => ErrorView::AggregateStoreError(error@),
            },
        ),
    }
}

/// The error that `loaded` reports.
pub(crate) fn load_error(handle: Handle, missing: Missing, error: String) -> (e: ServerError)
    ensures
        loaded(handle@, missing, Err(error)) == Err::<CertAuth, _>(e@),
{
    match missing {
        Missing::TrustAnchor => ServerError::TrustAnchorNotInitialisedError,
        Missing::Unknown => ServerError::UnknownCa(handle.name),
        Missing::Store => ServerError::AggregateStoreError(error),
    }
}

/// Loads the latest state of the CA `name`.
pub open spec fn load_script(name: Seq<char>, missing: Missing) -> Script<
    Result<CertAuth, ErrorView>,
> {
    Script::Ask(
        RequestView::Latest(name),
        |reply: Reply| Script::Done(loaded(name, missing, reply->Ca_0)),
    )
}

/// Loading a CA.
pub struct Load {
    pub handle: Handle,
    pub missing: Missing,
}

impl Operation for Load {
    type Output = ServerResult<CertAuth>;

    type Meaning = Result<CertAuth, ErrorView>;

    open spec fn meaning(output: Self::Output) -> Self::Meaning {
        seen(output)
    }

    open spec fn script(&self) -> Script<Self::Meaning> {
        load_script(self.handle@, self.missing)
    }

    fn request(&self) -> (request: Request<'_>) {
        Request::Latest(&self.handle)
    }

    fn admits(&self, reply: &Reply) -> (b: bool) {
        self.request().answered_by(reply)
    }

    fn resume(self, reply: Reply) -> (flow: Flow<Self, Self::Output>) {
        match reply.into_ca() {
            Ok(ca) => Flow::Done(Ok(ca)),
            Err(error) => Flow::Done(Err(load_error(self.handle, self.missing, error))),
        }
    }
}

/// A CA after a command, and whether the command has changed it.
pub struct Settled {
    pub ca: CertAuth,
    pub changed: bool,
}

/// What comes of the store's answer when changes of a CA were to be stored.
pub open spec fn updated(res: Result<CertAuth, String>) -> Result<Settled, ErrorView> {
    match res {
        Ok(ca) => Ok(Settled { ca, changed: true }),
        Err(error) => Err(ErrorView::AggregateStoreError(error@)),
    }
}

/// Stores changes of the CA `name` on top of the state `ca`.
pub open spec fn update_script(name: Seq<char>, ca: CertAuth, events: Seq<CaEvent>) -> Script<
    Result<Settled, ErrorView>,
> {
    Script::Ask(
        RequestView::Update(name, ca, events),
        |reply: Reply| Script::Done(updated(reply->Ca_0)),
    )
}

/// Lets the CA `name` process a command in the state `ca`, and stores the
/// changes that come of it. If `lazy`, nothing is stored if there are none.
pub open spec fn apply_script(
    name: Seq<char>,
    ca: CertAuth,
    command: CommandView,
    lazy: bool,
) -> Script<Result<Settled, ErrorView>> {
    Script::Ask(
        RequestView::Process(ca, command),
        |reply: Reply|
            match reply->Events_0 {
                Ok(events) => if lazy && events@.len() == 0 {
                    Script::Done(Ok(Settled { ca, changed: false }))
                } else {
                    update_script(name, ca, events@)
                },
                Err(error) => Script::Done(Err(ErrorView::CertAuth(error@))),
            },
    )
}

/// Loads the CA `name` and lets it process a command.
pub open spec fn execute_script(
    name: Seq<char>,
    missing: Missing,
    command: CommandView,
    lazy: bool,
) -> Script<Result<Settled, ErrorView>> {
    Script::Ask(
        RequestView::Latest(name),
        |reply: Reply|
            match loaded(name, missing, reply->Ca_0) {
                Ok(ca) => apply_script(name, ca, command, lazy),
                Err(error) => Script::Done(Err(error)),
            },
    )
}

/// Letting a CA process a command.
pub enum Execute {
    Loading { handle: Handle, missing: Missing, command: Command, lazy: bool },
    Processing { handle: Handle, ca: CertAuth, command: Command, lazy: bool },
    Updating { handle: Handle, ca: CertAuth, events: Vec<CaEvent> },
}

impl Operation for Execute {
    type Output = ServerResult<Settled>;

    type Meaning = Result<Settled, ErrorView>;

    open spec fn meaning(output: Self::Output) -> Self::Meaning {
        seen(output)
    }

    open spec fn script(&self) -> Script<Self::Meaning> {
        match *self {
            Execute::Loading { handle, missing, command, lazy } => execute_script(
                handle@,
                missing,
                command@,
                lazy,
            ),
            Execute::Processing { handle, ca, command, lazy } => apply_script(
                handle@,
                ca,
                command@,
                lazy,
            ),
            Execute::Updating { handle, ca, events } => update_script(handle@, ca, events@),
        }
    }

    fn request(&self) -> (request: Request<'_>) {
        match self {
            Execute::Loading { handle, .. } => Request::Latest(handle),
            Execute::Processing { ca, command, .. } => Request::Process(ca, command),
            Execute::Updating { handle, ca, events } => Request::Update(handle, ca, events),
        }
    }

    fn admits(&self, reply: &Reply) -> (b: bool) {
        self.request().answered_by(reply)
    }

    fn resume(self, reply: Reply) -> (flow: Flow<Self, Self::Output>) {
        match self {
            Execute::Loading { handle, missing, command, lazy } => match reply.into_ca() {
                Ok(ca) => Flow::Pending(Execute::Processing { handle, ca, command, lazy }),
                Err(error) => Flow::Done(Err(load_error(handle, missing, error))),
            },
            Execute::Processing { handle, ca, command, lazy } => match reply.into_events() {
                Ok(events) => if lazy && events.len() == 0 {
                    Flow::Done(Ok(Settled { ca, changed: false }))
                } else {
                    Flow::Pending(Execute::Updating { handle, ca, events })
                },
                Err(error) => Flow::Done(Err(ServerError::CertAuth(error))),
            },
            Execute::Updating { .. } => match reply.into_ca() {
                Ok(ca) => Flow::Done(Ok(Settled { ca, changed: true })),
                Err(error) => Flow::Done(Err(ServerError::AggregateStoreError(error))),
            },
        }
    }
}

impl Execute {
    /// The state that the CA settles in with this reply, if it does.
    pub fn settles<'a>(&'a self, reply: &'a Reply) -> (ca: Option<&'a CertAuth>)
        requires
            self.script().admits(*reply),
        ensures
            match ca {
                Some(ca) => {
                    &&& self.script().after(*reply) is Done
                    &&& self.script().after(*reply)->Done_0 is Ok
                    &&& self.script().after(*reply)->Done_0->Ok_0.ca == *ca
                },
                None => !(self.script().after(*reply) matches Script::Done(Ok(_))),
            },
    {
        match (self, reply) {
            (Execute::Processing { ca, lazy, .. }, Reply::Events(Ok(events))) => if *lazy
                && events.len() == 0 {
                Some(ca)
            } else {
                None
            },
            (Execute::Updating { .. }, Reply::Ca(Ok(ca))) => Some(ca),
            _ => None,
        }
    }
}

/// Forgets the state that a CA has settled in.
pub open spec fn performed() -> spec_fn(Result<Settled, ErrorView>) -> Script<
    Result<(), ErrorView>,
> {
    |res: Result<Settled, ErrorView>|
        Script::Done(
            match res {
                Ok(_) => Ok(()),
                Err(error) => Err(error),
            },
        )
}

/// Loads the CA `name` and lets it process a command, for its effect alone.
pub open spec fn perform_script(
    name: Seq<char>,
    missing: Missing,
    command: CommandView,
    lazy: bool,
) -> Script<Result<(), ErrorView>> {
    execute_script(name, missing, command, lazy).bind(performed())
}

/// Letting a CA process a command, for its effect alone.
pub struct Perform {
    pub inner: Execute,
}

impl Operation for Perform {
    type Output = ServerResult<()>;

    type Meaning = Result<(), ErrorView>;

    open spec fn meaning(output: Self::Output) -> Self::Meaning {
        seen(output)
    }

    open spec fn script(&self) -> Script<Self::Meaning> {
        self.inner.script().bind(performed())
    }

    fn request(&self) -> (request: Request<'_>) {
        self.inner.request()
    }

    fn admits(&self, reply: &Reply) -> (b: bool) {
        let b = self.inner.admits(reply);
        proof {
            self.inner.script().lemma_bind(performed(), *reply);
        }
        b
    }

    fn resume(self, reply: Reply) -> (flow: Flow<Self, Self::Output>) {
        proof {
            self.inner.script().lemma_bind(performed(), reply);
        }
        match self.inner.resume(reply) {
            Flow::Pending(inner) => Flow::Pending(Perform { inner }),
            Flow::Done(Ok(_)) => Flow::Done(Ok(())),
            Flow::Done(Err(error)) => Flow::Done(Err(error)),
        }
    }
}

/// Stores the first state of a CA.
pub open spec fn add_script(init: CaInit) -> Script<Result<(), ErrorView>> {
    Script::Ask(
        RequestView::Add(init),
        |reply: Reply|
            Script::Done(
                match reply->Added_0 {
                    Ok(_) => Ok(()),
                    Err(error) => Err(ErrorView::AggregateStoreError(error@)),
                },
            ),
    )
}

/// Makes the first state of a CA and stores it.
pub open spec fn make_script(new: NewCaView) -> Script<Result<(), ErrorView>> {
    Script::Ask(
        RequestView::Init(new),
        |reply: Reply|
            match reply->Init_0 {
                Ok(init) => add_script(init),
                Err(error) => Script::Done(Err(ErrorView::CertAuth(error@))),
            },
    )
}

/// How it is reported that there is such a CA already.
pub open spec fn taken(new: NewCaView) -> ErrorView {
    match new {
        NewCaView::TrustAnchor { .. } => ErrorView::TrustAnchorInitialisedError,
        NewCaView::Embedded { name, .. } => ErrorView::DuplicateCa(name),
    }
}

/// Creates a CA, unless the store holds one of that name already.
pub open spec fn create_script(new: NewCaView) -> Script<Result<(), ErrorView>> {
    Script::Ask(
        RequestView::Has(new.name()),
        |reply: Reply|
            if reply->Has_0 {
                Script::Done(Err(taken(new)))
            } else {
                make_script(new)
            },
    )
}

/// Creating a CA.
pub enum Create {
    Checking(NewCa),
    Making(NewCa),
    Adding(CaInit),
}

impl Operation for Create {
    type Output = ServerResult<()>;

    type Meaning = Result<(), ErrorView>;

    open spec fn meaning(output: Self::Output) -> Self::Meaning {
        seen(output)
    }

    open spec fn script(&self) -> Script<Self::Meaning> {
        match *self {
            Create::Checking(new) => create_script(new@),
            Create::Making(new) => make_script(new@),
            Create::Adding(init) => add_script(init),
        }
    }

    fn request(&self) -> (request: Request<'_>) {
        match self {
            Create::Checking(NewCa::TrustAnchor { handle, .. }) => Request::Has(handle),
            Create::Checking(NewCa::Embedded { handle, .. }) => Request::Has(handle),
            Create::Making(new) => Request::Init(new),
            Create::Adding(init) => Request::Add(init),
        }
    }

    fn admits(&self, reply: &Reply) -> (b: bool) {
        self.request().answered_by(reply)
    }

    fn resume(self, reply: Reply) -> (flow: Flow<Self, Self::Output>) {
        match self {
            Create::Checking(new) => if reply.into_has() {
                match new {
                    NewCa::TrustAnchor { .. } => Flow::Done(
                        Err(ServerError::TrustAnchorInitialisedError),
                    ),
                    NewCa::Embedded { handle, .. } => Flow::Done(
                        Err(ServerError::DuplicateCa(handle.name)),
                    ),
                }
            } else {
                Flow::Pending(Create::Making(new))
            },
            Create::Making(_) => match reply.into_init() {
                Ok(init) => Flow::Pending(Create::Adding(init)),
                Err(error) => Flow::Done(Err(ServerError::CertAuth(error))),
            },
            Create::Adding(_) => match reply.into_added() {
                Ok(_) => Flow::Done(Ok(())),
                Err(error) => Flow::Done(Err(ServerError::AggregateStoreError(error))),
            },
        }
    }
}

/// Lists the CAs in the store, in the order in which the store gives them.
pub open spec fn cas_script() -> Script<Seq<Seq<char>>> {
    Script::Ask(
        RequestView::List,
        |reply: Reply| Script::Done(reply->Handles_0@.map_values(|handle: Handle| handle@)),
    )
}

/// Listing the CAs.
pub struct ListCas;

impl Operation for ListCas {
    type Output = CertAuthList;

    type Meaning = Seq<Seq<char>>;

    open spec fn meaning(output: Self::Output) -> Self::Meaning {
        output.cas@.map_values(|ca: CertAuthSummary| ca.name@)
    }

    open spec fn script(&self) -> Script<Self::Meaning> {
        cas_script()
    }

    fn request(&self) -> (request: Request<'_>) {
        Request::List
    }

    fn admits(&self, reply: &Reply) -> (b: bool) {
        self.request().answered_by(reply)
    }

    fn resume(self, reply: Reply) -> (flow: Flow<Self, Self::Output>) {
        let handles: Vec<Handle> = reply.into_handles();
        let mut cas: Vec<CertAuthSummary> = Vec::new();
        for i in 0..handles.len()
            invariant
                cas@.len() == i,
                forall|j: int| 0 <= j < i ==> #[trigger] cas@[j].name@ == handles@[j]@,
        {
            cas.push(CertAuthSummary { name: handles[i].clone() });
        }
        let list = CertAuthList { cas };
        assert(Self::meaning(list) =~= handles@.map_values(|handle: Handle| handle@));
        Flow::Done(list)
    }
}

/// Asks the signer for a random token.
pub open spec fn token_script() -> Script<Token> {
    Script::Ask(RequestView::RandomToken, |reply: Reply| Script::Done(reply->Token_0))
}

/// Making a random token.
pub struct MakeToken;

impl Operation for MakeToken {
    type Output = Token;

    type Meaning = Token;

    open spec fn meaning(output: Self::Output) -> Self::Meaning {
        output
    }

    open spec fn script(&self) -> Script<Self::Meaning> {
        token_script()
    }

    fn request(&self) -> (request: Request<'_>) {
        Request::RandomToken
    }

    fn admits(&self, reply: &Reply) -> (b: bool) {
        self.request().answered_by(reply)
    }

    fn resume(self, reply: Reply) -> (flow: Flow<Self, Self::Output>) {
        Flow::Done(reply.into_token())
    }
}

} // verus!
