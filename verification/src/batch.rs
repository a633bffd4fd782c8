//! A CA processes one command after the other.
use crate::dialogue::{Reply, Request};
use crate::error::{seen, ErrorView, ServerResult};
use crate::operation::{Flow, Operation};
use crate::script::Script;
use crate::store::{apply_script, Execute, Settled};
use crate::types::{CertAuth, Command, CommandView, Handle};
use vstd::prelude::*;

verus! {

/// The views of some commands.
pub open spec fn command_views(commands: Seq<Command>) -> Seq<CommandView> {
    commands.map_values(|command: Command| command@)
}

/// Lets the CA `name`, first in the state `ca`, process commands one after
/// the other, each in the state that the last one has led to, and stores the
/// changes each time. The first failure ends it.
pub open spec fn apply_all_script(
    name: Seq<char>,
    ca: CertAuth,
    commands: Seq<CommandView>,
) -> Script<Result<(), ErrorView>>
    decreases commands.len(), 0nat,
{
    if commands.len() == 0 {
        Script::Done(Ok(()))
    } else {
        apply_script(name, ca, commands[0], false).bind(apply_rest(name, commands.drop_first()))
    }
}

/// Goes on with the commands that are left, unless the last one failed.
pub open spec fn apply_rest(name: Seq<char>, rest: Seq<CommandView>) -> spec_fn(
    Result<Settled, ErrorView>,
) -> Script<Result<(), ErrorView>>
    decreases rest.len(), 1nat,
{
    |res: Result<Settled, ErrorView>|
        match res {
            Ok(settled) => apply_all_script(name, settled.ca, rest),
            Err(error) => Script::Done(Err(error)),
        }
}

/// A CA that processes commands one after the other.
pub struct ApplyAll {
    pub handle: Handle,
    pub inner: Execute,
    pub rest: Vec<Command>,
}

impl ApplyAll {
    /// Turns to the first of the commands, if there is one.
    pub fn start(handle: Handle, ca: CertAuth, commands: Vec<Command>) -> (flow: Flow<
        ApplyAll,
        ServerResult<()>,
    >)
        ensures
            ({
                let script = apply_all_script(handle@, ca, command_views(commands@));
                match flow {
                    Flow::Pending(operation) => operation.script() == script,
                    Flow::Done(res) => script == Script::Done(seen(res)),
                }
            }),
    {
        let mut rest = commands;
        if rest.len() == 0 {
            return Flow::Done(Ok(()));
        }
        let command = rest.remove(0);
        proof {
            assert(command_views(rest@) =~= command_views(commands@).drop_first());
        }
        let inner = Execute::Processing { handle: handle.clone(), ca, command, lazy: false };
        Flow::Pending(ApplyAll { handle, inner, rest })
    }
}

impl Operation for ApplyAll {
    type Output = ServerResult<()>;

    type Meaning = Result<(), ErrorView>;

    open spec fn meaning(output: Self::Output) -> Self::Meaning {
        seen(output)
    }

    open spec fn script(&self) -> Script<Self::Meaning> {
        self.inner.script().bind(apply_rest(self.handle@, command_views(self.rest@)))
    }

    fn request(&self) -> (request: Request<'_>) {
        self.inner.request()
    }

    fn admits(&self, reply: &Reply) -> (b: bool) {
        let b = self.inner.admits(reply);
        proof {
            self.inner.script().lemma_bind(
                apply_rest(self.handle@, command_views(self.rest@)),
                *reply,
            );
        }
        b
    }

    fn resume(self, reply: Reply) -> (flow: Flow<Self, Self::Output>) {
        proof {
            self.inner.script().lemma_bind(
                apply_rest(self.handle@, command_views(self.rest@)),
                reply,
            );
        }
        match self.inner.resume(reply) {
            Flow::Pending(inner) => Flow::Pending(
                ApplyAll { handle: self.handle, inner, rest: self.rest },
            ),
            Flow::Done(Ok(settled)) => Self::start(self.handle, settled.ca, self.rest),
            Flow::Done(Err(error)) => Flow::Done(Err(error)),
        }
    }
}

} // verus!
