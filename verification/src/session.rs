//! What holds over any number of calls to the server, one after the other.
use crate::dialogue::Reply;
use crate::discipline::{
    any_end, lemma_add_child, lemma_build, lemma_cas, lemma_get_updates_for_all_cas,
    lemma_get_updates_from_parent, lemma_issue, lemma_list, lemma_load, lemma_perform,
    lemma_republish_all, lemma_revoke, lemma_rfc6492, lemma_send_requests,
    lemma_send_revoke_requests, lemma_show_child, lemma_token, lemma_update_child, steady,
};
use crate::error::ErrorView;
use crate::lifecycle::{
    created, held_after, law_cas, law_create_is_refused, leads, lemma_created, lemma_leads_weaker,
    lists, reliable,
};
use crate::messages::{IssuanceRequest, RevocationRequest, SignedMessage};
use crate::provisioning::{issue_script, list_script, revoke_script, rfc6492_script};
use crate::revocations::send_revoke_requests_script;
use crate::script::{Script, Step};
use crate::server::build_script;
use crate::store::{
    cas_script, create_script, load_script, perform_script, taken, token_script, Missing,
};
use crate::trust_anchor::{show_child_script, ta_add_child_script, ta_update_child_script};
use crate::types::{
    AddChildRequest, AddParentRequest, CommandView, NewCaView, RepoInfo, Token, UpdateChildRequest,
    TA_NAME,
};
use crate::updates::{
    get_updates_for_all_cas_script, get_updates_from_parent_script, republish_all_script,
    republish_script, send_requests_script,
};
use crate::uri::HttpsUri;
use chrono::Duration;
use rpki::uri::Rsync;
use vstd::prelude::*;

verus! {

/// A call of a method of the server. Names, URIs and lists are given by their
/// views; the parent of `List` and `Issue` is the trust anchor.
pub enum Call {
    Build(Seq<char>),
    GetTrustAnchor,
    InitTa(RepoInfo, Rsync, Seq<HttpsUri>),
    RepublishAll,
    Republish(Seq<char>),
    TaAddChild(AddChildRequest, Seq<char>),
    TaShowChild(Seq<char>),
    TaUpdateChild(Seq<char>, UpdateChildRequest),
    RandomToken,
    GetCa(Seq<char>),
    Rfc6492(Seq<char>, SignedMessage),
    List(Seq<char>),
    Issue(Seq<char>, IssuanceRequest),
    Revoke(Seq<char>, Seq<char>, RevocationRequest),
    Cas,
    InitCa(Seq<char>, Token, RepoInfo),
    CaAddParent(Seq<char>, AddParentRequest),
    CaKeyrollInit(Seq<char>, Duration),
    CaKeyrollActivate(Seq<char>, Duration),
    GetUpdatesForAllCas,
    GetUpdatesFromParent(Seq<char>, Seq<char>),
    SendRequests(Seq<char>, Seq<char>),
    SendRevokeRequests(Seq<char>, Seq<char>, Seq<RevocationRequest>),
}

/// Whether the call went well.
pub open spec fn went_well<T>() -> spec_fn(Result<T, ErrorView>) -> Script<bool> {
    |res: Result<T, ErrorView>| Script::Done(res is Ok)
}

/// What cannot fail went well.
pub open spec fn always_well<T>() -> spec_fn(T) -> Script<bool> {
    |result: T| Script::Done(true)
}

impl Call {
    /// The CA that the call is to create, if it is to create one.
    pub open spec fn new_ca(self) -> Option<NewCaView> {
        match self {
            Call::InitTa(info, ta_aia, ta_uris) => Some(
                NewCaView::TrustAnchor { name: TA_NAME@, info, ta_aia, ta_uris },
            ),
            Call::InitCa(name, token, repo_info) => Some(
                NewCaView::Embedded { name, token, repo_info },
            ),
            _ => None,
        }
    }

    /// What the call does, up to whether it went well.
    pub open spec fn script(self) -> Script<bool> {
        match self {
            Call::Build(work_dir) => build_script(work_dir).bind(went_well()),
            Call::GetTrustAnchor => load_script(TA_NAME@, Missing::TrustAnchor).bind(went_well()),
            Call::InitTa(_, _, _) | Call::InitCa(_, _, _) => create_script(
                self.new_ca()->Some_0,
            ).bind(went_well()),
            Call::RepublishAll => republish_all_script().bind(went_well()),
            Call::Republish(name) => republish_script(name).bind(went_well()),
            Call::TaAddChild(req, base) => ta_add_child_script(req, base).bind(went_well()),
            Call::TaShowChild(child) => show_child_script(TA_NAME@, child).bind(went_well()),
            Call::TaUpdateChild(child, req) => ta_update_child_script(child, req).bind(
                went_well(),
            ),
            Call::RandomToken => token_script().bind(always_well()),
            Call::GetCa(name) => load_script(name, Missing::Unknown).bind(went_well()),
            Call::Rfc6492(name, msg) => rfc6492_script(name, msg).bind(went_well()),
            Call::List(child) => list_script(TA_NAME@, Missing::TrustAnchor, child).bind(
                went_well(),
            ),
            Call::Issue(child, req) => issue_script(TA_NAME@, child, req).bind(went_well()),
            Call::Revoke(name, child, req) => revoke_script(name, child, req).bind(went_well()),
            Call::Cas => cas_script().bind(always_well()),
            Call::CaAddParent(name, parent) => perform_script(
                name,
                Missing::Unknown,
                CommandView::AddParent {
                    ca: name,
                    parent: parent.handle@,
                    contact: parent.contact,
                },
                false,
            ).bind(went_well()),
            Call::CaKeyrollInit(name, max_age) => perform_script(
                name,
                Missing::Unknown,
                CommandView::KeyRollInit { ca: name, max_age },
                true,
            ).bind(went_well()),
            Call::CaKeyrollActivate(name, staging) => perform_script(
                name,
                Missing::Unknown,
                CommandView::KeyRollActivate { ca: name, staging },
                true,
            ).bind(went_well()),
            Call::GetUpdatesForAllCas => get_updates_for_all_cas_script().bind(went_well()),
            Call::GetUpdatesFromParent(name, parent) => get_updates_from_parent_script(
                name,
                parent,
            ).bind(went_well()),
            Call::SendRequests(name, parent) => send_requests_script(name, parent).bind(
                went_well(),
            ),
            Call::SendRevokeRequests(name, parent, requests) => send_revoke_requests_script(
                name,
                parent,
                requests,
            ).bind(went_well()),
        }
    }

    /// The names of the CAs that were created, after a call that went well or
    /// not.
    pub open spec fn made_after(self, made: Set<Seq<char>>, well: bool) -> Set<Seq<char>> {
        match self.new_ca() {
            Some(new) => if well {
                made.insert(new.name())
            } else {
                made
            },
            None => made,
        }
    }
}

/// With a reliable store that first holds the CAs of the names `held`, and
/// with the names `made` of those that were created so far: however the calls
/// go, one after the other, what the store holds in the end, and the names of
/// all that were created, are as `end` says.
pub open spec fn session(
    calls: Seq<Call>,
    held: Set<Seq<char>>,
    made: Set<Seq<char>>,
    end: spec_fn(Set<Seq<char>>, Set<Seq<char>>) -> bool,
) -> bool
    decreases calls.len(), 0nat,
{
    if calls.len() == 0 {
        end(held, made)
    } else {
        leads(
            calls[0].script(),
            held,
            next_calls(calls[0], calls.drop_first(), made, end),
        )
    }
}

/// Goes on with the calls that are left.
pub open spec fn next_calls(
    call: Call,
    rest: Seq<Call>,
    made: Set<Seq<char>>,
    end: spec_fn(Set<Seq<char>>, Set<Seq<char>>) -> bool,
) -> spec_fn(Set<Seq<char>>, bool) -> bool
    decreases rest.len(), 1nat,
{
    |after: Set<Seq<char>>, well: bool| session(rest, after, call.made_after(made, well), end)
}

/// The store holds what it held.
spec fn unchanged<R>(held: Set<Seq<char>>) -> spec_fn(Set<Seq<char>>, R) -> bool {
    |after: Set<Seq<char>>, r: R| after == held
}

/// A script that adds no CA leaves the store with the CAs that it holds.
proof fn lemma_steady_keeps<R>(script: Script<R>, past: Seq<Step>, held: Set<Seq<char>>)
    requires
        script.obeys(past, steady(), any_end()),
    ensures
        leads(script, held, unchanged(held)),
    decreases script,
{
    if let Script::Ask(request, next) = script {
        assert(steady()(past, request));
        assert forall|reply: Reply|
            request.answered_by(reply) && reliable(held, request, reply) implies leads(
            #[trigger] next(reply),
            held_after(held, request, reply),
            unchanged(held),
        ) by {
            lemma_steady_keeps(next(reply), past.push(Step { request, reply }), held);
        }
    }
}

proof fn lemma_steady_well<T>(script: Script<Result<T, ErrorView>>)
    requires
        script.obeys(Seq::empty(), steady(), any_end()),
    ensures
        script.bind(went_well()).obeys(Seq::empty(), steady(), any_end()),
{
    script.lemma_obeys_bind(went_well(), Seq::empty(), steady(), any_end(), any_end());
}

proof fn lemma_steady_always<T>(script: Script<T>)
    requires
        script.obeys(Seq::empty(), steady(), any_end()),
    ensures
        script.bind(always_well()).obeys(Seq::empty(), steady(), any_end()),
{
    script.lemma_obeys_bind(always_well(), Seq::empty(), steady(), any_end(), any_end());
}

/// A call that is not to create a CA adds none.
pub proof fn law_only_creation_adds(call: Call)
    requires
        call.new_ca() is None,
    ensures
        call.script().obeys(Seq::empty(), steady(), any_end()),
{
    let start = Seq::<Step>::empty();
    match call {
        Call::Build(work_dir) => {
            lemma_build(work_dir, start);
            lemma_steady_well(build_script(work_dir));
        },
        Call::GetTrustAnchor => {
            lemma_load(TA_NAME@, Missing::TrustAnchor, start);
            lemma_steady_well(load_script(TA_NAME@, Missing::TrustAnchor));
        },
        Call::RepublishAll => {
            lemma_republish_all(start);
            lemma_steady_well(republish_all_script());
        },
        Call::Republish(name) => {
            lemma_perform(name, Missing::Store, CommandView::Publish { ca: name }, true, start);
            lemma_steady_well(republish_script(name));
        },
        Call::TaAddChild(req, base) => {
            lemma_add_child(req, base, start);
            lemma_steady_well(ta_add_child_script(req, base));
        },
        Call::TaShowChild(child) => {
            lemma_show_child(TA_NAME@, child, start);
            lemma_steady_well(show_child_script(TA_NAME@, child));
        },
        Call::TaUpdateChild(child, req) => {
            lemma_update_child(child, req, start);
            lemma_steady_well(ta_update_child_script(child, req));
        },
        Call::RandomToken => {
            lemma_token(start);
            lemma_steady_always(token_script());
        },
        Call::GetCa(name) => {
            lemma_load(name, Missing::Unknown, start);
            lemma_steady_well(load_script(name, Missing::Unknown));
        },
        Call::Rfc6492(name, msg) => {
            lemma_rfc6492(name, msg, start);
            lemma_steady_well(rfc6492_script(name, msg));
        },
        Call::List(child) => {
            lemma_list(TA_NAME@, Missing::TrustAnchor, child, start);
            lemma_steady_well(list_script(TA_NAME@, Missing::TrustAnchor, child));
        },
        Call::Issue(child, req) => {
            lemma_issue(TA_NAME@, child, req, start);
            lemma_steady_well(issue_script(TA_NAME@, child, req));
        },
        Call::Revoke(name, child, req) => {
            lemma_revoke(name, child, req, start);
            lemma_steady_well(revoke_script(name, child, req));
        },
        Call::Cas => {
            lemma_cas(start);
            lemma_steady_always(cas_script());
        },
        Call::CaAddParent(name, parent) => {
            let command = CommandView::AddParent {
                ca: name,
                parent: parent.handle@,
                contact: parent.contact,
            };
            lemma_perform(name, Missing::Unknown, command, false, start);
            lemma_steady_well(perform_script(name, Missing::Unknown, command, false));
        },
        Call::CaKeyrollInit(name, max_age) => {
            let command = CommandView::KeyRollInit { ca: name, max_age };
            lemma_perform(name, Missing::Unknown, command, true, start);
            lemma_steady_well(perform_script(name, Missing::Unknown, command, true));
        },
        Call::CaKeyrollActivate(name, staging) => {
            let command = CommandView::KeyRollActivate { ca: name, staging };
            lemma_perform(name, Missing::Unknown, command, true, start);
            lemma_steady_well(perform_script(name, Missing::Unknown, command, true));
        },
        Call::GetUpdatesForAllCas => {
            lemma_get_updates_for_all_cas(start);
            lemma_steady_well(get_updates_for_all_cas_script());
        },
        Call::GetUpdatesFromParent(name, parent) => {
            lemma_get_updates_from_parent(name, parent, start);
            lemma_steady_well(get_updates_from_parent_script(name, parent));
        },
        Call::SendRequests(name, parent) => {
            lemma_send_requests(name, parent, start);
            lemma_steady_well(send_requests_script(name, parent));
        },
        Call::SendRevokeRequests(name, parent, requests) => {
            lemma_send_revoke_requests(name, parent, requests, start);
            lemma_steady_well(send_revoke_requests_script(name, parent, requests));
        },
        Call::InitTa(_, _, _) | Call::InitCa(_, _, _) => {},
    }
}

/// What the store holds is as it was, but for a CA that was created.
spec fn grown(call: Call, held: Set<Seq<char>>) -> spec_fn(Set<Seq<char>>, bool) -> bool {
    |after: Set<Seq<char>>, well: bool| after == call.made_after(held, well)
}

proof fn lemma_leads_bind<R, T>(
    script: Script<R>,
    then: spec_fn(R) -> Script<T>,
    held: Set<Seq<char>>,
    mid: spec_fn(Set<Seq<char>>, R) -> bool,
    end: spec_fn(Set<Seq<char>>, T) -> bool,
)
    requires
        leads(script, held, mid),
        forall|after: Set<Seq<char>>, r: R| #[trigger] mid(after, r) ==> leads(then(r), after, end),
    ensures
        leads(script.bind(then), held, end),
    decreases script,
{
    match script {
        Script::Done(result) => {
            assert(mid(held, result));
        },
        Script::Ask(request, next) => {
            let bound = script.bind(then)->Ask_1;
            assert forall|reply: Reply|
                request.answered_by(reply) && reliable(held, request, reply) implies leads(
                #[trigger] bound(reply),
                held_after(held, request, reply),
                end,
            ) by {
                lemma_leads_bind(
                    next(reply),
                    then,
                    held_after(held, request, reply),
                    mid,
                    end,
                );
            }
        },
        Script::Halt => {},
    }
}

/// With a reliable store, a call that is to create a CA adds that one if it
/// goes well, and nothing if not; any other call adds nothing. No call
/// removes a CA.
pub proof fn law_what_a_call_adds(call: Call, held: Set<Seq<char>>)
    ensures
        leads(
            call.script(),
            held,
            |after: Set<Seq<char>>, well: bool| after == call.made_after(held, well),
        ),
{
    let end = grown(call, held);
    match call.new_ca() {
        Some(new) => {
            let mid = created(new, held);
            if held.contains(new.name()) {
                let refused = |after: Set<Seq<char>>, res: Result<(), ErrorView>|
                    after == held && res == Err::<(), _>(taken(new));
                law_create_is_refused(new, held);
                lemma_leads_weaker(create_script(new), held, refused, mid);
            } else {
                lemma_created(new, held);
            }
            lemma_leads_bind(create_script(new), went_well(), held, mid, end);
        },
        None => {
            law_only_creation_adds(call);
            lemma_steady_keeps(call.script(), Seq::empty(), held);
            lemma_leads_weaker(call.script(), held, unchanged(held), end);
        },
    }
    assert(leads(call.script(), held, end));
}

proof fn lemma_session(
    calls: Seq<Call>,
    held: Set<Seq<char>>,
    end: spec_fn(Set<Seq<char>>, Set<Seq<char>>) -> bool,
)
    requires
        forall|after: Set<Seq<char>>| #[trigger] end(after, after),
    ensures
        session(calls, held, held, end),
    decreases calls.len(),
{
    if calls.len() > 0 {
        let call = calls[0];
        let rest = calls.drop_first();
        let then = next_calls(call, rest, held, end);
        law_what_a_call_adds(call, held);
        assert forall|after: Set<Seq<char>>, well: bool|
            #[trigger] grown(call, held)(after, well) implies then(after, well) by {
            lemma_session(rest, after, end);
        }
        lemma_leads_weaker(call.script(), held, grown(call, held), then);
    } else {
        assert(end(held, held));
    }
}

/// On a store that is empty at first, after any calls: the CAs that are listed
/// are exactly those that were created by calls that went well, the trust
/// anchor among them if it is one of these, each once; and to list them
/// changes nothing.
pub proof fn law_cas_are_those_created(calls: Seq<Call>)
    ensures
        session(
            calls,
            Set::empty(),
            Set::empty(),
            |held: Set<Seq<char>>, made: Set<Seq<char>>|
                leads(cas_script(), held, lists(held, made)),
        ),
{
    let end = |held: Set<Seq<char>>, made: Set<Seq<char>>|
        leads(cas_script(), held, lists(held, made));
    assert forall|after: Set<Seq<char>>| #[trigger] end(after, after) by {
        law_cas(after);
    }
    lemma_session(calls, Set::empty(), end);
}

} // verus!
