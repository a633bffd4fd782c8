//! The discipline of the store: what the server relies on whenever it has a
//! CA process a command, stores something, or takes an answer.
use crate::batch::{apply_all_script, apply_rest};
use crate::certificates::{
    certify_all_script, certify_embedded_script, certify_from_script, certify_keys_script,
    certify_remote_log, certify_remote_rest, certify_remote_script, certify_rest,
    certify_wanted_script, issue_incident, receive_certs, receive_commands,
};
use crate::dialogue::{Reply, RequestView};
use crate::entitlements::{
    entitlements_script, list_from_script, list_remote_script, query_message, then_listed,
};
use crate::error::{ErrorView, IncidentView};
use crate::exchange::exchange_script;
use crate::messages::{
    revoked, Content, Entitlements, IssuanceRequest, IssuanceResponse, IssuedCert, Message,
    ParentResponse, PublicKey, Qry, Res, RevocationRequest, RevocationResponse, SignedMessage,
};
use crate::provisioning::{
    answer_script, certify_script, fetch_issued, granted, issue_script, issued_script, list_script,
    response_message, response_only, revoke_script, rfc6492_script, verify_script, wrap_issue,
    wrap_list, wrap_revoke, wrap_script, Certified,
};
use crate::revocations::{
    all_revoked, finish_commands, finish_keys, revoke_commands, revoke_embedded_script,
    revoke_from_script, revoke_incident, revoke_keys_script, revoke_remote_log, revoke_remote_rest,
    revoke_remote_script, revoke_wanted_script, send_revoke_requests_script, then_revoked,
};
use crate::script::{Script, Step};
use crate::server::build_script;
use crate::store::{
    apply_script, cas_script, create_script, execute_script, load_script, perform_script,
    performed, token_script, update_script, Missing, Settled,
};
use crate::trust_anchor::{
    child_contact, child_id_cert, show_child_script, shrink_child, ta_add_child_script,
    ta_update_child_script,
};
use crate::types::{
    AddChildRequest, CaEvent, CaInit, CertAuth, CommandView, KeyId, NewCaView, ParentCaContact,
    UpdateChildRequest, TA_NAME,
};
use crate::updates::{
    get_updates_for_all_cas_script, get_updates_from_parent_script, names, refresh_ca_script,
    refresh_cas_script, refresh_log, refresh_parents_script, refresh_rest, republish_all_script,
    republish_each_script, republish_log, republish_rest, republish_script, send_requests_script,
    then_certify, then_send, then_update, update_entitlements_script,
};
use vstd::prelude::*;

verus! {

/// The step has given a state of the CA `name`: it was loaded, or it is what
/// an update has led to.
pub open spec fn gives(step: Step, name: Seq<char>, ca: CertAuth) -> bool {
    &&& step.reply == Reply::Ca(Ok(ca))
    &&& match step.request {
        RequestView::Latest(n) => n == name,
        RequestView::Update(n, _, _) => n == name,
        _ => false,
    }
}

/// The store has given this state of the CA `name` before.
pub open spec fn known(past: Seq<Step>, name: Seq<char>, ca: CertAuth) -> bool {
    exists|i: int| 0 <= i < past.len() && gives(#[trigger] past[i], name, ca)
}

/// The changes are those that the state `ca` of the CA `name` has just made
/// of a command for that CA.
pub open spec fn just_made(
    past: Seq<Step>,
    name: Seq<char>,
    ca: CertAuth,
    events: Seq<CaEvent>,
) -> bool {
    &&& past.len() > 0
    &&& match (past.last().request, past.last().reply) {
        (RequestView::Process(c, command), Reply::Events(Ok(made))) => {
            &&& c == ca
            &&& command.target() == name
            &&& made@ == events
        },
        _ => false,
    }
}

/// The state was just made for a new CA whose name was free.
pub open spec fn just_initialised(past: Seq<Step>, init: CaInit) -> bool {
    &&& past.len() > 1
    &&& past.last().reply == Reply::Init(Ok(init))
    &&& past[past.len() - 2].reply == Reply::Has(false)
    &&& match past.last().request {
        RequestView::Init(new) => past[past.len() - 2].request == RequestView::Has(new.name()),
        _ => false,
    }
}

/// The message is the answer that was just received, and it was found to be
/// validly signed.
pub open spec fn just_validated(past: Seq<Step>, msg: SignedMessage) -> bool {
    &&& past.len() > 2
    &&& past.last().reply matches Reply::Validated(Ok(_))
    &&& match past.last().request {
        RequestView::Validate(m, _) => m == msg,
        _ => false,
    }
    &&& past[past.len() - 2].reply == Reply::Decoded(Ok(msg))
    &&& match past[past.len() - 2].request {
        RequestView::Decode(body, _) => {
            &&& past[past.len() - 3].request is Post
            &&& past[past.len() - 3].reply == Reply::Posted(Ok(body))
        },
        _ => false,
    }
}

/// The discipline:
/// - a command is only handed to a state that the store has given of the very
///   CA that the command is for;
/// - only changes that a CA has just made of a command are stored, on top of
///   the state that has made them;
/// - a CA is only added after it was found that its name is free;
/// - an answer is only taken out of a message that was received in reply and
///   found to be validly signed.
pub open spec fn disciplined(past: Seq<Step>, request: RequestView) -> bool {
    match request {
        RequestView::Process(ca, command) => known(past, command.target(), ca),
        RequestView::Update(name, ca, events) => just_made(past, name, ca, events),
        RequestView::Add(init) => just_initialised(past, init),
        RequestView::Open(msg) => just_validated(past, msg),
        _ => true,
    }
}

pub open spec fn discipline() -> spec_fn(Seq<Step>, RequestView) -> bool {
    |past: Seq<Step>, request: RequestView| disciplined(past, request)
}

/// The discipline, and no CA is added.
pub open spec fn steady() -> spec_fn(Seq<Step>, RequestView) -> bool {
    |past: Seq<Step>, request: RequestView| disciplined(past, request) && !(request is Add)
}

/// Nothing is said of the result.
pub open spec fn any_end<R>() -> spec_fn(Seq<Step>, R) -> bool {
    |past: Seq<Step>, result: R| true
}

/// If it went well, the CA `name` is in a state that the store has given.
spec fn settled_end(name: Seq<char>) -> spec_fn(Seq<Step>, Result<Settled, ErrorView>) -> bool {
    |past: Seq<Step>, res: Result<Settled, ErrorView>|
        match res {
            Ok(settled) => known(past, name, settled.ca),
            Err(_) => true,
        }
}

/// If it went well, the CA `name` is in a state that the store has given.
spec fn certified_end(name: Seq<char>) -> spec_fn(Seq<Step>, Result<Certified, ErrorView>) -> bool {
    |past: Seq<Step>, res: Result<Certified, ErrorView>|
        match res {
            Ok(certified) => known(past, name, certified.ca),
            Err(_) => true,
        }
}

proof fn lemma_known_later(past: Seq<Step>, later: Seq<Step>, name: Seq<char>, ca: CertAuth)
    requires
        past.is_prefix_of(later),
        known(past, name, ca),
    ensures
        known(later, name, ca),
{
    let i = choose|i: int| 0 <= i < past.len() && gives(#[trigger] past[i], name, ca);
    assert(later[i] == later.subrange(0, past.len() as int)[i]);
}

proof fn lemma_known_next(past: Seq<Step>, step: Step, name: Seq<char>, ca: CertAuth)
    ensures
        known(past, name, ca) ==> known(past.push(step), name, ca),
        gives(step, name, ca) ==> known(past.push(step), name, ca),
{
    if known(past, name, ca) {
        assert(past =~= past.push(step).subrange(0, past.len() as int));
        lemma_known_later(past, past.push(step), name, ca);
    }
    assert(past.push(step)[past.len() as int] == step);
}

proof fn lemma_update(name: Seq<char>, ca: CertAuth, events: Seq<CaEvent>, past: Seq<Step>)
    requires
        just_made(past, name, ca, events),
    ensures
        update_script(name, ca, events).obeys(past, steady(), settled_end(name)),
{
    let script = update_script(name, ca, events);
    let request = script->Ask_0;
    let then = script->Ask_1;
    assert forall|reply: Reply| request.answered_by(reply) implies (#[trigger] then(reply)).obeys(
        past.push(Step { request, reply }),
        steady(),
        settled_end(name),
    ) by {
        if let Reply::Ca(Ok(ca)) = reply {
            lemma_known_next(past, Step { request, reply }, name, ca);
        }
    }
}

proof fn lemma_apply(
    name: Seq<char>,
    ca: CertAuth,
    command: CommandView,
    lazy: bool,
    past: Seq<Step>,
)
    requires
        known(past, name, ca),
        command.target() == name,
    ensures
        apply_script(name, ca, command, lazy).obeys(past, steady(), settled_end(name)),
{
    let script = apply_script(name, ca, command, lazy);
    let request = script->Ask_0;
    let then = script->Ask_1;
    assert forall|reply: Reply| request.answered_by(reply) implies (#[trigger] then(reply)).obeys(
        past.push(Step { request, reply }),
        steady(),
        settled_end(name),
    ) by {
        let next = past.push(Step { request, reply });
        lemma_known_next(past, Step { request, reply }, name, ca);
        if let Reply::Events(Ok(events)) = reply {
            if !(lazy && events@.len() == 0) {
                assert(next.last() == Step { request, reply });
                lemma_update(name, ca, events@, next);
            }
        }
    }
}

proof fn lemma_execute(
    name: Seq<char>,
    missing: Missing,
    command: CommandView,
    lazy: bool,
    past: Seq<Step>,
)
    requires
        command.target() == name,
    ensures
        execute_script(name, missing, command, lazy).obeys(past, steady(), settled_end(name)),
{
    let script = execute_script(name, missing, command, lazy);
    let request = script->Ask_0;
    let then = script->Ask_1;
    assert forall|reply: Reply| request.answered_by(reply) implies (#[trigger] then(reply)).obeys(
        past.push(Step { request, reply }),
        steady(),
        settled_end(name),
    ) by {
        if let Reply::Ca(Ok(ca)) = reply {
            lemma_known_next(past, Step { request, reply }, name, ca);
            lemma_apply(name, ca, command, lazy, past.push(Step { request, reply }));
        }
    }
}

pub(crate) proof fn lemma_perform(
    name: Seq<char>,
    missing: Missing,
    command: CommandView,
    lazy: bool,
    past: Seq<Step>,
)
    requires
        command.target() == name,
    ensures
        perform_script(name, missing, command, lazy).obeys(past, steady(), any_end()),
{
    lemma_execute(name, missing, command, lazy, past);
    execute_script(name, missing, command, lazy).lemma_obeys_bind(
        performed(),
        past,
        steady(),
        settled_end(name),
        any_end(),
    );
}

pub(crate) proof fn lemma_load(name: Seq<char>, missing: Missing, past: Seq<Step>)
    ensures
        load_script(name, missing).obeys(past, steady(), any_end()),
{
    reveal_with_fuel(Script::<_>::obeys, 2);
}

pub(crate) proof fn lemma_build(work_dir: Seq<char>, past: Seq<Step>)
    ensures
        build_script(work_dir).obeys(past, steady(), any_end()),
{
    reveal_with_fuel(Script::<_>::obeys, 3);
}

pub(crate) proof fn lemma_cas(past: Seq<Step>)
    ensures
        cas_script().obeys(past, steady(), any_end()),
{
    reveal_with_fuel(Script::<_>::obeys, 2);
}

pub(crate) proof fn lemma_token(past: Seq<Step>)
    ensures
        token_script().obeys(past, steady(), any_end()),
{
    reveal_with_fuel(Script::<_>::obeys, 2);
}

proof fn lemma_create(new: NewCaView, past: Seq<Step>)
    ensures
        create_script(new).obeys(past, discipline(), any_end()),
{
    reveal_with_fuel(Script::<_>::obeys, 4);
}

pub(crate) proof fn lemma_add_child(req: AddChildRequest, base: Seq<char>, past: Seq<Step>)
    ensures
        ta_add_child_script(req, base).obeys(past, steady(), any_end()),
{
    let then = child_contact(req.handle@, req.auth, base);
    let command = CommandView::ChildAdd {
        ca: TA_NAME@,
        child: req.handle@,
        id_cert: child_id_cert(req.auth),
        resources: req.resources,
    };
    lemma_execute(TA_NAME@, Missing::TrustAnchor, command, false, past);
    assert forall|p: Seq<Step>, r: Result<Settled, ErrorView>|
        past.is_prefix_of(p) && #[trigger] settled_end(TA_NAME@)(p, r) implies then(r).obeys(
        p,
        steady(),
        any_end(),
    ) by {
    }
    execute_script(TA_NAME@, Missing::TrustAnchor, command, false).lemma_obeys_bind(
        then,
        past,
        steady(),
        settled_end(TA_NAME@),
        any_end(),
    );
}

pub(crate) proof fn lemma_show_child(name: Seq<char>, child: Seq<char>, past: Seq<Step>)
    ensures
        show_child_script(name, child).obeys(past, steady(), any_end()),
{
    reveal_with_fuel(Script::<_>::obeys, 3);
}

pub(crate) proof fn lemma_update_child(child: Seq<char>, req: UpdateChildRequest, past: Seq<Step>)
    ensures
        ta_update_child_script(child, req).obeys(past, steady(), any_end()),
{
    let then = shrink_child(child, req.force);
    let command = CommandView::ChildUpdate { ca: TA_NAME@, child, req };
    lemma_execute(TA_NAME@, Missing::TrustAnchor, command, true, past);
    assert forall|p: Seq<Step>, r: Result<Settled, ErrorView>|
        past.is_prefix_of(p) && #[trigger] settled_end(TA_NAME@)(p, r) implies then(r).obeys(
        p,
        steady(),
        any_end(),
    ) by {
        if let Ok(settled) = r {
            let shrink = CommandView::ChildShrink { ca: TA_NAME@, child, grace_nanos: 0 };
            lemma_apply(TA_NAME@, settled.ca, shrink, true, p);
            apply_script(TA_NAME@, settled.ca, shrink, true).lemma_obeys_bind(
                performed(),
                p,
                steady(),
                settled_end(TA_NAME@),
                any_end(),
            );
        }
    }
    execute_script(TA_NAME@, Missing::TrustAnchor, command, true).lemma_obeys_bind(
        then,
        past,
        steady(),
        settled_end(TA_NAME@),
        any_end(),
    );
}

pub(crate) proof fn lemma_list(name: Seq<char>, missing: Missing, child: Seq<char>, past: Seq<Step>)
    ensures
        list_script(name, missing, child).obeys(past, steady(), any_end()),
{
    reveal_with_fuel(Script::<_>::obeys, 3);
}

proof fn lemma_issued(
    name: Seq<char>,
    ca: CertAuth,
    child: Seq<char>,
    class_name: Seq<char>,
    key: PublicKey,
    past: Seq<Step>,
)
    requires
        known(past, name, ca),
    ensures
        issued_script(ca, child, class_name, key).obeys(past, steady(), certified_end(name)),
{
    let script = issued_script(ca, child, class_name, key);
    let request = script->Ask_0;
    let then = script->Ask_1;
    assert forall|reply: Reply| request.answered_by(reply) implies (#[trigger] then(reply)).obeys(
        past.push(Step { request, reply }),
        steady(),
        certified_end(name),
    ) by {
        let now = past.push(Step { request, reply });
        lemma_known_next(past, Step { request, reply }, name, ca);
    }
}

proof fn lemma_certify(
    name: Seq<char>,
    ca: CertAuth,
    child: Seq<char>,
    req: IssuanceRequest,
    past: Seq<Step>,
)
    requires
        known(past, name, ca),
    ensures
        certify_script(name, ca, child, req).obeys(past, steady(), certified_end(name)),
{
    let then = fetch_issued(child, req.class_name@, req.csr.public_key);
    let command = CommandView::ChildCertify { ca: name, child, req };
    lemma_apply(name, ca, command, false, past);
    assert forall|p: Seq<Step>, r: Result<Settled, ErrorView>|
        past.is_prefix_of(p) && #[trigger] settled_end(name)(p, r) implies then(r).obeys(
        p,
        steady(),
        certified_end(name),
    ) by {
        if let Ok(settled) = r {
            lemma_issued(name, settled.ca, child, req.class_name@, req.csr.public_key, p);
        }
    }
    apply_script(name, ca, command, false).lemma_obeys_bind(
        then,
        past,
        steady(),
        settled_end(name),
        certified_end(name),
    );
}

pub(crate) proof fn lemma_issue(
    name: Seq<char>,
    child: Seq<char>,
    req: IssuanceRequest,
    past: Seq<Step>,
)
    ensures
        issue_script(name, child, req).obeys(past, steady(), any_end()),
{
    let script = issue_script(name, child, req);
    let request = script->Ask_0;
    let then = script->Ask_1;
    assert forall|reply: Reply| request.answered_by(reply) implies (#[trigger] then(reply)).obeys(
        past.push(Step { request, reply }),
        steady(),
        any_end(),
    ) by {
        let now = past.push(Step { request, reply });
        if let Reply::Ca(Ok(ca)) = reply {
            lemma_known_next(past, Step { request, reply }, name, ca);
            lemma_certify(name, ca, child, req, now);
            certify_script(name, ca, child, req).lemma_obeys_bind(
                response_only(),
                now,
                steady(),
                certified_end(name),
                any_end(),
            );
        }
    }
}

pub(crate) proof fn lemma_revoke(
    name: Seq<char>,
    child: Seq<char>,
    req: RevocationRequest,
    past: Seq<Step>,
)
    ensures
        revoke_script(name, child, req).obeys(past, steady(), any_end()),
{
    let then = granted(revoked(req));
    let command = CommandView::ChildRevokeKey { ca: name, child, req };
    lemma_execute(name, Missing::Unknown, command, false, past);
    assert forall|p: Seq<Step>, r: Result<Settled, ErrorView>|
        past.is_prefix_of(p) && #[trigger] settled_end(name)(p, r) implies then(r).obeys(
        p,
        steady(),
        any_end(),
    ) by {
    }
    execute_script(name, Missing::Unknown, command, false).lemma_obeys_bind(
        then,
        past,
        steady(),
        settled_end(name),
        any_end(),
    );
}

proof fn lemma_wrap(name: Seq<char>, msg: Message, past: Seq<Step>)
    ensures
        wrap_script(name, msg).obeys(past, steady(), any_end()),
{
    reveal_with_fuel(Script::<_>::obeys, 3);
}

proof fn lemma_answer(name: Seq<char>, query: Message, past: Seq<Step>)
    ensures
        answer_script(name, query).obeys(past, steady(), any_end()),
{
    let child = query.sender@;
    match query.content {
        Content::Qry(Qry::Revoke(req)) => {
            let then = wrap_revoke(name, query.sender, query.recipient);
            lemma_revoke(name, child, req, past);
            assert forall|p: Seq<Step>, r: Result<RevocationResponse, ErrorView>|
                past.is_prefix_of(p) && #[trigger] any_end()(p, r) implies then(r).obeys(
                p,
                steady(),
                any_end(),
            ) by {
                if let Ok(res) = r {
                    let res = Res::Revoke(res);
                    lemma_wrap(name, response_message(query.sender, query.recipient, res), p);
                }
            }
            revoke_script(name, child, req).lemma_obeys_bind(
                then,
                past,
                steady(),
                any_end(),
                any_end(),
            );
        },
        Content::Qry(Qry::List) => {
            let then = wrap_list(name, query.sender, query.recipient);
            lemma_list(TA_NAME@, Missing::TrustAnchor, child, past);
            assert forall|p: Seq<Step>, r: Result<Entitlements, ErrorView>|
                past.is_prefix_of(p) && #[trigger] any_end()(p, r) implies then(r).obeys(
                p,
                steady(),
                any_end(),
            ) by {
                if let Ok(res) = r {
                    let res = Res::List(res);
                    lemma_wrap(name, response_message(query.sender, query.recipient, res), p);
                }
            }
            list_script(TA_NAME@, Missing::TrustAnchor, child).lemma_obeys_bind(
                then,
                past,
                steady(),
                any_end(),
                any_end(),
            );
        },
        Content::Qry(Qry::Issue(req)) => {
            let then = wrap_issue(name, query.sender, query.recipient);
            lemma_issue(TA_NAME@, child, req, past);
            assert forall|p: Seq<Step>, r: Result<IssuanceResponse, ErrorView>|
                past.is_prefix_of(p) && #[trigger] any_end()(p, r) implies then(r).obeys(
                p,
                steady(),
                any_end(),
            ) by {
                if let Ok(res) = r {
                    let res = Res::Issue(res);
                    lemma_wrap(name, response_message(query.sender, query.recipient, res), p);
                }
            }
            issue_script(TA_NAME@, child, req).lemma_obeys_bind(
                then,
                past,
                steady(),
                any_end(),
                any_end(),
            );
        },
        Content::Res(_) => {},
    }
}

proof fn lemma_verify(name: Seq<char>, ca: CertAuth, msg: SignedMessage, past: Seq<Step>)
    ensures
        verify_script(name, ca, msg).obeys(past, steady(), any_end()),
{
    let script = verify_script(name, ca, msg);
    let request = script->Ask_0;
    let then = script->Ask_1;
    assert forall|reply: Reply| request.answered_by(reply) implies (#[trigger] then(reply)).obeys(
        past.push(Step { request, reply }),
        steady(),
        any_end(),
    ) by {
        let now = past.push(Step { request, reply });
        if let Reply::Verified(Ok(query)) = reply {
            lemma_answer(name, query, now);
        }
    }
}

pub(crate) proof fn lemma_rfc6492(name: Seq<char>, msg: SignedMessage, past: Seq<Step>)
    ensures
        rfc6492_script(name, msg).obeys(past, steady(), any_end()),
{
    let script = rfc6492_script(name, msg);
    let request = script->Ask_0;
    let then = script->Ask_1;
    assert forall|reply: Reply| request.answered_by(reply) implies (#[trigger] then(reply)).obeys(
        past.push(Step { request, reply }),
        steady(),
        any_end(),
    ) by {
        let now = past.push(Step { request, reply });
        if let Reply::Ca(Ok(ca)) = reply {
            lemma_verify(name, ca, msg, now);
        }
    }
}

proof fn lemma_exchange(key: KeyId, contact: ParentResponse, query: Message, past: Seq<Step>)
    ensures
        exchange_script(key, contact, query).obeys(past, steady(), any_end()),
{
    reveal_with_fuel(Script::<_>::obeys, 6);
}

proof fn lemma_list_remote(name: Seq<char>, contact: ParentResponse, past: Seq<Step>)
    ensures
        list_remote_script(name, contact).obeys(past, steady(), any_end()),
{
    let script = list_remote_script(name, contact);
    let request = script->Ask_0;
    let then = script->Ask_1;
    assert forall|reply: Reply| request.answered_by(reply) implies (#[trigger] then(reply)).obeys(
        past.push(Step { request, reply }),
        steady(),
        any_end(),
    ) by {
        let now = past.push(Step { request, reply });
        if let Reply::Ca(Ok(ca)) = reply {
            let query = query_message(contact, Qry::List);
            lemma_exchange(ca.id_key, contact, query, now);
            exchange_script(ca.id_key, contact, query).lemma_obeys_bind(
                then_listed(),
                now,
                steady(),
                any_end(),
                any_end(),
            );
        }
    }
}

proof fn lemma_list_from(name: Seq<char>, ca: CertAuth, parent: Seq<char>, past: Seq<Step>)
    ensures
        list_from_script(name, ca, parent).obeys(past, steady(), any_end()),
{
    let script = list_from_script(name, ca, parent);
    let request = script->Ask_0;
    let then = script->Ask_1;
    assert forall|reply: Reply| request.answered_by(reply) implies (#[trigger] then(reply)).obeys(
        past.push(Step { request, reply }),
        steady(),
        any_end(),
    ) by {
        let now = past.push(Step { request, reply });
        match reply->Contact_0 {
            Ok(ParentCaContact::Embedded) => lemma_list(parent, Missing::Store, name, now),
            Ok(ParentCaContact::Rfc6492(contact)) => lemma_list_remote(name, contact, now),
            Err(_) => {},
        }
    }
}

proof fn lemma_entitlements(name: Seq<char>, parent: Seq<char>, past: Seq<Step>)
    ensures
        entitlements_script(name, parent).obeys(past, steady(), any_end()),
{
    let script = entitlements_script(name, parent);
    let request = script->Ask_0;
    let then = script->Ask_1;
    assert forall|reply: Reply| request.answered_by(reply) implies (#[trigger] then(reply)).obeys(
        past.push(Step { request, reply }),
        steady(),
        any_end(),
    ) by {
        let now = past.push(Step { request, reply });
        if let Reply::Ca(Ok(ca)) = reply {
            lemma_list_from(name, ca, parent, now);
        }
    }
}

/// All commands are for the CA `name`.
spec fn all_for(name: Seq<char>, commands: Seq<CommandView>) -> bool {
    forall|i: int| 0 <= i < commands.len() ==> (#[trigger] commands[i]).target() == name
}

proof fn lemma_apply_all(
    name: Seq<char>,
    ca: CertAuth,
    commands: Seq<CommandView>,
    past: Seq<Step>,
)
    requires
        known(past, name, ca),
        all_for(name, commands),
    ensures
        apply_all_script(name, ca, commands).obeys(past, steady(), any_end()),
    decreases commands.len(),
{
    if commands.len() > 0 {
        let rest = commands.drop_first();
        let then = apply_rest(name, rest);
        assert(commands[0].target() == name);
        lemma_apply(name, ca, commands[0], false, past);
        assert(all_for(name, rest)) by {
            assert forall|i: int| 0 <= i < rest.len() implies (#[trigger] rest[i]).target()
                == name by {
                assert(rest[i] == commands[i + 1]);
            }
        }
        assert forall|p: Seq<Step>, r: Result<Settled, ErrorView>|
            past.is_prefix_of(p) && #[trigger] settled_end(name)(p, r) implies then(r).obeys(
            p,
            steady(),
            any_end(),
        ) by {
            if let Ok(settled) = r {
                lemma_apply_all(name, settled.ca, rest, p);
            }
        }
        apply_script(name, ca, commands[0], false).lemma_obeys_bind(
            then,
            past,
            steady(),
            settled_end(name),
            any_end(),
        );
    }
}

proof fn lemma_revoke_remote(
    key: KeyId,
    contact: ParentResponse,
    requests: Seq<RevocationRequest>,
    done: Seq<RevocationResponse>,
    past: Seq<Step>,
)
    ensures
        revoke_remote_script(key, contact, requests, done).obeys(past, steady(), any_end()),
    decreases requests.len(), 0nat,
{
    if requests.len() > 0 {
        let rest = requests.drop_first();
        let then = revoke_remote_rest(key, contact, rest, done);
        let query = query_message(contact, Qry::Revoke(requests[0]));
        lemma_exchange(key, contact, query, past);
        assert forall|p: Seq<Step>, r: Result<Res, ErrorView>|
            past.is_prefix_of(p) && #[trigger] any_end()(p, r) implies then(r).obeys(
            p,
            steady(),
            any_end(),
        ) by {
            match r {
                Ok(Res::Revoke(response)) => lemma_revoke_remote(
                    key,
                    contact,
                    rest,
                    done.push(response),
                    p,
                ),
                _ => lemma_revoke_log(revoke_incident(r), key, contact, rest, done, p),
            }
        }
        exchange_script(key, contact, query).lemma_obeys_bind(
            then,
            past,
            steady(),
            any_end(),
            any_end(),
        );
    }
}

proof fn lemma_revoke_log(
    incident: IncidentView,
    key: KeyId,
    contact: ParentResponse,
    rest: Seq<RevocationRequest>,
    done: Seq<RevocationResponse>,
    past: Seq<Step>,
)
    ensures
        revoke_remote_log(incident, key, contact, rest, done).obeys(past, steady(), any_end()),
    decreases rest.len(), 1nat,
{
    let script = revoke_remote_log(incident, key, contact, rest, done);
    let request = script->Ask_0;
    let then = script->Ask_1;
    assert forall|reply: Reply| request.answered_by(reply) implies (#[trigger] then(reply)).obeys(
        past.push(Step { request, reply }),
        steady(),
        any_end(),
    ) by {
        let now = past.push(Step { request, reply });
        lemma_revoke_remote(key, contact, rest, done, now);
    }
}

proof fn lemma_revoke_embedded(
    parent: Seq<char>,
    child: Seq<char>,
    requests: Seq<RevocationRequest>,
    past: Seq<Step>,
)
    ensures
        revoke_embedded_script(parent, child, requests).obeys(past, steady(), any_end()),
{
    let script = revoke_embedded_script(parent, child, requests);
    let request = script->Ask_0;
    let then = script->Ask_1;
    assert forall|reply: Reply| request.answered_by(reply) implies (#[trigger] then(reply)).obeys(
        past.push(Step { request, reply }),
        steady(),
        any_end(),
    ) by {
        let now = past.push(Step { request, reply });
        if let Reply::Ca(Ok(ca)) = reply {
            lemma_known_next(past, Step { request, reply }, parent, ca);
            let commands = revoke_commands(parent, child, requests);
            lemma_apply_all(parent, ca, commands, now);
            apply_all_script(parent, ca, commands).lemma_obeys_bind(
                then_revoked(all_revoked(requests)),
                now,
                steady(),
                any_end(),
                any_end(),
            );
        }
    }
}

proof fn lemma_revoke_from(
    name: Seq<char>,
    ca: CertAuth,
    parent: Seq<char>,
    requests: Seq<RevocationRequest>,
    past: Seq<Step>,
)
    ensures
        revoke_from_script(name, ca, parent, requests).obeys(past, steady(), any_end()),
{
    let script = revoke_from_script(name, ca, parent, requests);
    let request = script->Ask_0;
    let then = script->Ask_1;
    assert forall|reply: Reply| request.answered_by(reply) implies (#[trigger] then(reply)).obeys(
        past.push(Step { request, reply }),
        steady(),
        any_end(),
    ) by {
        let now = past.push(Step { request, reply });
        match reply->Contact_0 {
            Ok(ParentCaContact::Embedded) => lemma_revoke_embedded(parent, name, requests, now),
            Ok(ParentCaContact::Rfc6492(contact)) => lemma_revoke_remote(
                ca.id_key,
                contact,
                requests,
                Seq::empty(),
                now,
            ),
            Err(_) => {},
        }
    }
}

pub(crate) proof fn lemma_send_revoke_requests(
    name: Seq<char>,
    parent: Seq<char>,
    requests: Seq<RevocationRequest>,
    past: Seq<Step>,
)
    ensures
        send_revoke_requests_script(name, parent, requests).obeys(past, steady(), any_end()),
{
    let script = send_revoke_requests_script(name, parent, requests);
    let request = script->Ask_0;
    let then = script->Ask_1;
    assert forall|reply: Reply| request.answered_by(reply) implies (#[trigger] then(reply)).obeys(
        past.push(Step { request, reply }),
        steady(),
        any_end(),
    ) by {
        let now = past.push(Step { request, reply });
        if let Reply::Ca(Ok(ca)) = reply {
            lemma_revoke_from(name, ca, parent, requests, now);
        }
    }
}

proof fn lemma_revoke_wanted(name: Seq<char>, ca: CertAuth, parent: Seq<char>, past: Seq<Step>)
    requires
        known(past, name, ca),
    ensures
        revoke_wanted_script(name, ca, parent).obeys(past, steady(), any_end()),
{
    let script = revoke_wanted_script(name, ca, parent);
    let request = script->Ask_0;
    let then = script->Ask_1;
    assert forall|reply: Reply| request.answered_by(reply) implies (#[trigger] then(reply)).obeys(
        past.push(Step { request, reply }),
        steady(),
        any_end(),
    ) by {
        let now = past.push(Step { request, reply });
        let requests = reply->Revocations_0@;
        let finish = finish_keys(name, ca, parent);
        lemma_known_next(past, Step { request, reply }, name, ca);
        lemma_send_revoke_requests(name, parent, requests, now);
        assert forall|p: Seq<Step>, r: Result<Seq<RevocationResponse>, ErrorView>|
            now.is_prefix_of(p) && #[trigger] any_end()(p, r) implies finish(r).obeys(
            p,
            steady(),
            any_end(),
        ) by {
            if let Ok(responses) = r {
                lemma_known_later(now, p, name, ca);
                lemma_apply_all(name, ca, finish_commands(name, parent, responses), p);
            }
        }
        send_revoke_requests_script(name, parent, requests).lemma_obeys_bind(
            finish,
            now,
            steady(),
            any_end(),
            any_end(),
        );
    }
}

proof fn lemma_revoke_keys(name: Seq<char>, parent: Seq<char>, past: Seq<Step>)
    ensures
        revoke_keys_script(name, parent).obeys(past, steady(), any_end()),
{
    let script = revoke_keys_script(name, parent);
    let request = script->Ask_0;
    let then = script->Ask_1;
    assert forall|reply: Reply| request.answered_by(reply) implies (#[trigger] then(reply)).obeys(
        past.push(Step { request, reply }),
        steady(),
        any_end(),
    ) by {
        let now = past.push(Step { request, reply });
        if let Reply::Ca(Ok(ca)) = reply {
            lemma_known_next(past, Step { request, reply }, name, ca);
            lemma_revoke_wanted(name, ca, parent, now);
        }
    }
}

proof fn lemma_certify_all(
    parent: Seq<char>,
    ca: CertAuth,
    child: Seq<char>,
    requests: Seq<IssuanceRequest>,
    done: Seq<(String, IssuedCert)>,
    past: Seq<Step>,
)
    requires
        known(past, parent, ca),
    ensures
        certify_all_script(parent, ca, child, requests, done).obeys(past, steady(), any_end()),
    decreases requests.len(),
{
    if requests.len() > 0 {
        let rest = requests.drop_first();
        let class_name = requests[0].class_name;
        let then = certify_rest(parent, child, class_name, rest, done);
        lemma_certify(parent, ca, child, requests[0], past);
        assert forall|p: Seq<Step>, r: Result<Certified, ErrorView>|
            past.is_prefix_of(p) && #[trigger] certified_end(parent)(p, r) implies then(r).obeys(
            p,
            steady(),
            any_end(),
        ) by {
            if let Ok(certified) = r {
                let done = done.push((class_name, certified.response.issued));
                lemma_certify_all(parent, certified.ca, child, rest, done, p);
            }
        }
        certify_script(parent, ca, child, requests[0]).lemma_obeys_bind(
            then,
            past,
            steady(),
            certified_end(parent),
            any_end(),
        );
    }
}

proof fn lemma_certify_remote(
    key: KeyId,
    contact: ParentResponse,
    requests: Seq<IssuanceRequest>,
    done: Seq<(String, IssuedCert)>,
    past: Seq<Step>,
)
    ensures
        certify_remote_script(key, contact, requests, done).obeys(past, steady(), any_end()),
    decreases requests.len(), 0nat,
{
    if requests.len() > 0 {
        let rest = requests.drop_first();
        let then = certify_remote_rest(key, contact, rest, done);
        let query = query_message(contact, Qry::Issue(requests[0]));
        lemma_exchange(key, contact, query, past);
        assert forall|p: Seq<Step>, r: Result<Res, ErrorView>|
            past.is_prefix_of(p) && #[trigger] any_end()(p, r) implies then(r).obeys(
            p,
            steady(),
            any_end(),
        ) by {
            match r {
                Ok(Res::Issue(response)) => lemma_certify_remote(
                    key,
                    contact,
                    rest,
                    done.push((response.class_name, response.issued)),
                    p,
                ),
                _ => lemma_certify_log(issue_incident(r), key, contact, rest, done, p),
            }
        }
        exchange_script(key, contact, query).lemma_obeys_bind(
            then,
            past,
            steady(),
            any_end(),
            any_end(),
        );
    }
}

proof fn lemma_certify_log(
    incident: IncidentView,
    key: KeyId,
    contact: ParentResponse,
    rest: Seq<IssuanceRequest>,
    done: Seq<(String, IssuedCert)>,
    past: Seq<Step>,
)
    ensures
        certify_remote_log(incident, key, contact, rest, done).obeys(past, steady(), any_end()),
    decreases rest.len(), 1nat,
{
    let script = certify_remote_log(incident, key, contact, rest, done);
    let request = script->Ask_0;
    let then = script->Ask_1;
    assert forall|reply: Reply| request.answered_by(reply) implies (#[trigger] then(reply)).obeys(
        past.push(Step { request, reply }),
        steady(),
        any_end(),
    ) by {
        let now = past.push(Step { request, reply });
        lemma_certify_remote(key, contact, rest, done, now);
    }
}

proof fn lemma_receive(
    name: Seq<char>,
    ca: CertAuth,
    parent: Seq<char>,
    res: Result<Seq<(String, IssuedCert)>, ErrorView>,
    past: Seq<Step>,
)
    requires
        known(past, name, ca),
    ensures
        receive_certs(name, ca, parent)(res).obeys(past, steady(), any_end()),
{
    if let Ok(issued) = res {
        lemma_apply_all(name, ca, receive_commands(name, parent, issued), past);
    }
}

proof fn lemma_certify_embedded(
    name: Seq<char>,
    ca: CertAuth,
    parent: Seq<char>,
    requests: Seq<IssuanceRequest>,
    past: Seq<Step>,
)
    requires
        known(past, name, ca),
    ensures
        certify_embedded_script(name, ca, parent, requests).obeys(past, steady(), any_end()),
{
    let script = certify_embedded_script(name, ca, parent, requests);
    let request = script->Ask_0;
    let then = script->Ask_1;
    assert forall|reply: Reply| request.answered_by(reply) implies (#[trigger] then(reply)).obeys(
        past.push(Step { request, reply }),
        steady(),
        any_end(),
    ) by {
        let now = past.push(Step { request, reply });
        lemma_known_next(past, Step { request, reply }, name, ca);
        let receive = receive_certs(name, ca, parent);
        assert forall|p: Seq<Step>, r: Result<Seq<(String, IssuedCert)>, ErrorView>|
            now.is_prefix_of(p) && #[trigger] any_end()(p, r) implies receive(r).obeys(
            p,
            steady(),
            any_end(),
        ) by {
            lemma_known_later(now, p, name, ca);
            lemma_receive(name, ca, parent, r, p);
        }
        if let Reply::Ca(Ok(parent_ca)) = reply {
            lemma_known_next(past, Step { request, reply }, parent, parent_ca);
            lemma_certify_all(parent, parent_ca, name, requests, Seq::empty(), now);
            certify_all_script(parent, parent_ca, name, requests, Seq::empty()).lemma_obeys_bind(
                receive,
                now,
                steady(),
                any_end(),
                any_end(),
            );
        }
    }
}

proof fn lemma_certify_from(
    name: Seq<char>,
    ca: CertAuth,
    parent: Seq<char>,
    requests: Seq<IssuanceRequest>,
    past: Seq<Step>,
)
    requires
        known(past, name, ca),
    ensures
        certify_from_script(name, ca, parent, requests).obeys(past, steady(), any_end()),
{
    let script = certify_from_script(name, ca, parent, requests);
    let request = script->Ask_0;
    let then = script->Ask_1;
    assert forall|reply: Reply| request.answered_by(reply) implies (#[trigger] then(reply)).obeys(
        past.push(Step { request, reply }),
        steady(),
        any_end(),
    ) by {
        let now = past.push(Step { request, reply });
        lemma_known_next(past, Step { request, reply }, name, ca);
        let receive = receive_certs(name, ca, parent);
        assert forall|p: Seq<Step>, r: Result<Seq<(String, IssuedCert)>, ErrorView>|
            now.is_prefix_of(p) && #[trigger] any_end()(p, r) implies receive(r).obeys(
            p,
            steady(),
            any_end(),
        ) by {
            lemma_known_later(now, p, name, ca);
            lemma_receive(name, ca, parent, r, p);
        }
        match reply->Contact_0 {
            Ok(ParentCaContact::Embedded) => lemma_certify_embedded(
                name,
                ca,
                parent,
                requests,
                now,
            ),
            Ok(ParentCaContact::Rfc6492(contact)) => {
                lemma_certify_remote(ca.id_key, contact, requests, Seq::empty(), now);
                certify_remote_script(ca.id_key, contact, requests, Seq::empty()).lemma_obeys_bind(
                    receive,
                    now,
                    steady(),
                    any_end(),
                    any_end(),
                );
            },
            Err(_) => {},
        }
    }
}

proof fn lemma_certify_wanted(name: Seq<char>, ca: CertAuth, parent: Seq<char>, past: Seq<Step>)
    requires
        known(past, name, ca),
    ensures
        certify_wanted_script(name, ca, parent).obeys(past, steady(), any_end()),
{
    let script = certify_wanted_script(name, ca, parent);
    let request = script->Ask_0;
    let then = script->Ask_1;
    assert forall|reply: Reply| request.answered_by(reply) implies (#[trigger] then(reply)).obeys(
        past.push(Step { request, reply }),
        steady(),
        any_end(),
    ) by {
        let now = past.push(Step { request, reply });
        lemma_known_next(past, Step { request, reply }, name, ca);
        lemma_certify_from(name, ca, parent, reply->CertRequests_0@, now);
    }
}

proof fn lemma_certify_keys(name: Seq<char>, parent: Seq<char>, past: Seq<Step>)
    ensures
        certify_keys_script(name, parent).obeys(past, steady(), any_end()),
{
    let script = certify_keys_script(name, parent);
    let request = script->Ask_0;
    let then = script->Ask_1;
    assert forall|reply: Reply| request.answered_by(reply) implies (#[trigger] then(reply)).obeys(
        past.push(Step { request, reply }),
        steady(),
        any_end(),
    ) by {
        let now = past.push(Step { request, reply });
        if let Reply::Ca(Ok(ca)) = reply {
            lemma_known_next(past, Step { request, reply }, name, ca);
            lemma_certify_wanted(name, ca, parent, now);
        }
    }
}

pub(crate) proof fn lemma_send_requests(name: Seq<char>, parent: Seq<char>, past: Seq<Step>)
    ensures
        send_requests_script(name, parent).obeys(past, steady(), any_end()),
{
    let then = then_certify(name, parent);
    lemma_revoke_keys(name, parent, past);
    assert forall|p: Seq<Step>, r: Result<(), ErrorView>|
        past.is_prefix_of(p) && #[trigger] any_end()(p, r) implies then(r).obeys(
        p,
        steady(),
        any_end(),
    ) by {
        if r is Ok {
            lemma_certify_keys(name, parent, p);
        }
    }
    revoke_keys_script(name, parent).lemma_obeys_bind(
        then,
        past,
        steady(),
        any_end(),
        any_end(),
    );
}

proof fn lemma_update_entitlements(
    name: Seq<char>,
    parent: Seq<char>,
    entitlements: Entitlements,
    past: Seq<Step>,
)
    ensures
        update_entitlements_script(name, parent, entitlements).bind(then_send(name, parent)).obeys(
            past,
            steady(),
            any_end(),
        ),
{
    let then = then_send(name, parent);
    let command = CommandView::UpdateEntitlements { ca: name, parent, entitlements };
    lemma_execute(name, Missing::Store, command, true, past);
    assert forall|p: Seq<Step>, r: Result<Settled, ErrorView>|
        past.is_prefix_of(p) && #[trigger] settled_end(name)(p, r) implies then(r).obeys(
        p,
        steady(),
        any_end(),
    ) by {
        if r is Ok {
            lemma_send_requests(name, parent, p);
        }
    }
    update_entitlements_script(name, parent, entitlements).lemma_obeys_bind(
        then,
        past,
        steady(),
        settled_end(name),
        any_end(),
    );
}

pub(crate) proof fn lemma_get_updates_from_parent(
    name: Seq<char>,
    parent: Seq<char>,
    past: Seq<Step>,
)
    ensures
        get_updates_from_parent_script(name, parent).obeys(past, steady(), any_end()),
{
    let then = then_update(name, parent);
    lemma_entitlements(name, parent, past);
    assert forall|p: Seq<Step>, r: Result<Entitlements, ErrorView>|
        past.is_prefix_of(p) && #[trigger] any_end()(p, r) implies then(r).obeys(
        p,
        steady(),
        any_end(),
    ) by {
        if let Ok(entitlements) = r {
            lemma_update_entitlements(name, parent, entitlements, p);
        }
    }
    entitlements_script(name, parent).lemma_obeys_bind(
        then,
        past,
        steady(),
        any_end(),
        any_end(),
    );
}

proof fn lemma_republish_each(cas: Seq<Seq<char>>, past: Seq<Step>)
    ensures
        republish_each_script(cas).obeys(past, steady(), any_end()),
    decreases cas.len(), 0nat,
{
    if cas.len() > 0 {
        let name = cas[0];
        let rest = cas.drop_first();
        let then = republish_rest(name, rest);
        lemma_perform(name, Missing::Store, CommandView::Publish { ca: name }, true, past);
        assert forall|p: Seq<Step>, r: Result<(), ErrorView>|
            past.is_prefix_of(p) && #[trigger] any_end()(p, r) implies then(r).obeys(
            p,
            steady(),
            any_end(),
        ) by {
            match r {
                Ok(_) => lemma_republish_each(rest, p),
                Err(error) => lemma_republish_log(IncidentView::Publishing(name, error), rest, p),
            }
        }
        republish_script(name).lemma_obeys_bind(then, past, steady(), any_end(), any_end());
    }
}

proof fn lemma_republish_log(incident: IncidentView, rest: Seq<Seq<char>>, past: Seq<Step>)
    ensures
        republish_log(incident, rest).obeys(past, steady(), any_end()),
    decreases rest.len(), 1nat,
{
    let script = republish_log(incident, rest);
    let request = script->Ask_0;
    let then = script->Ask_1;
    assert forall|reply: Reply| request.answered_by(reply) implies (#[trigger] then(reply)).obeys(
        past.push(Step { request, reply }),
        steady(),
        any_end(),
    ) by {
        let now = past.push(Step { request, reply });
        lemma_republish_each(rest, now);
    }
}

proof fn lemma_refresh_cas(cas: Seq<Seq<char>>, past: Seq<Step>)
    ensures
        refresh_cas_script(cas).obeys(past, steady(), any_end()),
    decreases cas.len(), 0nat, 1nat,
{
    if cas.len() > 0 {
        let script = refresh_cas_script(cas);
        let request = script->Ask_0;
        let then = script->Ask_1;
        assert forall|reply: Reply| request.answered_by(reply) implies (#[trigger] then(
            reply,
        )).obeys(past.push(Step { request, reply }), steady(), any_end()) by {
            let now = past.push(Step { request, reply });
            match reply->Ca_0 {
                Ok(ca) => lemma_refresh_ca(cas[0], ca, cas.drop_first(), now),
                Err(_) => lemma_refresh_cas(cas.drop_first(), now),
            }
        }
    }
}

proof fn lemma_refresh_ca(name: Seq<char>, ca: CertAuth, rest: Seq<Seq<char>>, past: Seq<Step>)
    ensures
        refresh_ca_script(name, ca, rest).obeys(past, steady(), any_end()),
    decreases rest.len() + 1, 0nat, 0nat,
{
    let script = refresh_ca_script(name, ca, rest);
    let request = script->Ask_0;
    let then = script->Ask_1;
    assert forall|reply: Reply| request.answered_by(reply) implies (#[trigger] then(reply)).obeys(
        past.push(Step { request, reply }),
        steady(),
        any_end(),
    ) by {
        let now = past.push(Step { request, reply });
        match reply->Parents_0 {
            Ok(parents) => lemma_refresh_parents(name, names(parents@), rest, now),
            Err(_) => lemma_refresh_cas(rest, now),
        }
    }
}

proof fn lemma_refresh_parents(
    name: Seq<char>,
    parents: Seq<Seq<char>>,
    rest: Seq<Seq<char>>,
    past: Seq<Step>,
)
    ensures
        refresh_parents_script(name, parents, rest).obeys(past, steady(), any_end()),
    decreases rest.len(), parents.len() + 1, 0nat,
{
    if parents.len() == 0 {
        lemma_refresh_cas(rest, past);
    } else {
        let left = parents.drop_first();
        let then = refresh_rest(name, left, rest);
        lemma_get_updates_from_parent(name, parents[0], past);
        assert forall|p: Seq<Step>, r: Result<(), ErrorView>|
            past.is_prefix_of(p) && #[trigger] any_end()(p, r) implies then(r).obeys(
            p,
            steady(),
            any_end(),
        ) by {
            match r {
                Ok(_) => lemma_refresh_parents(name, left, rest, p),
                Err(error) => lemma_refresh_log(
                    IncidentView::Refreshing(name, error),
                    name,
                    left,
                    rest,
                    p,
                ),
            }
        }
        get_updates_from_parent_script(name, parents[0]).lemma_obeys_bind(
            then,
            past,
            steady(),
            any_end(),
            any_end(),
        );
    }
}

proof fn lemma_refresh_log(
    incident: IncidentView,
    name: Seq<char>,
    parents: Seq<Seq<char>>,
    rest: Seq<Seq<char>>,
    past: Seq<Step>,
)
    ensures
        refresh_log(incident, name, parents, rest).obeys(past, steady(), any_end()),
    decreases rest.len(), parents.len() + 1, 1nat,
{
    let script = refresh_log(incident, name, parents, rest);
    let request = script->Ask_0;
    let then = script->Ask_1;
    assert forall|reply: Reply| request.answered_by(reply) implies (#[trigger] then(reply)).obeys(
        past.push(Step { request, reply }),
        steady(),
        any_end(),
    ) by {
        let now = past.push(Step { request, reply });
        lemma_refresh_parents(name, parents, rest, now);
    }
}

pub(crate) proof fn lemma_get_updates_for_all_cas(past: Seq<Step>)
    ensures
        get_updates_for_all_cas_script().obeys(past, steady(), any_end()),
{
    let request = RequestView::List;
    let refresh = get_updates_for_all_cas_script()->Ask_1;
    assert forall|reply: Reply| request.answered_by(reply) implies (#[trigger] refresh(
        reply,
    )).obeys(past.push(Step { request, reply }), steady(), any_end()) by {
        lemma_refresh_cas(names(reply->Handles_0@), past.push(Step { request, reply }));
    }
}

pub(crate) proof fn lemma_republish_all(past: Seq<Step>)
    ensures
        republish_all_script().obeys(past, steady(), any_end()),
{
    let request = RequestView::List;
    let republish = republish_all_script()->Ask_1;
    assert forall|reply: Reply| request.answered_by(reply) implies (#[trigger] republish(
        reply,
    )).obeys(past.push(Step { request, reply }), steady(), any_end()) by {
        lemma_republish_each(names(reply->Handles_0@), past.push(Step { request, reply }));
    }
}

/// Whatever went before: a CA that is let process a command keeps the
/// discipline, and no CA is added. This is how a CA is republished, gets a
/// parent, and rolls its keys.
pub proof fn law_discipline_of_commands(
    name: Seq<char>,
    missing: Missing,
    command: CommandView,
    lazy: bool,
    past: Seq<Step>,
)
    requires
        command.target() == name,
    ensures
        perform_script(name, missing, command, lazy).obeys(past, steady(), any_end()),
{
    lemma_perform(name, missing, command, lazy, past);
}

/// Whatever went before: to build the server, to load, list and create CAs,
/// to make tokens, and to handle the children of the trust anchor keeps the
/// discipline. Only to create a CA adds one.
pub proof fn law_discipline_of_the_trust_anchor(
    work_dir: Seq<char>,
    name: Seq<char>,
    missing: Missing,
    new: NewCaView,
    add: AddChildRequest,
    base: Seq<char>,
    child: Seq<char>,
    update: UpdateChildRequest,
    past: Seq<Step>,
)
    ensures
        build_script(work_dir).obeys(past, steady(), any_end()),
        load_script(name, missing).obeys(past, steady(), any_end()),
        cas_script().obeys(past, steady(), any_end()),
        token_script().obeys(past, steady(), any_end()),
        create_script(new).obeys(past, discipline(), any_end()),
        ta_add_child_script(add, base).obeys(past, steady(), any_end()),
        show_child_script(name, child).obeys(past, steady(), any_end()),
        ta_update_child_script(child, update).obeys(past, steady(), any_end()),
{
    lemma_build(work_dir, past);
    lemma_load(name, missing, past);
    lemma_cas(past);
    lemma_token(past);
    lemma_create(new, past);
    lemma_add_child(add, base, past);
    lemma_show_child(name, child, past);
    lemma_update_child(child, update, past);
}

/// Whatever went before: to list, to issue, to revoke, and to answer signed
/// messages keeps the discipline, and no CA is added.
pub proof fn law_discipline_of_provisioning(
    name: Seq<char>,
    missing: Missing,
    child: Seq<char>,
    issue: IssuanceRequest,
    revoke: RevocationRequest,
    msg: SignedMessage,
    past: Seq<Step>,
)
    ensures
        list_script(name, missing, child).obeys(past, steady(), any_end()),
        issue_script(name, child, issue).obeys(past, steady(), any_end()),
        revoke_script(name, child, revoke).obeys(past, steady(), any_end()),
        rfc6492_script(name, msg).obeys(past, steady(), any_end()),
{
    lemma_list(name, missing, child, past);
    lemma_issue(name, child, issue, past);
    lemma_revoke(name, child, revoke, past);
    lemma_rfc6492(name, msg, past);
}

/// Whatever went before: to send requests to parents, and to keep one CA or
/// all of them up to date, keeps the discipline, and no CA is added.
pub proof fn law_discipline_of_updates(
    name: Seq<char>,
    parent: Seq<char>,
    requests: Seq<RevocationRequest>,
    past: Seq<Step>,
)
    ensures
        send_revoke_requests_script(name, parent, requests).obeys(past, steady(), any_end()),
        send_requests_script(name, parent).obeys(past, steady(), any_end()),
        get_updates_from_parent_script(name, parent).obeys(past, steady(), any_end()),
        get_updates_for_all_cas_script().obeys(past, steady(), any_end()),
        republish_all_script().obeys(past, steady(), any_end()),
{
    lemma_send_revoke_requests(name, parent, requests, past);
    lemma_send_requests(name, parent, past);
    lemma_get_updates_from_parent(name, parent, past);
    lemma_get_updates_for_all_cas(past);
    lemma_republish_all(past);
}

} // verus!
