//! Which operations always run to their end, and which do not.
use crate::batch::{apply_all_script, apply_rest};
use crate::certificates::{
    certify_all_script, certify_embedded_script, certify_from_script, certify_keys_script,
    certify_remote_log, certify_remote_rest, certify_remote_script, certify_rest,
    certify_wanted_script, issue_incident, receive_certs, receive_commands,
};
use crate::dialogue::Reply;
use crate::entitlements::{
    entitlements_script, list_from_script, list_remote_script, query_message, then_listed,
};
use crate::error::{ErrorView, IncidentView};
use crate::exchange::exchange_script;
use crate::laws::law_provisioning_uri;
use crate::messages::{
    revoked, Content, Entitlements, IssuanceRequest, IssuedCert, Message, ParentResponse, Qry, Res,
    RevocationRequest, RevocationResponse, SignedMessage,
};
use crate::provisioning::{
    certify_script, fetch_issued, granted, issue_script, list_script, response_only, revoke_script,
    verify_script, wrap_revoke, Certified,
};
use crate::revocations::{
    all_revoked, finish_commands, finish_keys, revoke_commands, revoke_embedded_script,
    revoke_from_script, revoke_incident, revoke_keys_script, revoke_remote_log, revoke_remote_rest,
    revoke_remote_script, revoke_wanted_script, send_revoke_requests_script, then_revoked,
};
use crate::script::Script;
use crate::server::build_script;
use crate::store::{
    apply_script, cas_script, create_script, execute_script, load_script, perform_script,
    performed, token_script, Missing, Settled,
};
use crate::trust_anchor::{
    child_contact, child_id_cert, show_child_script, shrink_child, ta_add_child_script,
    ta_update_child_script,
};
use crate::types::{
    AddChildRequest, CertAuth, CommandView, KeyId, NewCaView, ParentCaContact, UpdateChildRequest,
    DFLT_CLASS, TA_NAME,
};
use crate::updates::{
    get_updates_for_all_cas_script, get_updates_from_parent_script, names, refresh_ca_script,
    refresh_cas_script, refresh_log, refresh_parents_script, refresh_rest, republish_all_script,
    republish_each_script, republish_log, republish_rest, republish_script, send_requests_script,
    then_certify, then_send, then_update, update_entitlements_script,
};
use crate::uri::{is_https_uri, is_uri_text};
use vstd::prelude::*;

verus! {

/// However the outside replies, the script runs to its end: it never comes
/// to something that the server does not support.
pub open spec fn total<R>(script: Script<R>) -> bool
    decreases script,
{
    match script {
        Script::Done(_) => true,
        Script::Ask(request, next) => forall|reply: Reply|
            request.answered_by(reply) ==> total(#[trigger] next(reply)),
        Script::Halt => false,
    }
}

proof fn lemma_total_bind<R, T>(script: Script<R>, then: spec_fn(R) -> Script<T>)
    requires
        total(script),
        forall|r: R| total(#[trigger] then(r)),
    ensures
        total(script.bind(then)),
    decreases script,
{
    match script {
        Script::Done(r) => {
            assert(total(then(r)));
        },
        Script::Ask(request, next) => {
            let bound = script.bind(then)->Ask_1;
            assert forall|reply: Reply| request.answered_by(reply) implies total(
                #[trigger] bound(reply),
            ) by {
                lemma_total_bind(next(reply), then);
            }
        },
        Script::Halt => {},
    }
}

proof fn lemma_execute(name: Seq<char>, missing: Missing, command: CommandView, lazy: bool)
    ensures
        total(execute_script(name, missing, command, lazy)),
        total(perform_script(name, missing, command, lazy)),
{
    assert(total(execute_script(name, missing, command, lazy))) by {
        reveal_with_fuel(total, 4);
    }
    lemma_total_bind(execute_script(name, missing, command, lazy), performed());
}

proof fn lemma_apply(name: Seq<char>, ca: CertAuth, command: CommandView, lazy: bool)
    ensures
        total(apply_script(name, ca, command, lazy)),
{
    reveal_with_fuel(total, 3);
}

proof fn lemma_apply_all(name: Seq<char>, ca: CertAuth, commands: Seq<CommandView>)
    ensures
        total(apply_all_script(name, ca, commands)),
    decreases commands.len(),
{
    if commands.len() > 0 {
        let rest = commands.drop_first();
        let then = apply_rest(name, rest);
        lemma_apply(name, ca, commands[0], false);
        assert forall|r: Result<Settled, ErrorView>| total(#[trigger] then(r)) by {
            if let Ok(settled) = r {
                lemma_apply_all(name, settled.ca, rest);
            }
        }
        lemma_total_bind(apply_script(name, ca, commands[0], false), then);
    }
}

proof fn lemma_update_child(child: Seq<char>, req: UpdateChildRequest)
    ensures
        total(ta_update_child_script(child, req)),
{
    let command = CommandView::ChildUpdate { ca: TA_NAME@, child, req };
    let shrink = CommandView::ChildShrink { ca: TA_NAME@, child, grace_nanos: 0 };
    let then = shrink_child(child, req.force);
    lemma_execute(TA_NAME@, Missing::TrustAnchor, command, true);
    assert forall|r: Result<Settled, ErrorView>| total(#[trigger] then(r)) by {
        if let Ok(settled) = r {
            lemma_apply(TA_NAME@, settled.ca, shrink, true);
            lemma_total_bind(apply_script(TA_NAME@, settled.ca, shrink, true), performed());
        }
    }
    lemma_total_bind(execute_script(TA_NAME@, Missing::TrustAnchor, command, true), then);
}

proof fn lemma_exchange(key: KeyId, contact: ParentResponse, query: Message)
    ensures
        total(exchange_script(key, contact, query)),
{
    reveal_with_fuel(total, 6);
}

proof fn lemma_entitlements(name: Seq<char>, parent: Seq<char>)
    ensures
        total(entitlements_script(name, parent)),
{
    assert forall|contact: ParentResponse| total(
        #[trigger] list_remote_script(name, contact),
    ) by {
        let query = query_message(contact, Qry::List);
        let then = list_remote_script(name, contact)->Ask_1;
        assert forall|reply: Reply| reply is Ca implies total(#[trigger] then(reply)) by {
            if let Ok(ca) = reply->Ca_0 {
                lemma_exchange(ca.id_key, contact, query);
                lemma_total_bind(exchange_script(ca.id_key, contact, query), then_listed());
            }
        }
    }
    assert(total(list_script(parent, Missing::Store, name))) by {
        reveal_with_fuel(total, 3);
    }
    assert forall|ca: CertAuth| total(#[trigger] list_from_script(name, ca, parent)) by {
        let then = list_from_script(name, ca, parent)->Ask_1;
        assert forall|reply: Reply| reply is Contact implies total(#[trigger] then(reply)) by {
            if let Ok(ParentCaContact::Rfc6492(contact)) = reply->Contact_0 {
                assert(total(list_remote_script(name, contact)));
            }
        }
    }
    let then = entitlements_script(name, parent)->Ask_1;
    assert forall|reply: Reply| reply is Ca implies total(#[trigger] then(reply)) by {
        if let Ok(ca) = reply->Ca_0 {
            assert(total(list_from_script(name, ca, parent)));
        }
    }
}

proof fn lemma_revoke_remote(
    key: KeyId,
    contact: ParentResponse,
    requests: Seq<RevocationRequest>,
    done: Seq<RevocationResponse>,
)
    ensures
        total(revoke_remote_script(key, contact, requests, done)),
    decreases requests.len(),
{
    if requests.len() > 0 {
        let rest = requests.drop_first();
        let query = query_message(contact, Qry::Revoke(requests[0]));
        let then = revoke_remote_rest(key, contact, rest, done);
        lemma_exchange(key, contact, query);
        assert forall|r: Result<Res, ErrorView>| total(#[trigger] then(r)) by {
            if let Ok(Res::Revoke(response)) = r {
                lemma_revoke_remote(key, contact, rest, done.push(response));
            } else {
                lemma_revoke_remote(key, contact, rest, done);
                let log = revoke_remote_log(revoke_incident(r), key, contact, rest, done);
                let next = log->Ask_1;
                assert forall|reply: Reply| total(#[trigger] next(reply)) by {}
            }
        }
        lemma_total_bind(exchange_script(key, contact, query), then);
    }
}

proof fn lemma_send_revoke_requests(
    name: Seq<char>,
    parent: Seq<char>,
    requests: Seq<RevocationRequest>,
)
    ensures
        total(send_revoke_requests_script(name, parent, requests)),
{
    assert(total(revoke_embedded_script(parent, name, requests))) by {
        let then = revoke_embedded_script(parent, name, requests)->Ask_1;
        assert forall|reply: Reply| reply is Ca implies total(#[trigger] then(reply)) by {
            if let Ok(ca) = reply->Ca_0 {
                let commands = revoke_commands(parent, name, requests);
                lemma_apply_all(parent, ca, commands);
                lemma_total_bind(
                    apply_all_script(parent, ca, commands),
                    then_revoked(all_revoked(requests)),
                );
            }
        }
    }
    assert forall|ca: CertAuth| total(
        #[trigger] revoke_from_script(name, ca, parent, requests),
    ) by {
        let then = revoke_from_script(name, ca, parent, requests)->Ask_1;
        assert forall|reply: Reply| reply is Contact implies total(#[trigger] then(reply)) by {
            if let Ok(ParentCaContact::Rfc6492(contact)) = reply->Contact_0 {
                lemma_revoke_remote(ca.id_key, contact, requests, Seq::empty());
            }
        }
    }
    let then = send_revoke_requests_script(name, parent, requests)->Ask_1;
    assert forall|reply: Reply| reply is Ca implies total(#[trigger] then(reply)) by {
        if let Ok(ca) = reply->Ca_0 {
            assert(total(revoke_from_script(name, ca, parent, requests)));
        }
    }
}

proof fn lemma_revoke_keys(name: Seq<char>, parent: Seq<char>)
    ensures
        total(revoke_keys_script(name, parent)),
{
    assert forall|ca: CertAuth| total(#[trigger] revoke_wanted_script(name, ca, parent)) by {
        let then = revoke_wanted_script(name, ca, parent)->Ask_1;
        let finish = finish_keys(name, ca, parent);
        assert forall|r: Result<Seq<RevocationResponse>, ErrorView>| total(
            #[trigger] finish(r),
        ) by {
            if let Ok(responses) = r {
                lemma_apply_all(name, ca, finish_commands(name, parent, responses));
            }
        }
        assert forall|reply: Reply| reply is Revocations implies total(#[trigger] then(reply)) by {
            let requests = reply->Revocations_0@;
            lemma_send_revoke_requests(name, parent, requests);
            lemma_total_bind(send_revoke_requests_script(name, parent, requests), finish);
        }
    }
    let then = revoke_keys_script(name, parent)->Ask_1;
    assert forall|reply: Reply| reply is Ca implies total(#[trigger] then(reply)) by {
        if let Ok(ca) = reply->Ca_0 {
            assert(total(revoke_wanted_script(name, ca, parent)));
        }
    }
}

proof fn lemma_certify_all(
    parent: Seq<char>,
    ca: CertAuth,
    child: Seq<char>,
    requests: Seq<IssuanceRequest>,
    done: Seq<(String, IssuedCert)>,
)
    ensures
        total(certify_all_script(parent, ca, child, requests, done)),
    decreases requests.len(),
{
    if requests.len() > 0 {
        let req = requests[0];
        let rest = requests.drop_first();
        let command = CommandView::ChildCertify { ca: parent, child, req };
        let fetch = fetch_issued(child, req.class_name@, req.csr.public_key);
        lemma_apply(parent, ca, command, false);
        assert forall|r: Result<Settled, ErrorView>| total(#[trigger] fetch(r)) by {
            reveal_with_fuel(total, 2);
        }
        lemma_total_bind(apply_script(parent, ca, command, false), fetch);
        let then = certify_rest(parent, child, req.class_name, rest, done);
        assert forall|r: Result<Certified, ErrorView>| total(#[trigger] then(r)) by {
            if let Ok(certified) = r {
                let more = done.push((req.class_name, certified.response.issued));
                lemma_certify_all(parent, certified.ca, child, rest, more);
            }
        }
        lemma_total_bind(certify_script(parent, ca, child, req), then);
    }
}

proof fn lemma_certify_remote(
    key: KeyId,
    contact: ParentResponse,
    requests: Seq<IssuanceRequest>,
    done: Seq<(String, IssuedCert)>,
)
    ensures
        total(certify_remote_script(key, contact, requests, done)),
    decreases requests.len(),
{
    if requests.len() > 0 {
        let rest = requests.drop_first();
        let query = query_message(contact, Qry::Issue(requests[0]));
        let then = certify_remote_rest(key, contact, rest, done);
        lemma_exchange(key, contact, query);
        assert forall|r: Result<Res, ErrorView>| total(#[trigger] then(r)) by {
            if let Ok(Res::Issue(response)) = r {
                let more = done.push((response.class_name, response.issued));
                lemma_certify_remote(key, contact, rest, more);
            } else {
                lemma_certify_remote(key, contact, rest, done);
                let log = certify_remote_log(issue_incident(r), key, contact, rest, done);
                let next = log->Ask_1;
                assert forall|reply: Reply| total(#[trigger] next(reply)) by {}
            }
        }
        lemma_total_bind(exchange_script(key, contact, query), then);
    }
}

proof fn lemma_certify_from(
    name: Seq<char>,
    ca: CertAuth,
    parent: Seq<char>,
    requests: Seq<IssuanceRequest>,
)
    ensures
        total(certify_from_script(name, ca, parent, requests)),
{
    let receive = receive_certs(name, ca, parent);
    assert forall|r: Result<Seq<(String, IssuedCert)>, ErrorView>| total(
        #[trigger] receive(r),
    ) by {
        if let Ok(issued) = r {
            lemma_apply_all(name, ca, receive_commands(name, parent, issued));
        }
    }
    assert(total(certify_embedded_script(name, ca, parent, requests))) by {
        let then = certify_embedded_script(name, ca, parent, requests)->Ask_1;
        assert forall|reply: Reply| reply is Ca implies total(#[trigger] then(reply)) by {
            if let Ok(parent_ca) = reply->Ca_0 {
                lemma_certify_all(parent, parent_ca, name, requests, Seq::empty());
                lemma_total_bind(
                    certify_all_script(parent, parent_ca, name, requests, Seq::empty()),
                    receive,
                );
            }
        }
    }
    let then = certify_from_script(name, ca, parent, requests)->Ask_1;
    assert forall|reply: Reply| reply is Contact implies total(#[trigger] then(reply)) by {
        if let Ok(ParentCaContact::Rfc6492(contact)) = reply->Contact_0 {
            lemma_certify_remote(ca.id_key, contact, requests, Seq::empty());
            lemma_total_bind(
                certify_remote_script(ca.id_key, contact, requests, Seq::empty()),
                receive,
            );
        }
    }
}

proof fn lemma_certify_keys(name: Seq<char>, parent: Seq<char>)
    ensures
        total(certify_keys_script(name, parent)),
{
    assert forall|ca: CertAuth| total(#[trigger] certify_wanted_script(name, ca, parent)) by {
        let then = certify_wanted_script(name, ca, parent)->Ask_1;
        assert forall|reply: Reply| reply is CertRequests implies total(#[trigger] then(reply)) by {
            lemma_certify_from(name, ca, parent, reply->CertRequests_0@);
        }
    }
    let then = certify_keys_script(name, parent)->Ask_1;
    assert forall|reply: Reply| reply is Ca implies total(#[trigger] then(reply)) by {
        if let Ok(ca) = reply->Ca_0 {
            assert(total(certify_wanted_script(name, ca, parent)));
        }
    }
}

proof fn lemma_send_requests(name: Seq<char>, parent: Seq<char>)
    ensures
        total(send_requests_script(name, parent)),
{
    let then = then_certify(name, parent);
    lemma_revoke_keys(name, parent);
    assert forall|r: Result<(), ErrorView>| total(#[trigger] then(r)) by {
        lemma_certify_keys(name, parent);
    }
    lemma_total_bind(revoke_keys_script(name, parent), then);
}

proof fn lemma_get_updates_from_parent(name: Seq<char>, parent: Seq<char>)
    ensures
        total(get_updates_from_parent_script(name, parent)),
{
    let send = then_send(name, parent);
    lemma_send_requests(name, parent);
    assert forall|r: Result<Settled, ErrorView>| total(#[trigger] send(r)) by {}
    let update = then_update(name, parent);
    assert forall|r: Result<Entitlements, ErrorView>| total(#[trigger] update(r)) by {
        if let Ok(entitlements) = r {
            let command = CommandView::UpdateEntitlements { ca: name, parent, entitlements };
            lemma_execute(name, Missing::Store, command, true);
            lemma_total_bind(update_entitlements_script(name, parent, entitlements), send);
        }
    }
    lemma_entitlements(name, parent);
    lemma_total_bind(entitlements_script(name, parent), update);
}

proof fn lemma_republish_each(cas: Seq<Seq<char>>)
    ensures
        total(republish_each_script(cas)),
    decreases cas.len(),
{
    if cas.len() > 0 {
        let rest = cas.drop_first();
        let then = republish_rest(cas[0], rest);
        lemma_execute(cas[0], Missing::Store, CommandView::Publish { ca: cas[0] }, true);
        lemma_republish_each(rest);
        assert forall|r: Result<(), ErrorView>| total(#[trigger] then(r)) by {
            if let Err(error) = r {
                let log = republish_log(IncidentView::Publishing(cas[0], error), rest);
                let next = log->Ask_1;
                assert forall|reply: Reply| total(#[trigger] next(reply)) by {}
            }
        }
        lemma_total_bind(republish_script(cas[0]), then);
    }
}

proof fn lemma_refresh_cas(cas: Seq<Seq<char>>)
    ensures
        total(refresh_cas_script(cas)),
    decreases cas.len(), 0nat,
{
    if cas.len() > 0 {
        let name = cas[0];
        let rest = cas.drop_first();
        lemma_refresh_cas(rest);
        let then = refresh_cas_script(cas)->Ask_1;
        assert forall|reply: Reply| reply is Ca implies total(#[trigger] then(reply)) by {
            if let Ok(ca) = reply->Ca_0 {
                let next = refresh_ca_script(name, ca, rest)->Ask_1;
                assert forall|answer: Reply| answer is Parents implies total(
                    #[trigger] next(answer),
                ) by {
                    if let Ok(parents) = answer->Parents_0 {
                        lemma_refresh_parents(name, names(parents@), rest);
                    }
                }
            }
        }
    }
}

proof fn lemma_refresh_parents(name: Seq<char>, parents: Seq<Seq<char>>, rest: Seq<Seq<char>>)
    ensures
        total(refresh_parents_script(name, parents, rest)),
    decreases rest.len(), parents.len() + 1,
{
    if parents.len() == 0 {
        lemma_refresh_cas(rest);
    } else {
        let left = parents.drop_first();
        let then = refresh_rest(name, left, rest);
        lemma_get_updates_from_parent(name, parents[0]);
        lemma_refresh_parents(name, left, rest);
        assert forall|r: Result<(), ErrorView>| total(#[trigger] then(r)) by {
            if let Err(error) = r {
                let log = refresh_log(IncidentView::Refreshing(name, error), name, left, rest);
                let next = log->Ask_1;
                assert forall|reply: Reply| total(#[trigger] next(reply)) by {}
            }
        }
        lemma_total_bind(get_updates_from_parent_script(name, parents[0]), then);
    }
}

/// To build the server, and what the store and the trust anchor are asked
/// for, always runs to its end.
pub proof fn law_total_store(
    work_dir: Seq<char>,
    name: Seq<char>,
    missing: Missing,
    command: CommandView,
    lazy: bool,
    new: NewCaView,
    child: Seq<char>,
    req: UpdateChildRequest,
)
    ensures
        total(build_script(work_dir)),
        total(load_script(name, missing)),
        total(create_script(new)),
        total(perform_script(name, missing, command, lazy)),
        total(cas_script()),
        total(token_script()),
        total(show_child_script(name, child)),
        total(ta_update_child_script(child, req)),
{
    reveal_with_fuel(total, 4);
    lemma_execute(name, missing, command, lazy);
    lemma_update_child(child, req);
}

/// To list and to revoke always runs to its end.
pub proof fn law_total_provisioning(
    name: Seq<char>,
    missing: Missing,
    child: Seq<char>,
    req: RevocationRequest,
)
    ensures
        total(list_script(name, missing, child)),
        total(revoke_script(name, child, req)),
{
    assert(total(list_script(name, missing, child))) by {
        reveal_with_fuel(total, 3);
    }
    let command = CommandView::ChildRevokeKey { ca: name, child, req };
    lemma_execute(name, Missing::Unknown, command, false);
    lemma_total_bind(
        execute_script(name, Missing::Unknown, command, false),
        granted(revoked(req)),
    );
}

/// To send requests to parents, and to keep one CA or all of them up to date
/// and published, always runs to its end.
pub proof fn law_total_updates(
    name: Seq<char>,
    parent: Seq<char>,
    requests: Seq<RevocationRequest>,
)
    ensures
        total(send_revoke_requests_script(name, parent, requests)),
        total(send_requests_script(name, parent)),
        total(get_updates_from_parent_script(name, parent)),
        total(get_updates_for_all_cas_script()),
        total(republish_all_script()),
{
    lemma_send_revoke_requests(name, parent, requests);
    lemma_send_requests(name, parent);
    lemma_get_updates_from_parent(name, parent);
    let refresh = get_updates_for_all_cas_script()->Ask_1;
    assert forall|reply: Reply| reply is Handles implies total(#[trigger] refresh(reply)) by {
        lemma_refresh_cas(names(reply->Handles_0@));
    }
    let republish = republish_all_script()->Ask_1;
    assert forall|reply: Reply| reply is Handles implies total(#[trigger] republish(reply)) by {
        lemma_republish_each(names(reply->Handles_0@));
    }
}

/// To issue a certificate runs to its end for the default class, and for no
/// other: with another class it comes to a halt as soon as the parent is
/// loaded.
pub proof fn law_only_the_default_class_is_issued(
    name: Seq<char>,
    child: Seq<char>,
    req: IssuanceRequest,
    ca: CertAuth,
)
    ensures
        req.class_name@ == DFLT_CLASS@ ==> total(issue_script(name, child, req)),
        req.class_name@ != DFLT_CLASS@ ==> issue_script(name, child, req).after(
            Reply::Ca(Ok(ca)),
        ) is Halt,
{
    if req.class_name@ == DFLT_CLASS@ {
        let then = issue_script(name, child, req)->Ask_1;
        assert forall|reply: Reply| reply is Ca implies total(#[trigger] then(reply)) by {
            if let Ok(ca) = reply->Ca_0 {
                let command = CommandView::ChildCertify { ca: name, child, req };
                let fetch = fetch_issued(child, req.class_name@, req.csr.public_key);
                lemma_apply(name, ca, command, false);
                assert forall|r: Result<Settled, ErrorView>| total(#[trigger] fetch(r)) by {
                    reveal_with_fuel(total, 2);
                }
                lemma_total_bind(apply_script(name, ca, command, false), fetch);
                lemma_total_bind(certify_script(name, ca, child, req), response_only());
            }
        }
    }
}

/// A CA other than the trust anchor comes to a halt at a query to list or to
/// issue, and at no other message.
pub proof fn law_only_the_trust_anchor_lists_and_issues(
    name: Seq<char>,
    ca: CertAuth,
    msg: SignedMessage,
    query: Message,
)
    requires
        name != TA_NAME@,
    ensures
        verify_script(name, ca, msg).after(Reply::Verified(Ok(query))) is Halt <==> (
        query.content matches Content::Qry(qry) && !(qry is Revoke)),
{
    if let Content::Qry(Qry::Revoke(req)) = query.content {
        let child = query.sender@;
        let command = CommandView::ChildRevokeKey { ca: name, child, req };
        let execute = execute_script(name, Missing::Unknown, command, false);
        let wrap = wrap_revoke(name, query.sender, query.recipient);
        execute.lemma_bind(granted(revoked(req)), Reply::Logged);
        revoke_script(name, child, req).lemma_bind(wrap, Reply::Logged);
    }
}

/// To add a child to the trust anchor runs to its end if the child is in the
/// same server. A child elsewhere is told a URI: there it comes to a halt if
/// and only if the name of the trust anchor cannot stand in one.
pub proof fn law_children_are_told_a_uri(
    req: AddChildRequest,
    base: Seq<char>,
    ta: CertAuth,
    changed: bool,
)
    requires
        is_https_uri(base),
    ensures
        req.auth is Embedded ==> total(ta_add_child_script(req, base)),
        req.auth is Rfc8183 ==> (child_contact(req.handle@, req.auth, base)(
            Ok(Settled { ca: ta, changed }),
        ) is Halt <==> !is_uri_text(ta.handle@)),
{
    law_provisioning_uri(base, ta.handle@);
    if req.auth is Embedded {
        let command = CommandView::ChildAdd {
            ca: TA_NAME@,
            child: req.handle@,
            id_cert: child_id_cert(req.auth),
            resources: req.resources,
        };
        lemma_execute(TA_NAME@, Missing::TrustAnchor, command, false);
        lemma_total_bind(
            execute_script(TA_NAME@, Missing::TrustAnchor, command, false),
            child_contact(req.handle@, req.auth, base),
        );
    }
}

} // verus!
