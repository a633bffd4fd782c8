//! What comes of each operation on the store, on the trust anchor and on its
//! children: in every run, what is asked for and what the result is.
use crate::dialogue::{Reply, RequestView};
use crate::error::ErrorView;
use crate::messages::{
    revoked, Content, Entitlements, IssuanceRequest, IssuanceResponse, Message, Qry, Res,
    RevocationRequest, RevocationResponse, ServiceUriView, SignedMessage,
};
use crate::provisioning::{
    answer_script, certify_script, fetch_issued, granted, issue_script, list_script, response_only,
    revoke_script, rfc6492_script, wrap_issue, wrap_list, wrap_revoke, wrap_script, Certified,
};
use crate::runs::{
    commanded, faultless, given, given_up, halted, idle, kept, lemma_halted_bind, lemma_ran_bind,
    ran, reached,
};
use crate::script::{Script, Step};
use crate::server::{build_script, CaServer};
use crate::store::{
    apply_script, cas_script, create_script, execute_script, load_script, perform_script, performed,
    token_script, Missing, Settled,
};
use crate::totality::{law_only_the_default_class_is_issued, law_total_provisioning, total};
use crate::trust_anchor::{
    child_contact, child_id_cert, show_child_script, shrink_child, ta_add_child_script,
    ta_update_child_script,
};
use crate::types::{
    AddChildRequest, CertAuth, ChildAuthRequest, ChildCaInfo, CommandView, ContactView, NewCaView,
    Token, UpdateChildRequest, CA_NS, DFLT_CLASS, TA_NAME,
};
use crate::updates::republish_script;
use crate::uri::is_https_uri;
use bytes::Bytes;
use vstd::prelude::*;

verus! {

/// A server is built once the store was opened, in its own name space under
/// the directory, and the event queue listens to it.
pub proof fn law_build(
    work_dir: Seq<char>,
    steps: Seq<Step>,
    res: Result<CaServer, ErrorView>,
)
    requires
        ran(build_script(work_dir), steps, res),
    ensures
        1 <= steps.len() <= 2,
        steps[0].request == RequestView::OpenStore(work_dir, CA_NS@),
        steps.len() > 1 ==> steps[1].request == RequestView::Listen,
        match res {
            Ok(_) => steps.len() == 2 && faultless(steps, Missing::Store),
            Err(error) => given_up(steps, Missing::Store, error),
        },
{
    reveal_with_fuel(reached, 4);
}

/// A CA is loaded with one request, and is what the store gives.
pub proof fn law_load_run(
    name: Seq<char>,
    missing: Missing,
    steps: Seq<Step>,
    res: Result<CertAuth, ErrorView>,
)
    requires
        ran(load_script(name, missing), steps, res),
    ensures
        steps.len() == 1,
        steps[0].request == RequestView::Latest(name),
        match res {
            Ok(ca) => steps[0].reply == Reply::Ca(Ok(ca)),
            Err(error) => given_up(steps, missing, error),
        },
{
    reveal_with_fuel(reached, 3);
}

/// A CA is created if its name is free, as what was asked for; otherwise it is
/// reported that there is one already.
pub proof fn law_create_run(new: NewCaView, steps: Seq<Step>, res: Result<(), ErrorView>)
    requires
        ran(create_script(new), steps, res),
    ensures
        1 <= steps.len() <= 3,
        steps[0].request == RequestView::Has(
            match new {
                NewCaView::TrustAnchor { name, .. } => name,
                NewCaView::Embedded { name, .. } => name,
            },
        ),
        steps.len() > 1 ==> {
            &&& steps[0].reply == Reply::Has(false)
            &&& steps[1].request == RequestView::Init(new)
        },
        steps.len() > 2 ==> (steps[1].reply matches Reply::Init(Ok(init)) && steps[2].request
            == RequestView::Add(init)),
        match res {
            Ok(_) => steps.len() == 3 && faultless(steps, Missing::Store),
            Err(error) => if steps[0].reply == Reply::Has(true) {
                &&& steps.len() == 1
                &&& error == match new {
                    NewCaView::TrustAnchor { .. } => ErrorView::TrustAnchorInitialisedError,
                    NewCaView::Embedded { name, .. } => ErrorView::DuplicateCa(name),
                }
            } else {
                steps.len() > 1 && given_up(steps, Missing::Store, error)
            },
        },
{
    reveal_with_fuel(reached, 5);
}

/// The CAs that are listed are those that the store lists, in its order.
pub proof fn law_cas_run(steps: Seq<Step>, cas: Seq<Seq<char>>)
    requires
        ran(cas_script(), steps, cas),
    ensures
        steps.len() == 1,
        steps[0].request == RequestView::List,
        steps[0].reply matches Reply::Handles(handles) && {
            &&& cas.len() == handles@.len()
            &&& forall|i: int| 0 <= i < cas.len() ==> #[trigger] cas[i] == handles@[i]@
        },
{
    reveal_with_fuel(reached, 3);
}

/// A random token is what the signer gives.
pub proof fn law_token_run(steps: Seq<Step>, token: Token)
    requires
        ran(token_script(), steps, token),
    ensures
        steps.len() == 1,
        steps[0].request == RequestView::RandomToken,
        steps[0].reply == Reply::Token(token),
{
    reveal_with_fuel(reached, 3);
}

/// What comes of a command: the CA `name` is loaded, that state of it
/// processes the command, and the changes are stored on top of that state. If
/// `lazy`, changes are not stored if there are none. The CA is then in the
/// state that was stored, or in the one that was loaded.
pub proof fn lemma_execute_run(
    name: Seq<char>,
    missing: Missing,
    command: CommandView,
    lazy: bool,
    steps: Seq<Step>,
    res: Result<Settled, ErrorView>,
)
    requires
        ran(execute_script(name, missing, command, lazy), steps, res),
    ensures
        1 <= steps.len() <= 3,
        steps[0].request == RequestView::Latest(name),
        steps.len() > 1 ==> commanded(steps, 1, command),
        steps.len() > 2 ==> kept(steps, 2, name) && !(lazy && idle(steps[1])),
        match res {
            Ok(settled) => {
                &&& faultless(steps, missing)
                &&& settled.changed == (steps.len() == 3)
                &&& steps.len() >= 2
                &&& steps.len() == 2 ==> lazy && idle(steps[1])
                &&& settled.ca == if settled.changed {
                    given(steps[2])
                } else {
                    given(steps[0])
                }
            },
            Err(error) => given_up(steps, missing, error),
        },
{
    reveal_with_fuel(reached, 5);
}

/// What comes of a command to a CA: the CA is loaded, that state of it
/// processes this very command, once, and the changes are stored on top of
/// that state. If `lazy`, changes are not stored if there are none, and that
/// is a success; if not, they are always stored.
pub proof fn law_perform_run(
    name: Seq<char>,
    missing: Missing,
    command: CommandView,
    lazy: bool,
    steps: Seq<Step>,
    res: Result<(), ErrorView>,
)
    requires
        ran(perform_script(name, missing, command, lazy), steps, res),
    ensures
        1 <= steps.len() <= 3,
        steps[0].request == RequestView::Latest(name),
        steps.len() > 1 ==> commanded(steps, 1, command),
        steps.len() > 2 ==> kept(steps, 2, name) && !(lazy && idle(steps[1])),
        match res {
            Ok(_) => {
                &&& faultless(steps, missing)
                &&& steps.len() >= 2
                &&& steps.len() == 2 ==> lazy && idle(steps[1])
            },
            Err(error) => given_up(steps, missing, error),
        },
{
    let execute = execute_script(name, missing, command, lazy);
    let (n, r) = lemma_ran_bind(execute, performed(), steps, res);
    assert(steps.take(n) =~= steps);
    lemma_execute_run(name, missing, command, lazy, steps, r);
}

/// A CA is republished by the command to publish, to that CA; if nothing
/// comes of it, nothing is stored.
pub proof fn law_republish_run(name: Seq<char>, steps: Seq<Step>, res: Result<(), ErrorView>)
    requires
        ran(republish_script(name), steps, res),
    ensures
        1 <= steps.len() <= 3,
        steps[0].request == RequestView::Latest(name),
        steps.len() > 1 ==> commanded(steps, 1, CommandView::Publish { ca: name }),
        steps.len() > 2 ==> kept(steps, 2, name) && !idle(steps[1]),
        match res {
            Ok(_) => {
                &&& faultless(steps, Missing::Store)
                &&& steps.len() >= 2
                &&& steps.len() == 2 ==> idle(steps[1])
            },
            Err(error) => given_up(steps, Missing::Store, error),
        },
{
    law_perform_run(name, Missing::Store, CommandView::Publish { ca: name }, true, steps, res);
}

/// A child is added under the handle and with the resources that were asked
/// for, and with the identity certificate of its request if it has sent one.
/// It is told how to reach the trust anchor as it now is: a child in this
/// server needs nothing; any other is told the trust anchor's identity
/// certificate and name, its own name and tag, and the URI of the provisioning
/// service.
pub proof fn law_add_child_run(
    req: AddChildRequest,
    base: Seq<char>,
    steps: Seq<Step>,
    res: Result<ContactView, ErrorView>,
)
    requires
        ran(ta_add_child_script(req, base), steps, res),
    ensures
        1 <= steps.len() <= 3,
        steps[0].request == RequestView::Latest(TA_NAME@),
        steps.len() > 1 ==> commanded(
            steps,
            1,
            CommandView::ChildAdd {
                ca: TA_NAME@,
                child: req.handle@,
                id_cert: match req.auth {
                    ChildAuthRequest::Embedded => None,
                    ChildAuthRequest::Rfc8183(request) => Some(request.id_cert),
                },
                resources: req.resources,
            },
        ),
        steps.len() > 2 ==> kept(steps, 2, TA_NAME@),
        match res {
            Ok(contact) => {
                &&& steps.len() == 3
                &&& faultless(steps, Missing::TrustAnchor)
                &&& match req.auth {
                    ChildAuthRequest::Embedded => contact == ContactView::Embedded,
                    ChildAuthRequest::Rfc8183(request) => {
                        let ta = given(steps[2]);
                        contact matches ContactView::Rfc6492(told) && {
                            &&& told.tag == request.tag
                            &&& told.id_cert == ta.id_cert
                            &&& told.parent_handle == ta.handle@
                            &&& told.child_handle == req.handle@
                            &&& told.service_uri == ServiceUriView::Https(
                                base + "rfc6492/"@ + ta.handle@,
                            )
                            &&& is_https_uri(base + "rfc6492/"@ + ta.handle@)
                        }
                    },
                }
            },
            Err(error) => given_up(steps, Missing::TrustAnchor, error),
        },
{
    let command = CommandView::ChildAdd {
        ca: TA_NAME@,
        child: req.handle@,
        id_cert: child_id_cert(req.auth),
        resources: req.resources,
    };
    let execute = execute_script(TA_NAME@, Missing::TrustAnchor, command, false);
    let then = child_contact(req.handle@, req.auth, base);
    let (n, r) = lemma_ran_bind(execute, then, steps, res);
    assert(steps.take(n) =~= steps);
    lemma_execute_run(TA_NAME@, Missing::TrustAnchor, command, false, steps, r);
}

/// To add a child comes to a halt only once the child is added, and only if
/// the child is elsewhere and the trust anchor has a name that cannot stand in
/// a URI.
pub proof fn law_add_child_halts(req: AddChildRequest, base: Seq<char>, steps: Seq<Step>)
    requires
        halted(ta_add_child_script(req, base), steps),
    ensures
        steps.len() == 3,
        faultless(steps, Missing::TrustAnchor),
        req.auth is Rfc8183,
        !is_https_uri(base + "rfc6492/"@ + given(steps[2]).handle@),
{
    let command = CommandView::ChildAdd {
        ca: TA_NAME@,
        child: req.handle@,
        id_cert: child_id_cert(req.auth),
        resources: req.resources,
    };
    let execute = execute_script(TA_NAME@, Missing::TrustAnchor, command, false);
    let then = child_contact(req.handle@, req.auth, base);
    let (n, r) = lemma_halted_bind(execute, then, steps);
    assert(!halted(execute, steps)) by {
        reveal_with_fuel(reached, 5);
    }
    assert(steps.take(n) =~= steps);
    lemma_execute_run(TA_NAME@, Missing::TrustAnchor, command, false, steps, r);
}

/// A child is shown as the trust anchor gives it. If the trust anchor does not
/// know it, there is nothing to show, which is no failure.
pub proof fn law_show_child_run(
    child: Seq<char>,
    steps: Seq<Step>,
    res: Result<Option<ChildCaInfo>, ErrorView>,
)
    requires
        ran(show_child_script(TA_NAME@, child), steps, res),
    ensures
        1 <= steps.len() <= 2,
        steps[0].request == RequestView::Latest(TA_NAME@),
        steps.len() > 1 ==> steps[1].request == RequestView::Child(given(steps[0]), child),
        match res {
            Ok(Some(info)) => steps.len() == 2 && steps[1].reply == Reply::Child(Ok(info)),
            Ok(None) => steps.len() == 2 && (steps[1].reply matches Reply::Child(Err(_))),
            Err(error) => steps.len() == 1 && given_up(steps, Missing::TrustAnchor, error),
        },
{
    reveal_with_fuel(reached, 4);
}

/// A child is updated with the very request that was made. If that has
/// changed the trust anchor and the request is to force it, and only then, the
/// certificates of that child are shrunk in the new state, with no grace. What
/// changes nothing is not stored.
pub proof fn law_update_child_run(
    child: Seq<char>,
    req: UpdateChildRequest,
    steps: Seq<Step>,
    res: Result<(), ErrorView>,
)
    requires
        ran(ta_update_child_script(child, req), steps, res),
    ensures
        1 <= steps.len() <= 5,
        steps[0].request == RequestView::Latest(TA_NAME@),
        steps.len() > 1 ==> commanded(
            steps,
            1,
            CommandView::ChildUpdate { ca: TA_NAME@, child, req },
        ),
        steps.len() > 2 ==> kept(steps, 2, TA_NAME@) && !idle(steps[1]),
        steps.len() > 3 ==> {
            &&& req.force
            &&& commanded(
                steps,
                3,
                CommandView::ChildShrink { ca: TA_NAME@, child, grace_nanos: 0 },
            )
        },
        steps.len() > 4 ==> kept(steps, 4, TA_NAME@) && !idle(steps[3]),
        match res {
            Ok(_) => {
                &&& faultless(steps, Missing::TrustAnchor)
                &&& steps.len() >= 2
                &&& steps.len() == 2 ==> idle(steps[1])
                &&& steps.len() == 3 ==> !req.force
                &&& steps.len() == 4 ==> idle(steps[3])
            },
            Err(error) => given_up(steps, Missing::TrustAnchor, error),
        },
{
    let command = CommandView::ChildUpdate { ca: TA_NAME@, child, req };
    let execute = execute_script(TA_NAME@, Missing::TrustAnchor, command, true);
    let then = shrink_child(child, req.force);
    let (n, r) = lemma_ran_bind(execute, then, steps, res);
    let first = steps.take(n);
    let rest = steps.skip(n);
    lemma_execute_run(TA_NAME@, Missing::TrustAnchor, command, true, first, r);
    assert(forall|i: int| 0 <= i < n ==> first[i] == steps[i]);
    assert(forall|i: int| 0 <= i < rest.len() ==> rest[i] == steps[n + i]);
    if r is Ok && r->Ok_0.changed && req.force {
        let shrink = CommandView::ChildShrink { ca: TA_NAME@, child, grace_nanos: 0 };
        let apply = apply_script(TA_NAME@, r->Ok_0.ca, shrink, true);
        let (m, x) = lemma_ran_bind(apply, performed(), rest, res);
        assert(rest.take(m) =~= rest);
        reveal_with_fuel(reached, 4);
        assert(steps[n] == rest[0]);
        if rest.len() > 1 {
            assert(steps[n + 1] == rest[1]);
        }
        lemma_faults_join(first, rest, Missing::TrustAnchor);
        assert(first + rest =~= steps);
    } else {
        assert(first =~= steps);
    }
}

/// Faults in steps that are put together.
pub proof fn lemma_faults_join(first: Seq<Step>, rest: Seq<Step>, missing: Missing)
    ensures
        faultless(first, missing) && faultless(rest, missing) ==> faultless(
            first + rest,
            missing,
        ),
        forall|error: ErrorView|
            faultless(first, missing) && #[trigger] given_up(rest, missing, error) ==> given_up(
                first + rest,
                missing,
                error,
            ),
{
    let all = first + rest;
    if rest.len() > 0 {
        assert(all.drop_last() =~= first + rest.drop_last());
        assert(all.last() == rest.last());
    }
}

/// The entitlements of a child are those that the CA gives.
pub proof fn law_list_run(
    name: Seq<char>,
    missing: Missing,
    child: Seq<char>,
    steps: Seq<Step>,
    res: Result<Entitlements, ErrorView>,
)
    requires
        ran(list_script(name, missing, child), steps, res),
    ensures
        1 <= steps.len() <= 2,
        steps[0].request == RequestView::Latest(name),
        steps.len() > 1 ==> steps[1].request == RequestView::Entitlements(given(steps[0]), child),
        match res {
            Ok(entitlements) => {
                &&& steps.len() == 2
                &&& steps[1].reply == Reply::Entitlements(Ok(entitlements))
            },
            Err(error) => given_up(steps, missing, error),
        },
{
    reveal_with_fuel(reached, 4);
}

/// A certificate is issued by the command to certify the child, with the very
/// request that the child made; the response is what the CA, as it is then,
/// gives for that child, class and key.
pub proof fn law_issue_run(
    name: Seq<char>,
    child: Seq<char>,
    req: IssuanceRequest,
    steps: Seq<Step>,
    res: Result<IssuanceResponse, ErrorView>,
)
    requires
        ran(issue_script(name, child, req), steps, res),
    ensures
        1 <= steps.len() <= 4,
        steps[0].request == RequestView::Latest(name),
        steps.len() > 1 ==> {
            &&& req.class_name@ == DFLT_CLASS@
            &&& commanded(steps, 1, CommandView::ChildCertify { ca: name, child, req })
        },
        steps.len() > 2 ==> kept(steps, 2, name),
        steps.len() > 3 ==> steps[3].request == RequestView::Issuance(
            given(steps[2]),
            child,
            req.class_name@,
            req.csr.public_key,
        ),
        match res {
            Ok(response) => {
                &&& steps.len() == 4
                &&& faultless(steps, Missing::TrustAnchor)
                &&& steps[3].reply == Reply::Issuance(Ok(response))
            },
            Err(error) => given_up(steps, Missing::TrustAnchor, error),
        },
{
    reveal_with_fuel(reached, 2);
    let rest = steps.drop_first();
    assert(forall|i: int| 0 <= i < rest.len() ==> rest[i] == steps[i + 1]);
    if let Reply::Ca(Ok(ca)) = steps[0].reply {
        if req.class_name@ == DFLT_CLASS@ {
            let certify = certify_script(name, ca, child, req);
            let (n, r) = lemma_ran_bind(certify, response_only(), rest, res);
            assert(rest.take(n) =~= rest);
            lemma_certify_run(name, ca, child, req, rest, r);
            let missing = Missing::TrustAnchor;
            lemma_faults_join(seq![steps[0]], rest, missing);
            assert(seq![steps[0]] + rest =~= steps);
            assert(faultless(seq![steps[0]], missing));
            match r {
                Ok(_) => assert(faultless(rest, missing)),
                Err(error) => assert(given_up(rest, missing, error)),
            }
        }
    }
}

/// What comes of the command to certify a child, in the state `ca`.
pub proof fn lemma_certify_run(
    name: Seq<char>,
    ca: CertAuth,
    child: Seq<char>,
    req: IssuanceRequest,
    steps: Seq<Step>,
    res: Result<Certified, ErrorView>,
)
    requires
        ran(certify_script(name, ca, child, req), steps, res),
    ensures
        1 <= steps.len() <= 3,
        steps[0].request == RequestView::Process(
            ca,
            CommandView::ChildCertify { ca: name, child, req },
        ),
        steps.len() > 1 ==> kept(steps, 1, name),
        steps.len() > 2 ==> steps[2].request == RequestView::Issuance(
            given(steps[1]),
            child,
            req.class_name@,
            req.csr.public_key,
        ),
        match res {
            Ok(certified) => {
                &&& steps.len() == 3
                &&& forall|missing: Missing| faultless(steps, missing)
                &&& certified.ca == given(steps[1])
                &&& steps[2].reply == Reply::Issuance(Ok(certified.response))
            },
            Err(error) => forall|missing: Missing| given_up(steps, missing, error),
        },
{
    let apply = apply_script(name, ca, CommandView::ChildCertify { ca: name, child, req }, false);
    let fetch = fetch_issued(child, req.class_name@, req.csr.public_key);
    let (n, r) = lemma_ran_bind(apply, fetch, steps, res);
    let first = steps.take(n);
    let rest = steps.skip(n);
    reveal_with_fuel(reached, 4);
    assert(forall|i: int| 0 <= i < n ==> first[i] == steps[i]);
    assert(forall|i: int| 0 <= i < rest.len() ==> rest[i] == steps[n + i]);
    if r is Err {
        assert(first =~= steps);
    } else {
        assert(rest[0] == steps[2]);
    }
}

/// To issue a certificate comes to a halt only if the class is not the default
/// one.
pub proof fn law_issue_halts(
    name: Seq<char>,
    child: Seq<char>,
    req: IssuanceRequest,
    steps: Seq<Step>,
)
    requires
        halted(issue_script(name, child, req), steps),
    ensures
        req.class_name@ != DFLT_CLASS@,
        steps.len() == 1,
{
    reveal_with_fuel(reached, 2);
    let rest = steps.drop_first();
    if let Reply::Ca(Ok(ca)) = steps[0].reply {
        if req.class_name@ == DFLT_CLASS@ {
            law_only_the_default_class_is_issued(name, child, req, ca);
            let then = issue_script(name, child, req)->Ask_1;
            lemma_total_never_halts(then(steps[0].reply), rest);
        }
    }
}

/// What always runs to its end does not come to a halt.
pub proof fn lemma_total_never_halts<R>(script: Script<R>, steps: Seq<Step>)
    requires
        total(script),
    ensures
        !halted(script, steps),
    decreases steps.len(),
{
    if steps.len() > 0 {
        if let Script::Ask(request, next) = script {
            if request.answered_by(steps[0].reply) {
                lemma_total_never_halts(next(steps[0].reply), steps.drop_first());
            }
        }
    }
}

/// A revocation is carried out by the command to revoke, with the very request
/// of the child. The response names the class and the key of the request.
pub proof fn law_revoke_run(
    name: Seq<char>,
    child: Seq<char>,
    req: RevocationRequest,
    steps: Seq<Step>,
    res: Result<RevocationResponse, ErrorView>,
)
    requires
        ran(revoke_script(name, child, req), steps, res),
    ensures
        1 <= steps.len() <= 3,
        steps[0].request == RequestView::Latest(name),
        steps.len() > 1 ==> commanded(
            steps,
            1,
            CommandView::ChildRevokeKey { ca: name, child, req },
        ),
        steps.len() > 2 ==> kept(steps, 2, name),
        match res {
            Ok(response) => {
                &&& steps.len() == 3
                &&& faultless(steps, Missing::Unknown)
                &&& response.class_name == req.class_name
                &&& response.key == req.key
            },
            Err(error) => given_up(steps, Missing::Unknown, error),
        },
{
    let command = CommandView::ChildRevokeKey { ca: name, child, req };
    let execute = execute_script(name, Missing::Unknown, command, false);
    let (n, r) = lemma_ran_bind(execute, granted(revoked(req)), steps, res);
    assert(steps.take(n) =~= steps);
    lemma_execute_run(name, Missing::Unknown, command, false, steps, r);
}

/// The CA `name`, as it is now, has signed this message, and that is the
/// result; or it was given up.
pub open spec fn signed_by(
    steps: Seq<Step>,
    name: Seq<char>,
    msg: Message,
    res: Result<Bytes, ErrorView>,
) -> bool {
    &&& 1 <= steps.len() <= 2
    &&& steps[0].request == RequestView::Latest(name)
    &&& steps.len() > 1 ==> steps[1].request == RequestView::SignResponse(given(steps[0]), msg)
    &&& match res {
        Ok(signed) => steps.len() == 2 && steps[1].reply == Reply::Signed(Ok(signed)),
        Err(error) => given_up(steps, Missing::Store, error),
    }
}

proof fn lemma_wrap_run(
    name: Seq<char>,
    msg: Message,
    steps: Seq<Step>,
    res: Result<Bytes, ErrorView>,
)
    requires
        ran(wrap_script(name, msg), steps, res),
    ensures
        signed_by(steps, name, msg, res),
{
    reveal_with_fuel(reached, 4);
}

/// The answer to a query with these two names.
pub open spec fn answer_to(query: Message, res: Res) -> Message {
    Message { sender: query.sender, recipient: query.recipient, content: Content::Res(res) }
}

/// A message is first verified by the CA that it was sent to; a message that
/// is not is refused, and one that is no query is too. A query is carried out
/// as a call for the child that has sent it: to revoke, to list or to issue.
/// If that call fails, so does this one; otherwise the answer that is signed
/// holds the very result of that call.
pub proof fn law_rfc6492_run(
    name: Seq<char>,
    msg: SignedMessage,
    steps: Seq<Step>,
    res: Result<Bytes, ErrorView>,
)
    requires
        ran(rfc6492_script(name, msg), steps, res),
    ensures
        steps.len() > 0,
        steps[0].request == RequestView::Latest(name),
        steps.len() > 1 ==> steps[1].request == RequestView::Verify(given(steps[0]), msg),
        steps.len() == 1 ==> res is Err && given_up(steps, Missing::Store, res->Err_0),
        steps.len() > 1 ==> match steps[1].reply->Verified_0 {
            Err(_) => {
                &&& steps.len() == 2
                &&& res is Err
                &&& given_up(steps, Missing::Store, res->Err_0)
            },
            Ok(query) => match query.content {
                Content::Qry(Qry::Revoke(req)) => exists|
                    n: int,
                    r: Result<RevocationResponse, ErrorView>,
                |
                    {
                        &&& #[trigger] ran(
                            revoke_script(name, query.sender@, req),
                            steps.skip(2).take(n),
                            r,
                        )
                        &&& 0 <= n <= steps.len() - 2
                        &&& match r {
                            Ok(response) => signed_by(
                                steps.skip(2 + n),
                                name,
                                answer_to(query, Res::Revoke(response)),
                                res,
                            ),
                            Err(error) => n + 2 == steps.len() && res == Err::<Bytes, _>(error),
                        }
                    },
                Content::Qry(Qry::List) => name == TA_NAME@ && exists|
                    n: int,
                    r: Result<Entitlements, ErrorView>,
                |
                    {
                        &&& #[trigger] ran(
                            list_script(TA_NAME@, Missing::TrustAnchor, query.sender@),
                            steps.skip(2).take(n),
                            r,
                        )
                        &&& 0 <= n <= steps.len() - 2
                        &&& match r {
                            Ok(entitlements) => signed_by(
                                steps.skip(2 + n),
                                name,
                                answer_to(query, Res::List(entitlements)),
                                res,
                            ),
                            Err(error) => n + 2 == steps.len() && res == Err::<Bytes, _>(error),
                        }
                    },
                Content::Qry(Qry::Issue(req)) => name == TA_NAME@ && exists|
                    n: int,
                    r: Result<IssuanceResponse, ErrorView>,
                |
                    {
                        &&& #[trigger] ran(
                            issue_script(TA_NAME@, query.sender@, req),
                            steps.skip(2).take(n),
                            r,
                        )
                        &&& 0 <= n <= steps.len() - 2
                        &&& match r {
                            Ok(response) => signed_by(
                                steps.skip(2 + n),
                                name,
                                answer_to(query, Res::Issue(response)),
                                res,
                            ),
                            Err(error) => n + 2 == steps.len() && res == Err::<Bytes, _>(error),
                        }
                    },
                Content::Res(_) => {
                    &&& steps.len() == 2
                    &&& res == Err::<Bytes, _>(ErrorView::Custom("Unsupported RFC6492 message"@))
                },
            },
        },
{
    reveal_with_fuel(reached, 3);
    let tail = steps.skip(2);
    if steps.len() > 1 {
        assert(steps.drop_first().drop_first() =~= tail);
        if let Ok(query) = steps[1].reply->Verified_0 {
            assert(ran(answer_script(name, query), tail, res));
            match query.content {
                Content::Qry(Qry::Revoke(req)) => {
                    let call = revoke_script(name, query.sender@, req);
                    let wrap = wrap_revoke(name, query.sender, query.recipient);
                    let (n, r) = lemma_ran_bind(call, wrap, tail, res);
                    assert(tail.skip(n) =~= steps.skip(2 + n));
                    if let Ok(response) = r {
                        lemma_wrap_run(
                            name,
                            answer_to(query, Res::Revoke(response)),
                            tail.skip(n),
                            res,
                        );
                    }
                    assert(ran(call, tail.take(n), r));
                },
                Content::Qry(Qry::List) => {
                    let call = list_script(TA_NAME@, Missing::TrustAnchor, query.sender@);
                    let wrap = wrap_list(name, query.sender, query.recipient);
                    let (n, r) = lemma_ran_bind(call, wrap, tail, res);
                    assert(tail.skip(n) =~= steps.skip(2 + n));
                    if let Ok(response) = r {
                        lemma_wrap_run(
                            name,
                            answer_to(query, Res::List(response)),
                            tail.skip(n),
                            res,
                        );
                    }
                    assert(ran(call, tail.take(n), r));
                },
                Content::Qry(Qry::Issue(req)) => {
                    let call = issue_script(TA_NAME@, query.sender@, req);
                    let wrap = wrap_issue(name, query.sender, query.recipient);
                    let (n, r) = lemma_ran_bind(call, wrap, tail, res);
                    assert(tail.skip(n) =~= steps.skip(2 + n));
                    if let Ok(response) = r {
                        lemma_wrap_run(
                            name,
                            answer_to(query, Res::Issue(response)),
                            tail.skip(n),
                            res,
                        );
                    }
                    assert(ran(call, tail.take(n), r));
                },
                Content::Res(_) => {},
            }
        }
    }
}

/// To answer a message comes to a halt only at a query to list or to issue
/// that was verified: if the CA is not the trust anchor, or if the class is
/// not the default one.
pub proof fn law_rfc6492_halts(name: Seq<char>, msg: SignedMessage, steps: Seq<Step>)
    requires
        halted(rfc6492_script(name, msg), steps),
    ensures
        steps.len() >= 2,
        steps[1].reply matches Reply::Verified(Ok(query)) && match query.content {
            Content::Qry(Qry::List) => name != TA_NAME@,
            Content::Qry(Qry::Issue(req)) => name != TA_NAME@ || req.class_name@ != DFLT_CLASS@,
            _ => false,
        },
{
    reveal_with_fuel(reached, 3);
    let tail = steps.skip(2);
    if steps.len() > 1 {
        assert(steps.drop_first().drop_first() =~= tail);
        if let Ok(query) = steps[1].reply->Verified_0 {
            let child = query.sender@;
            assert(halted(answer_script(name, query), tail));
            match query.content {
                Content::Qry(Qry::Revoke(req)) => {
                    let call = revoke_script(name, child, req);
                    let wrap = wrap_revoke(name, query.sender, query.recipient);
                    let (n, r) = lemma_halted_bind(call, wrap, tail);
                    law_total_provisioning(name, Missing::Unknown, child, req);
                    lemma_total_never_halts(call, tail);
                    reveal_with_fuel(total, 3);
                    lemma_total_never_halts(wrap(r), tail.skip(n));
                },
                Content::Qry(Qry::List) => if name == TA_NAME@ {
                    let call = list_script(TA_NAME@, Missing::TrustAnchor, child);
                    let wrap = wrap_list(name, query.sender, query.recipient);
                    let (n, r) = lemma_halted_bind(call, wrap, tail);
                    reveal_with_fuel(total, 3);
                    lemma_total_never_halts(call, tail);
                    lemma_total_never_halts(wrap(r), tail.skip(n));
                },
                Content::Qry(Qry::Issue(req)) => if name == TA_NAME@ {
                    let call = issue_script(TA_NAME@, child, req);
                    let wrap = wrap_issue(name, query.sender, query.recipient);
                    let (n, r) = lemma_halted_bind(call, wrap, tail);
                    if halted(call, tail) {
                        law_issue_halts(TA_NAME@, child, req, tail);
                    } else {
                        reveal_with_fuel(total, 3);
                        lemma_total_never_halts(wrap(r), tail.skip(n));
                    }
                },
                Content::Res(_) => {},
            }
        }
    }
}

/// A certificate query that is answered is answered with exactly what the
/// trust anchor, once it has certified the child, says it has issued for the
/// class and the key of the query: nothing of it is changed.
pub proof fn law_issue_answer_is_what_was_issued(
    name: Seq<char>,
    msg: SignedMessage,
    query: Message,
    req: IssuanceRequest,
    steps: Seq<Step>,
    answer: Bytes,
)
    requires
        ran(rfc6492_script(name, msg), steps, Ok(answer)),
        steps[1].reply == Reply::Verified(Ok(query)),
        query.content == Content::Qry(Qry::Issue(req)),
    ensures
        steps.len() == 8,
        commanded(
            steps,
            3,
            CommandView::ChildCertify { ca: TA_NAME@, child: query.sender@, req },
        ),
        steps[5].request == RequestView::Issuance(
            given(steps[4]),
            query.sender@,
            req.class_name@,
            req.csr.public_key,
        ),
        steps[5].reply matches Reply::Issuance(Ok(response)) && steps[7].request
            == RequestView::SignResponse(
            given(steps[6]),
            Message {
                sender: query.sender,
                recipient: query.recipient,
                content: Content::Res(Res::Issue(response)),
            },
        ),
        steps[7].reply == Reply::Signed(Ok(answer)),
{
    let res = Ok::<Bytes, ErrorView>(answer);
    law_rfc6492_run(name, msg, steps, res);
    let call = issue_script(TA_NAME@, query.sender@, req);
    let tail = steps.skip(2);
    let (n, r) = choose|n: int, r: Result<IssuanceResponse, ErrorView>|
        {
            &&& #[trigger] ran(call, tail.take(n), r)
            &&& 0 <= n <= steps.len() - 2
            &&& match r {
                Ok(response) => signed_by(
                    steps.skip(2 + n),
                    name,
                    answer_to(query, Res::Issue(response)),
                    res,
                ),
                Err(error) => n + 2 == steps.len() && res == Err::<Bytes, _>(error),
            }
        };
    let part = tail.take(n);
    law_issue_run(TA_NAME@, query.sender@, req, part, r);
    assert(forall|i: int| 0 <= i < n ==> #[trigger] part[i] == steps[2 + i]);
    assert(part[0] == steps[2] && part[1] == steps[3] && part[2] == steps[4] && part[3]
        == steps[5]);
    let end = steps.skip(2 + n);
    assert(end[0] == steps[6] && end[1] == steps[7]);
}

/// A list query that is answered is answered with exactly the entitlements
/// that the trust anchor gives for the child that has sent it.
pub proof fn law_list_answer_is_what_was_given(
    name: Seq<char>,
    msg: SignedMessage,
    query: Message,
    steps: Seq<Step>,
    answer: Bytes,
)
    requires
        ran(rfc6492_script(name, msg), steps, Ok(answer)),
        steps[1].reply == Reply::Verified(Ok(query)),
        query.content == Content::Qry(Qry::List),
    ensures
        steps.len() == 6,
        steps[3].request == RequestView::Entitlements(given(steps[2]), query.sender@),
        steps[3].reply matches Reply::Entitlements(Ok(entitlements)) && steps[5].request
            == RequestView::SignResponse(
            given(steps[4]),
            Message {
                sender: query.sender,
                recipient: query.recipient,
                content: Content::Res(Res::List(entitlements)),
            },
        ),
        steps[5].reply == Reply::Signed(Ok(answer)),
{
    let res = Ok::<Bytes, ErrorView>(answer);
    law_rfc6492_run(name, msg, steps, res);
    let call = list_script(TA_NAME@, Missing::TrustAnchor, query.sender@);
    let tail = steps.skip(2);
    let (n, r) = choose|n: int, r: Result<Entitlements, ErrorView>|
        {
            &&& #[trigger] ran(call, tail.take(n), r)
            &&& 0 <= n <= steps.len() - 2
            &&& match r {
                Ok(entitlements) => signed_by(
                    steps.skip(2 + n),
                    name,
                    answer_to(query, Res::List(entitlements)),
                    res,
                ),
                Err(error) => n + 2 == steps.len() && res == Err::<Bytes, _>(error),
            }
        };
    let part = tail.take(n);
    law_list_run(TA_NAME@, Missing::TrustAnchor, query.sender@, part, r);
    assert(part[0] == steps[2] && part[1] == steps[3]);
    let end = steps.skip(2 + n);
    assert(end[0] == steps[4] && end[1] == steps[5]);
}

} // verus!
