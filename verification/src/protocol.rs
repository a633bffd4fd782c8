//! What holds of the messages that the server answers and of those that it
//! sends.
use crate::batch::apply_all_script;
use crate::certificates::{
    certify_all_script, certify_remote_log, certify_remote_rest, certify_remote_script,
    certify_rest, issue_incident,
};
use crate::dialogue::{Reply, RequestView};
use crate::entitlements::query_message;
use crate::error::ErrorView;
use crate::exchange::exchange_script;
use crate::laws::any_rule;
use crate::messages::{
    revoked, Content, Entitlements, IssuanceRequest, IssuanceResponse, IssuedCert, Message,
    ParentResponse, Qry, Res, RevocationRequest, RevocationResponse, SignedMessage, CONTENT_TYPE,
};
use crate::provisioning::{
    answer_script, certify_script, fetch_issued, granted, issue_script, list_script, response_only,
    revoke_script, rfc6492_script, wrap_issue, wrap_list, wrap_revoke, wrap_script, Certified,
};
use crate::revocations::{
    all_revoked, revoke_commands, revoke_embedded_script, revoke_incident, revoke_remote_log,
    revoke_remote_rest, revoke_remote_script, then_revoked,
};
use crate::script::{Script, Step};
use crate::store::{apply_script, execute_script, Missing, Settled};
use crate::types::{CertAuth, CommandView, KeyId, TA_NAME};
use bytes::Bytes;
use vstd::prelude::*;

verus! {

/// The command that a query of a child comes down to, if it is one that can
/// change the CA `name`.
pub open spec fn command_of(name: Seq<char>, query: Message) -> Option<CommandView> {
    match query.content {
        Content::Qry(Qry::Revoke(req)) => Some(
            CommandView::ChildRevokeKey { ca: name, child: query.sender@, req },
        ),
        Content::Qry(Qry::Issue(req)) => Some(
            CommandView::ChildCertify { ca: name, child: query.sender@, req },
        ),
        _ => None,
    }
}

/// The message answers the query: it has the query's two names in their
/// order, and is of its kind.
pub open spec fn answers(msg: Message, query: Message) -> bool {
    &&& msg.sender == query.sender
    &&& msg.recipient == query.recipient
    &&& match query.content {
        Content::Qry(Qry::Revoke(req)) => msg.content == Content::Res(Res::Revoke(revoked(req))),
        Content::Qry(Qry::List) => msg.content matches Content::Res(Res::List(_)),
        Content::Qry(Qry::Issue(_)) => msg.content matches Content::Res(Res::Issue(_)),
        Content::Res(_) => false,
    }
}

/// While a CA answers a signed message, it is loaded, and the message is
/// verified, before anything else. From then on everything is for the CA
/// `name` and for the child that has sent the query: its entitlements, its
/// certificates, the command that it asked for, and the answer to the query.
pub open spec fn answering(name: Seq<char>, msg: SignedMessage) -> spec_fn(
    Seq<Step>,
    RequestView,
) -> bool {
    |past: Seq<Step>, request: RequestView|
        if past.len() == 0 {
            request == RequestView::Latest(name)
        } else if past.len() == 1 {
            past[0].reply matches Reply::Ca(Ok(ca)) && request == RequestView::Verify(ca, msg)
        } else {
            past[1].reply matches Reply::Verified(Ok(query)) && match request {
                RequestView::Latest(ca) => ca == name,
                RequestView::Process(_, command) => Some(command) == command_of(name, query),
                RequestView::Update(ca, _, _) => ca == name,
                RequestView::Entitlements(_, child) => child == query.sender@,
                RequestView::Issuance(_, child, class_name, key) => {
                    &&& child == query.sender@
                    &&& query.content matches Content::Qry(Qry::Issue(req))
                        && class_name == req.class_name@ && key == req.csr.public_key
                },
                RequestView::SignResponse(_, response) => answers(response, query),
                _ => false,
            }
        }
}

/// What came of a signed message: if it was not verified, an error, and
/// nothing has been done; an answer only if it was, and what was signed then.
pub open spec fn answered() -> spec_fn(Seq<Step>, Result<Bytes, ErrorView>) -> bool {
    |past: Seq<Step>, res: Result<Bytes, ErrorView>|
        {
            &&& past.len() >= 2 ==> (past[1].reply matches Reply::Verified(Err(error)) ==> {
                &&& past.len() == 2
                &&& res == Err::<Bytes, _>(ErrorView::CertAuth(error@))
            })
            &&& res matches Ok(answer) ==> {
                &&& past.len() > 2
                &&& past.last().request is SignResponse
                &&& past.last().reply == Reply::Signed(Ok(answer))
            }
        }
}

/// The first two steps: the CA was loaded and has verified the query.
spec fn verified(past: Seq<Step>, query: Message) -> bool {
    past.len() >= 2 && past[1].reply == Reply::Verified(Ok(query))
}

/// What one part of the answer leaves behind.
spec fn still_verified<R>(query: Message) -> spec_fn(Seq<Step>, R) -> bool {
    |past: Seq<Step>, r: R| verified(past, query)
}

proof fn lemma_apply_answering(
    name: Seq<char>,
    msg: SignedMessage,
    query: Message,
    ca: CertAuth,
    command: CommandView,
    past: Seq<Step>,
)
    requires
        verified(past, query),
        command_of(name, query) == Some(command),
    ensures
        apply_script(name, ca, command, false).obeys(
            past,
            answering(name, msg),
            still_verified(query),
        ),
{
    reveal_with_fuel(Script::<_>::obeys, 3);
}

proof fn lemma_wrap_answering(
    name: Seq<char>,
    msg: SignedMessage,
    query: Message,
    response: Message,
    past: Seq<Step>,
)
    requires
        verified(past, query),
        answers(response, query),
    ensures
        wrap_script(name, response).obeys(past, answering(name, msg), answered()),
{
    reveal_with_fuel(Script::<_>::obeys, 3);
}

proof fn lemma_revoke_answering(
    name: Seq<char>,
    msg: SignedMessage,
    query: Message,
    req: RevocationRequest,
    past: Seq<Step>,
)
    requires
        verified(past, query),
        query.content == Content::Qry(Qry::Revoke(req)),
    ensures
        answer_script(name, query).obeys(past, answering(name, msg), answered()),
{
    let child = query.sender@;
    let rule = answering(name, msg);
    let command = CommandView::ChildRevokeKey { ca: name, child, req };
    let execute = execute_script(name, Missing::Unknown, command, false);
    let mid = |p: Seq<Step>, r: Result<RevocationResponse, ErrorView>|
        verified(p, query) && (r is Ok ==> r == Ok::<_, ErrorView>(revoked(req)));
    assert(execute.obeys(past, rule, still_verified(query))) by {
        let then = execute->Ask_1;
        let request = RequestView::Latest(name);
        assert forall|reply: Reply| request.answered_by(reply) implies (#[trigger] then(
            reply,
        )).obeys(past.push(Step { request, reply }), rule, still_verified(query)) by {
            if let Ok(ca) = reply->Ca_0 {
                lemma_apply_answering(
                    name,
                    msg,
                    query,
                    ca,
                    command,
                    past.push(Step { request, reply }),
                );
            }
        }
    }
    execute.lemma_obeys_bind(granted(revoked(req)), past, rule, still_verified(query), mid);
    let wrap = wrap_revoke(name, query.sender, query.recipient);
    assert forall|p: Seq<Step>, r: Result<RevocationResponse, ErrorView>|
        past.is_prefix_of(p) && #[trigger] mid(p, r) implies wrap(r).obeys(
        p,
        rule,
        answered(),
    ) by {
        if let Ok(response) = r {
            let message = Message {
                sender: query.sender,
                recipient: query.recipient,
                content: Content::Res(Res::Revoke(response)),
            };
            lemma_wrap_answering(name, msg, query, message, p);
        }
    }
    revoke_script(name, child, req).lemma_obeys_bind(wrap, past, rule, mid, answered());
}

proof fn lemma_list_answering(msg: SignedMessage, query: Message, past: Seq<Step>)
    requires
        verified(past, query),
        query.content == Content::Qry(Qry::List),
    ensures
        answer_script(TA_NAME@, query).obeys(past, answering(TA_NAME@, msg), answered()),
{
    let name = TA_NAME@;
    let rule = answering(name, msg);
    let list = list_script(name, Missing::TrustAnchor, query.sender@);
    let mid = still_verified::<Result<Entitlements, ErrorView>>(query);
    assert(list.obeys(past, rule, mid)) by {
        reveal_with_fuel(Script::<_>::obeys, 3);
    }
    let wrap = wrap_list(name, query.sender, query.recipient);
    assert forall|p: Seq<Step>, r: Result<Entitlements, ErrorView>|
        past.is_prefix_of(p) && #[trigger] mid(p, r) implies wrap(r).obeys(
        p,
        rule,
        answered(),
    ) by {
        if let Ok(entitlements) = r {
            let message = Message {
                sender: query.sender,
                recipient: query.recipient,
                content: Content::Res(Res::List(entitlements)),
            };
            lemma_wrap_answering(name, msg, query, message, p);
        }
    }
    list.lemma_obeys_bind(wrap, past, rule, mid, answered());
}

proof fn lemma_certify_answering(
    msg: SignedMessage,
    query: Message,
    req: IssuanceRequest,
    ca: CertAuth,
    past: Seq<Step>,
)
    requires
        verified(past, query),
        query.content == Content::Qry(Qry::Issue(req)),
    ensures
        certify_script(TA_NAME@, ca, query.sender@, req).bind(response_only()).obeys(
            past,
            answering(TA_NAME@, msg),
            still_verified(query),
        ),
{
    let name = TA_NAME@;
    let child = query.sender@;
    let rule = answering(name, msg);
    let command = CommandView::ChildCertify { ca: name, child, req };
    let apply = apply_script(name, ca, command, false);
    let fetch = fetch_issued(child, req.class_name@, req.csr.public_key);
    let mid = still_verified::<Result<Settled, ErrorView>>(query);
    let last = still_verified::<Result<Certified, ErrorView>>(query);
    lemma_apply_answering(name, msg, query, ca, command, past);
    assert forall|p: Seq<Step>, r: Result<Settled, ErrorView>|
        past.is_prefix_of(p) && #[trigger] mid(p, r) implies fetch(r).obeys(p, rule, last) by {
        reveal_with_fuel(Script::<_>::obeys, 2);
    }
    apply.lemma_obeys_bind(fetch, past, rule, mid, last);
    apply.bind(fetch).lemma_obeys_bind(
        response_only(),
        past,
        rule,
        last,
        still_verified::<Result<IssuanceResponse, ErrorView>>(query),
    );
}

proof fn lemma_issue_answering(
    msg: SignedMessage,
    query: Message,
    req: IssuanceRequest,
    past: Seq<Step>,
)
    requires
        verified(past, query),
        query.content == Content::Qry(Qry::Issue(req)),
    ensures
        answer_script(TA_NAME@, query).obeys(past, answering(TA_NAME@, msg), answered()),
{
    let name = TA_NAME@;
    let rule = answering(name, msg);
    let issue = issue_script(name, query.sender@, req);
    let mid = still_verified::<Result<IssuanceResponse, ErrorView>>(query);
    assert(issue.obeys(past, rule, mid)) by {
        let then = issue->Ask_1;
        let request = RequestView::Latest(name);
        assert forall|reply: Reply| request.answered_by(reply) implies (#[trigger] then(
            reply,
        )).obeys(past.push(Step { request, reply }), rule, mid) by {
            if let Ok(ca) = reply->Ca_0 {
                lemma_certify_answering(msg, query, req, ca, past.push(Step { request, reply }));
            }
        }
    }
    let wrap = wrap_issue(name, query.sender, query.recipient);
    assert forall|p: Seq<Step>, r: Result<IssuanceResponse, ErrorView>|
        past.is_prefix_of(p) && #[trigger] mid(p, r) implies wrap(r).obeys(
        p,
        rule,
        answered(),
    ) by {
        if let Ok(response) = r {
            let message = Message {
                sender: query.sender,
                recipient: query.recipient,
                content: Content::Res(Res::Issue(response)),
            };
            lemma_wrap_answering(name, msg, query, message, p);
        }
    }
    issue.lemma_obeys_bind(wrap, past, rule, mid, answered());
}

/// Nothing is done for a child before its message is verified, and then only
/// what the message asks for, for the child that has signed it. A message
/// that is not verified is refused with an error and changes nothing.
pub proof fn law_only_verified_messages_are_answered(name: Seq<char>, msg: SignedMessage)
    ensures
        rfc6492_script(name, msg).obeys(Seq::empty(), answering(name, msg), answered()),
{
    let rule = answering(name, msg);
    let script = rfc6492_script(name, msg);
    let then = script->Ask_1;
    let request = RequestView::Latest(name);
    let start = Seq::<Step>::empty();
    assert forall|reply: Reply| request.answered_by(reply) implies (#[trigger] then(reply)).obeys(
        start.push(Step { request, reply }),
        rule,
        answered(),
    ) by {
        let now = start.push(Step { request, reply });
        if let Ok(ca) = reply->Ca_0 {
            let next = then(reply)->Ask_1;
            let verify = RequestView::Verify(ca, msg);
            assert forall|answer: Reply| verify.answered_by(answer) implies (#[trigger] next(
                answer,
            )).obeys(now.push(Step { request: verify, reply: answer }), rule, answered()) by {
                let past = now.push(Step { request: verify, reply: answer });
                if let Ok(query) = answer->Verified_0 {
                    match query.content {
                        Content::Qry(Qry::Revoke(req)) => lemma_revoke_answering(
                            name,
                            msg,
                            query,
                            req,
                            past,
                        ),
                        Content::Qry(Qry::List) => if name == TA_NAME@ {
                            lemma_list_answering(msg, query, past);
                        },
                        Content::Qry(Qry::Issue(req)) => if name == TA_NAME@ {
                            lemma_issue_answering(msg, query, req, past);
                        },
                        Content::Res(_) => {},
                    }
                }
            }
        }
    }
}

/// The answer came from the parent: the query was signed with the key, what
/// came of that was posted to the parent, and what came back is a message
/// that is valid under the parent's identity certificate and holds the
/// answer.
pub open spec fn from_parent(
    past: Seq<Step>,
    key: KeyId,
    contact: ParentResponse,
    query: Message,
    res: Res,
) -> bool {
    &&& past.len() == 5
    &&& past[0].request == RequestView::Sign(key, query)
    &&& past[0].reply matches Reply::Signed(Ok(signed)) && past[1].request == RequestView::Post(
        contact.service_uri@.text(),
        CONTENT_TYPE@,
        signed,
    )
    &&& past[1].reply matches Reply::Posted(Ok(body)) && past[2].request == RequestView::Decode(
        body,
        false,
    )
    &&& past[2].reply matches Reply::Decoded(Ok(msg)) && {
        &&& past[3].request == RequestView::Validate(msg, contact.id_cert)
        &&& past[4].request == RequestView::Open(msg)
    }
    &&& past[3].reply matches Reply::Validated(Ok(_))
    &&& past[4].reply == Reply::Opened(Ok(res))
}

/// No answer is taken from a parent unless it is valid under the identity
/// certificate by which the parent is known. If the body that came back
/// cannot be read, or is not valid, it is logged.
pub proof fn law_answers_are_validated(key: KeyId, contact: ParentResponse, query: Message)
    ensures
        exchange_script(key, contact, query).obeys(
            Seq::empty(),
            any_rule(),
            |past: Seq<Step>, r: Result<Res, ErrorView>|
                match r {
                    Ok(res) => from_parent(past, key, contact, query, res),
                    Err(_) => past.len() > 2 ==> {
                        ||| past.last().request is Log
                        ||| past.last().reply matches Reply::Opened(Err(_))
                    },
                },
        ),
{
    reveal_with_fuel(Script::<_>::obeys, 6);
}

/// The parent has given this response, in a message that was opened.
pub open spec fn was_given(past: Seq<Step>, response: RevocationResponse) -> bool {
    exists|i: int|
        0 <= i < past.len() && (#[trigger] past[i]).reply == Reply::Opened(
            Ok(Res::Revoke(response)),
        )
}

/// It went well, with at most `most` responses, all of them given by the
/// parent.
pub open spec fn only_given(most: nat) -> spec_fn(
    Seq<Step>,
    Result<Seq<RevocationResponse>, ErrorView>,
) -> bool {
    |past: Seq<Step>, res: Result<Seq<RevocationResponse>, ErrorView>|
        match res {
            Ok(responses) => {
                &&& responses.len() <= most
                &&& forall|i: int|
                    0 <= i < responses.len() ==> was_given(past, #[trigger] responses[i])
            },
            Err(_) => false,
        }
}

proof fn lemma_given_later(past: Seq<Step>, later: Seq<Step>, responses: Seq<RevocationResponse>)
    requires
        past.is_prefix_of(later),
        forall|i: int| 0 <= i < responses.len() ==> was_given(past, #[trigger] responses[i]),
    ensures
        forall|i: int| 0 <= i < responses.len() ==> was_given(later, #[trigger] responses[i]),
{
    assert forall|i: int| 0 <= i < responses.len() implies was_given(
        later,
        #[trigger] responses[i],
    ) by {
        assert(was_given(past, responses[i]));
        let j = choose|j: int|
            0 <= j < past.len() && (#[trigger] past[j]).reply == Reply::Opened(
                Ok(Res::Revoke(responses[i])),
            );
        assert(later.subrange(0, past.len() as int)[j] == later[j]);
    }
}

proof fn lemma_revoke_remote(
    key: KeyId,
    contact: ParentResponse,
    requests: Seq<RevocationRequest>,
    done: Seq<RevocationResponse>,
    past: Seq<Step>,
)
    requires
        forall|i: int| 0 <= i < done.len() ==> was_given(past, #[trigger] done[i]),
    ensures
        revoke_remote_script(key, contact, requests, done).obeys(
            past,
            any_rule(),
            only_given(done.len() + requests.len()),
        ),
    decreases requests.len(),
{
    if requests.len() > 0 {
        let rest = requests.drop_first();
        let end = only_given(done.len() + requests.len());
        let exchange = exchange_script(
            key,
            contact,
            query_message(contact, Qry::Revoke(requests[0])),
        );
        let then = revoke_remote_rest(key, contact, rest, done);
        let mid = |p: Seq<Step>, r: Result<Res, ErrorView>|
            r matches Ok(res) ==> p.len() > 0 && p.last().reply == Reply::Opened(Ok(res));
        assert(exchange.obeys(past, any_rule(), mid)) by {
            reveal_with_fuel(Script::<_>::obeys, 6);
        }
        assert forall|p: Seq<Step>, r: Result<Res, ErrorView>|
            past.is_prefix_of(p) && #[trigger] mid(p, r) implies then(r).obeys(
            p,
            any_rule(),
            end,
        ) by {
            lemma_given_later(past, p, done);
            if let Ok(Res::Revoke(response)) = r {
                let more = done.push(response);
                assert(p[p.len() - 1] == p.last());
                lemma_revoke_remote(key, contact, rest, more, p);
            } else {
                let request = RequestView::Log(revoke_incident(r));
                let log = revoke_remote_log(revoke_incident(r), key, contact, rest, done);
                let next = log->Ask_1;
                assert forall|reply: Reply| request.answered_by(reply) implies (#[trigger] next(
                    reply,
                )).obeys(p.push(Step { request, reply }), any_rule(), end) by {
                    let now = p.push(Step { request, reply });
                    assert(p =~= now.subrange(0, p.len() as int));
                    lemma_given_later(p, now, done);
                    lemma_revoke_remote(key, contact, rest, done, now);
                    revoke_remote_script(key, contact, rest, done).lemma_obeys_weaker(
                        now,
                        any_rule(),
                        only_given(done.len() + rest.len()),
                        any_rule(),
                        end,
                    );
                }
            }
        }
        exchange.lemma_obeys_bind(then, past, any_rule(), mid, end);
    }
}

/// To send revocation requests to a parent with which messages are exchanged
/// never fails: what goes wrong with one request is logged, and the next one
/// is sent. Of each request comes at most one response, and each response is
/// one that the parent has given.
pub proof fn law_remote_revocations(
    key: KeyId,
    contact: ParentResponse,
    requests: Seq<RevocationRequest>,
)
    ensures
        revoke_remote_script(key, contact, requests, Seq::empty()).obeys(
            Seq::empty(),
            any_rule(),
            only_given(requests.len()),
        ),
{
    lemma_revoke_remote(key, contact, requests, Seq::empty(), Seq::empty());
}

/// A parent in the same server grants every revocation request, or the first
/// failure is reported.
pub proof fn law_embedded_revocations(
    parent: Seq<char>,
    child: Seq<char>,
    requests: Seq<RevocationRequest>,
    past: Seq<Step>,
)
    ensures
        revoke_embedded_script(parent, child, requests).obeys(
            past,
            any_rule(),
            |p: Seq<Step>, r: Result<Seq<RevocationResponse>, ErrorView>|
                r matches Ok(responses) ==> {
                    &&& responses.len() == requests.len()
                    &&& forall|i: int|
                        0 <= i < requests.len() ==> #[trigger] responses[i] == revoked(requests[i])
                },
        ),
{
    let end = |p: Seq<Step>, r: Result<Seq<RevocationResponse>, ErrorView>|
        r matches Ok(responses) ==> {
            &&& responses.len() == requests.len()
            &&& forall|i: int|
                0 <= i < requests.len() ==> #[trigger] responses[i] == revoked(requests[i])
        };
    let script = revoke_embedded_script(parent, child, requests);
    let then = script->Ask_1;
    let request = RequestView::Latest(parent);
    assert forall|reply: Reply| request.answered_by(reply) implies (#[trigger] then(reply)).obeys(
        past.push(Step { request, reply }),
        any_rule(),
        end,
    ) by {
        if let Ok(ca) = reply->Ca_0 {
            let now = past.push(Step { request, reply });
            let any = |p: Seq<Step>, r: Result<(), ErrorView>| true;
            let apply = apply_all_script(parent, ca, revoke_commands(parent, child, requests));
            apply.lemma_obeys_settled(now, any_rule(), any);
            apply.lemma_obeys_bind(
                then_revoked(all_revoked(requests)),
                now,
                any_rule(),
                any,
                end,
            );
        }
    }
}

/// The parent has issued this certificate, in a message that was opened.
pub open spec fn was_issued(past: Seq<Step>, cert: (String, IssuedCert)) -> bool {
    exists|i: int|
        0 <= i < past.len() && ((#[trigger] past[i]).reply matches Reply::Opened(
            Ok(Res::Issue(response)),
        ) && cert == (response.class_name, response.issued))
}

/// It went well, with at most `most` certificates, all of them issued by the
/// parent.
pub open spec fn only_issued(most: nat) -> spec_fn(
    Seq<Step>,
    Result<Seq<(String, IssuedCert)>, ErrorView>,
) -> bool {
    |past: Seq<Step>, res: Result<Seq<(String, IssuedCert)>, ErrorView>|
        match res {
            Ok(certs) => {
                &&& certs.len() <= most
                &&& forall|i: int| 0 <= i < certs.len() ==> was_issued(past, #[trigger] certs[i])
            },
            Err(_) => false,
        }
}

proof fn lemma_issued_later(past: Seq<Step>, later: Seq<Step>, certs: Seq<(String, IssuedCert)>)
    requires
        past.is_prefix_of(later),
        forall|i: int| 0 <= i < certs.len() ==> was_issued(past, #[trigger] certs[i]),
    ensures
        forall|i: int| 0 <= i < certs.len() ==> was_issued(later, #[trigger] certs[i]),
{
    assert forall|i: int| 0 <= i < certs.len() implies was_issued(
        later,
        #[trigger] certs[i],
    ) by {
        assert(was_issued(past, certs[i]));
        let j = choose|j: int|
            0 <= j < past.len() && ((#[trigger] past[j]).reply matches Reply::Opened(
                Ok(Res::Issue(response)),
            ) && certs[i] == (response.class_name, response.issued));
        assert(later.subrange(0, past.len() as int)[j] == later[j]);
    }
}

proof fn lemma_certify_remote(
    key: KeyId,
    contact: ParentResponse,
    requests: Seq<IssuanceRequest>,
    done: Seq<(String, IssuedCert)>,
    past: Seq<Step>,
)
    requires
        forall|i: int| 0 <= i < done.len() ==> was_issued(past, #[trigger] done[i]),
    ensures
        certify_remote_script(key, contact, requests, done).obeys(
            past,
            any_rule(),
            only_issued(done.len() + requests.len()),
        ),
    decreases requests.len(),
{
    if requests.len() > 0 {
        let rest = requests.drop_first();
        let end = only_issued(done.len() + requests.len());
        let exchange = exchange_script(
            key,
            contact,
            query_message(contact, Qry::Issue(requests[0])),
        );
        let then = certify_remote_rest(key, contact, rest, done);
        let mid = |p: Seq<Step>, r: Result<Res, ErrorView>|
            r matches Ok(res) ==> p.len() > 0 && p.last().reply == Reply::Opened(Ok(res));
        assert(exchange.obeys(past, any_rule(), mid)) by {
            reveal_with_fuel(Script::<_>::obeys, 6);
        }
        assert forall|p: Seq<Step>, r: Result<Res, ErrorView>|
            past.is_prefix_of(p) && #[trigger] mid(p, r) implies then(r).obeys(
            p,
            any_rule(),
            end,
        ) by {
            lemma_issued_later(past, p, done);
            if let Ok(Res::Issue(response)) = r {
                let more = done.push((response.class_name, response.issued));
                assert(p[p.len() - 1] == p.last());
                lemma_certify_remote(key, contact, rest, more, p);
            } else {
                let request = RequestView::Log(issue_incident(r));
                let log = certify_remote_log(issue_incident(r), key, contact, rest, done);
                let next = log->Ask_1;
                assert forall|reply: Reply| request.answered_by(reply) implies (#[trigger] next(
                    reply,
                )).obeys(p.push(Step { request, reply }), any_rule(), end) by {
                    let now = p.push(Step { request, reply });
                    assert(p =~= now.subrange(0, p.len() as int));
                    lemma_issued_later(p, now, done);
                    lemma_certify_remote(key, contact, rest, done, now);
                    certify_remote_script(key, contact, rest, done).lemma_obeys_weaker(
                        now,
                        any_rule(),
                        only_issued(done.len() + rest.len()),
                        any_rule(),
                        end,
                    );
                }
            }
        }
        exchange.lemma_obeys_bind(then, past, any_rule(), mid, end);
    }
}

/// To send certificate requests to a parent with which messages are exchanged
/// never fails: what goes wrong with one request is logged, and the next one
/// is sent. Of each request comes at most one certificate, and each is one
/// that the parent has issued, in the class that the parent has named.
pub proof fn law_remote_certificates(
    key: KeyId,
    contact: ParentResponse,
    requests: Seq<IssuanceRequest>,
)
    ensures
        certify_remote_script(key, contact, requests, Seq::empty()).obeys(
            Seq::empty(),
            any_rule(),
            only_issued(requests.len()),
        ),
{
    lemma_certify_remote(key, contact, requests, Seq::empty(), Seq::empty());
}

/// After those that were there, one certificate for each request, in the
/// class of the request.
spec fn one_each(requests: Seq<IssuanceRequest>, done: Seq<(String, IssuedCert)>) -> spec_fn(
    Seq<Step>,
    Result<Seq<(String, IssuedCert)>, ErrorView>,
) -> bool {
    |past: Seq<Step>, res: Result<Seq<(String, IssuedCert)>, ErrorView>|
        res matches Ok(certs) ==> {
            &&& certs.len() == done.len() + requests.len()
            &&& forall|i: int| 0 <= i < done.len() ==> #[trigger] certs[i] == done[i]
            &&& forall|i: int|
                done.len() <= i < certs.len() ==> (#[trigger] certs[i]).0 == requests[i
                    - done.len()].class_name
        }
}

proof fn lemma_certify_all(
    parent: Seq<char>,
    ca: CertAuth,
    child: Seq<char>,
    requests: Seq<IssuanceRequest>,
    done: Seq<(String, IssuedCert)>,
    past: Seq<Step>,
)
    ensures
        certify_all_script(parent, ca, child, requests, done).obeys(
            past,
            any_rule(),
            one_each(requests, done),
        ),
    decreases requests.len(),
{
    if requests.len() > 0 {
        let rest = requests.drop_first();
        let class_name = requests[0].class_name;
        let any = |p: Seq<Step>, r: Result<Certified, ErrorView>| true;
        let certify = certify_script(parent, ca, child, requests[0]);
        let then = certify_rest(parent, child, class_name, rest, done);
        certify.lemma_obeys_settled(past, any_rule(), any);
        assert forall|p: Seq<Step>, r: Result<Certified, ErrorView>|
            past.is_prefix_of(p) && #[trigger] any(p, r) implies then(r).obeys(
            p,
            any_rule(),
            one_each(requests, done),
        ) by {
            if let Ok(certified) = r {
                let more = done.push((class_name, certified.response.issued));
                lemma_certify_all(parent, certified.ca, child, rest, more, p);
                assert forall|q: Seq<Step>, x: Result<Seq<(String, IssuedCert)>, ErrorView>|
                    p.is_prefix_of(q) && #[trigger] one_each(rest, more)(q, x) implies one_each(
                    requests,
                    done,
                )(q, x) by {
                    if let Ok(certs) = x {
                        assert(certs[done.len() as int] == more[done.len() as int]);
                        assert forall|i: int| 0 <= i < done.len() implies #[trigger] certs[i]
                            == done[i] by {
                            assert(certs[i] == more[i]);
                        }
                    }
                }
                certify_all_script(parent, certified.ca, child, rest, more).lemma_obeys_weaker(
                    p,
                    any_rule(),
                    one_each(rest, more),
                    any_rule(),
                    one_each(requests, done),
                );
            }
        }
        certify.lemma_obeys_bind(then, past, any_rule(), any, one_each(requests, done));
    }
}

/// A parent in the same server issues one certificate for each request, in
/// the order and in the classes of the requests, or the first failure is
/// reported.
pub proof fn law_embedded_certificates(
    parent: Seq<char>,
    ca: CertAuth,
    child: Seq<char>,
    requests: Seq<IssuanceRequest>,
    past: Seq<Step>,
)
    ensures
        certify_all_script(parent, ca, child, requests, Seq::empty()).obeys(
            past,
            any_rule(),
            |p: Seq<Step>, r: Result<Seq<(String, IssuedCert)>, ErrorView>|
                r matches Ok(certs) ==> {
                    &&& certs.len() == requests.len()
                    &&& forall|i: int|
                        0 <= i < requests.len() ==> (#[trigger] certs[i]).0
                            == requests[i].class_name
                },
        ),
{
    let end = |p: Seq<Step>, r: Result<Seq<(String, IssuedCert)>, ErrorView>|
        r matches Ok(certs) ==> {
            &&& certs.len() == requests.len()
            &&& forall|i: int|
                0 <= i < requests.len() ==> (#[trigger] certs[i]).0 == requests[i].class_name
        };
    lemma_certify_all(parent, ca, child, requests, Seq::empty(), past);
    certify_all_script(parent, ca, child, requests, Seq::empty()).lemma_obeys_weaker(
        past,
        any_rule(),
        one_each(requests, Seq::empty()),
        any_rule(),
        end,
    );
}

} // verus!
