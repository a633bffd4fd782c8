//! What comes of the operations between a CA and its parents: in every run,
//! what is asked for and what the result is.
use crate::batch::{apply_all_script, apply_rest};
use crate::certificates::{certify_remote_rest, certify_remote_script};
use crate::dialogue::{Reply, RequestView};
use crate::entitlements::{
    entitlements_script, list_from_script, list_remote_script, query_message, then_listed,
};
use crate::error::{ErrorView, IncidentView};
use crate::exchange::exchange_script;
use crate::messages::{
    Content, Entitlements, IssuanceRequest, IssuedCert, Message, ParentResponse, Qry, Res,
    RevocationRequest, RevocationResponse, ServiceUri, CONTENT_TYPE,
};
use crate::outcomes::lemma_faults_join;
use crate::outside::{base64_text, octets};
use crate::provisioning::list_script;
use crate::revocations::{revoke_remote_rest, revoke_remote_script};
use crate::runs::{faultless, given, given_up, kept, lemma_first_step, lemma_ran_bind, ran, reached};
use crate::script::Step;
use crate::store::{apply_script, Missing, Settled};
use crate::types::{CertAuth, CommandView, KeyId, ParentCaContact};
use vstd::prelude::*;

verus! {

/// In an exchange, the query is signed with the key, and what is signed is
/// posted to the service URI of the parent. What comes back is read as a
/// signed message, not strictly, is validated under the identity certificate
/// of the parent, and is then opened: that is the answer. The first failure
/// ends it. An answer that cannot be read, or is not valid, is logged as it
/// came, in Base64, before the failure is reported.
pub proof fn law_exchange_run(
    key: KeyId,
    contact: ParentResponse,
    query: Message,
    steps: Seq<Step>,
    res: Result<Res, ErrorView>,
)
    requires
        ran(exchange_script(key, contact, query), steps, res),
    ensures
        1 <= steps.len() <= 5,
        steps[0].request == RequestView::Sign(key, query),
        steps.len() > 1 ==> (steps[0].reply matches Reply::Signed(Ok(signed)) && steps[1].request
            == RequestView::Post(
            match contact.service_uri {
                ServiceUri::Https(uri) => uri@,
                ServiceUri::Http(text) => text@,
            },
            CONTENT_TYPE@,
            signed,
        )),
        steps.len() > 2 ==> (steps[1].reply matches Reply::Posted(Ok(body)) && {
            &&& steps[2].request == RequestView::Decode(body, false)
            &&& steps.len() > 3
            &&& match steps[2].reply->Decoded_0 {
                Ok(msg) => {
                    &&& steps.len() == 5
                    &&& steps[3].request == RequestView::Validate(msg, contact.id_cert)
                    &&& steps[4].request == match steps[3].reply->Validated_0 {
                        Ok(_) => RequestView::Open(msg),
                        Err(_) => RequestView::Log(
                            IncidentView::InvalidResponse(base64_text(octets(body))),
                        ),
                    }
                },
                Err(_) => {
                    &&& steps.len() == 4
                    &&& steps[3].request == RequestView::Log(
                        IncidentView::UnparsableResponse(base64_text(octets(body))),
                    )
                },
            }
        }),
        match res {
            Ok(answer) => steps.len() == 5 && steps[4].reply == Reply::Opened(Ok(answer)),
            Err(error) => if steps.len() == 1 {
                steps[0].reply matches Reply::Signed(Err(text)) && error == ErrorView::Custom(
                    text@,
                )
            } else if steps.len() == 2 {
                steps[1].reply matches Reply::Posted(Err(text)) && error
                    == ErrorView::HttpClientError(text@)
            } else if steps.len() == 4 {
                steps[2].reply matches Reply::Decoded(Err(text)) && error == ErrorView::Custom(
                    text@,
                )
            } else if steps[4].request is Log {
                steps[3].reply matches Reply::Validated(Err(text)) && error == ErrorView::Custom(
                    text@,
                )
            } else {
                steps[4].reply matches Reply::Opened(Err(text)) && error == ErrorView::Custom(
                    text@,
                )
            },
        },
{
    reveal_with_fuel(reached, 7);
}

/// The message in which the child that the contact names puts a query to the
/// parent that it names.
pub open spec fn asked_of(contact: ParentResponse, query: Qry) -> Message {
    Message {
        sender: contact.child_handle.name,
        recipient: contact.parent_handle.name,
        content: Content::Qry(query),
    }
}

/// A CA learns of its entitlements from the parent: if the parent is in this
/// server, as by a call to list them for the CA; otherwise by the answer to a
/// list query in an exchange, signed with the identity key of the CA. Any
/// other answer is a failure.
pub proof fn law_entitlements_run(
    name: Seq<char>,
    parent: Seq<char>,
    steps: Seq<Step>,
    res: Result<Entitlements, ErrorView>,
)
    requires
        ran(entitlements_script(name, parent), steps, res),
    ensures
        steps.len() > 0,
        steps[0].request == RequestView::Latest(name),
        steps[0].reply matches Reply::Ca(Err(_)) ==> {
            &&& steps.len() == 1
            &&& res == Err::<Entitlements, _>(ErrorView::UnknownCa(name))
        },
        steps[0].reply matches Reply::Ca(Ok(ca)) ==> {
            &&& steps.len() > 1
            &&& steps[1].request == RequestView::Contact(ca, parent)
            &&& match steps[1].reply->Contact_0 {
                Err(text) => {
                    &&& steps.len() == 2
                    &&& res == Err::<Entitlements, _>(ErrorView::CertAuth(text@))
                },
                Ok(ParentCaContact::Embedded) => ran(
                    list_script(parent, Missing::Store, name),
                    steps.skip(2),
                    res,
                ),
                Ok(ParentCaContact::Rfc6492(contact)) => {
                    &&& steps.len() > 2
                    &&& steps[2].request == RequestView::Latest(name)
                    &&& match steps[2].reply->Ca_0 {
                        Err(text) => {
                            &&& steps.len() == 3
                            &&& res == Err::<Entitlements, _>(
                                ErrorView::AggregateStoreError(text@),
                            )
                        },
                        Ok(ca) => exists|r: Result<Res, ErrorView>|
                            {
                                &&& #[trigger] ran(
                                    exchange_script(
                                        ca.id_key,
                                        contact,
                                        asked_of(contact, Qry::List),
                                    ),
                                    steps.skip(3),
                                    r,
                                )
                                &&& res == match r {
                                    Ok(Res::List(entitlements)) => Ok(entitlements),
                                    Ok(Res::NotPerformed(response)) => Err(
                                        ErrorView::Custom("Not performed: "@ + response.text@),
                                    ),
                                    Ok(_) => Err(
                                        ErrorView::Custom(
                                            "Got unexpected response to list query"@,
                                        ),
                                    ),
                                    Err(error) => Err(error),
                                }
                            },
                    }
                },
            }
        },
{
    lemma_first_step(entitlements_script(name, parent), steps, res);
    match steps[0].reply->Ca_0 {
        Ok(ca) => {
            let second = steps.skip(1);
            lemma_first_step(list_from_script(name, ca, parent), second, res);
            assert(second[0] == steps[1]);
            let third = steps.skip(2);
            assert(second.skip(1) =~= third);
            match steps[1].reply->Contact_0 {
                Ok(ParentCaContact::Rfc6492(contact)) => {
                    lemma_first_step(list_remote_script(name, contact), third, res);
                    assert(third[0] == steps[2]);
                    let last = steps.skip(3);
                    assert(third.skip(1) =~= last);
                    match steps[2].reply->Ca_0 {
                        Ok(ca) => {
                            let query = query_message(contact, Qry::List);
                            let exchange = exchange_script(ca.id_key, contact, query);
                            let (n, r) = lemma_ran_bind(exchange, then_listed(), last, res);
                            assert(last.take(n) =~= last);
                            assert(ran(exchange, last, r));
                        },
                        Err(_) => {
                            assert(last.len() == 0);
                        },
                    }
                },
                Ok(ParentCaContact::Embedded) => {},
                Err(_) => {
                    assert(third.len() == 0);
                },
            }
        },
        Err(_) => {
            assert(steps.skip(1).len() == 0);
        },
    }
}

/// The `k`-th command was processed, first in the state `ca` and later in the
/// one that the last command has led to, and what came of it was stored; as
/// far as it has come to that.
pub open spec fn carried_out(
    steps: Seq<Step>,
    k: int,
    name: Seq<char>,
    ca: CertAuth,
    command: CommandView,
) -> bool {
    &&& 2 * k < steps.len() ==> steps[2 * k].request == RequestView::Process(
        if k == 0 {
            ca
        } else {
            given(steps[2 * k - 1])
        },
        command,
    )
    &&& 2 * k + 1 < steps.len() ==> kept(steps, 2 * k + 1, name)
}

/// A CA has processed these commands, in order: the first in the state `ca`,
/// each other in the state that the one before has led to. What came of each
/// was stored at once. The first failure has ended it.
pub open spec fn in_order(
    steps: Seq<Step>,
    name: Seq<char>,
    ca: CertAuth,
    commands: Seq<CommandView>,
    res: Result<(), ErrorView>,
) -> bool {
    &&& steps.len() <= 2 * commands.len()
    &&& forall|k: int|
        0 <= k < commands.len() ==> carried_out(steps, k, name, ca, #[trigger] commands[k])
    &&& match res {
        Ok(_) => steps.len() == 2 * commands.len() && faultless(steps, Missing::Store),
        Err(error) => given_up(steps, Missing::Store, error),
    }
}

proof fn lemma_in_order_next(
    first: Seq<Step>,
    tail: Seq<Step>,
    name: Seq<char>,
    ca: CertAuth,
    commands: Seq<CommandView>,
    res: Result<(), ErrorView>,
)
    requires
        commands.len() > 0,
        first.len() == 2,
        first[0].request == RequestView::Process(ca, commands[0]),
        kept(first, 1, name),
        faultless(first, Missing::Store),
        in_order(tail, name, given(first[1]), commands.drop_first(), res),
    ensures
        in_order(first + tail, name, ca, commands, res),
{
    let steps = first + tail;
    let rest = commands.drop_first();
    let state = given(first[1]);
    assert forall|k: int| 0 <= k < commands.len() implies carried_out(
        steps,
        k,
        name,
        ca,
        #[trigger] commands[k],
    ) by {
        if k > 0 {
            let j = k - 1;
            assert(rest[j] == commands[k]);
            assert(carried_out(tail, j, name, state, rest[j]));
            if 2 * k < steps.len() {
                assert(steps[2 * k] == tail[2 * j]);
                assert(steps[2 * k - 1] == if k == 1 {
                    first[1]
                } else {
                    tail[2 * j - 1]
                });
            }
            if 2 * k + 1 < steps.len() {
                assert(steps[2 * k + 1] == tail[2 * j + 1]);
            }
        } else {
            assert(steps[0] == first[0]);
            assert(steps[1] == first[1]);
        }
    }
    lemma_faults_join(first, tail, Missing::Store);
}

pub proof fn lemma_apply_all_run(
    name: Seq<char>,
    ca: CertAuth,
    commands: Seq<CommandView>,
    steps: Seq<Step>,
    res: Result<(), ErrorView>,
)
    requires
        ran(apply_all_script(name, ca, commands), steps, res),
    ensures
        in_order(steps, name, ca, commands, res),
    decreases commands.len(),
{
    if commands.len() > 0 {
        let rest = commands.drop_first();
        let apply = apply_script(name, ca, commands[0], false);
        let (n, r) = lemma_ran_bind(apply, apply_rest(name, rest), steps, res);
        let first = steps.take(n);
        let tail = steps.skip(n);
        assert(first + tail =~= steps);
        lemma_apply_run(name, ca, commands[0], first, r);
        match r {
            Ok(settled) => {
                lemma_apply_all_run(name, settled.ca, rest, tail, res);
                lemma_in_order_next(first, tail, name, ca, commands, res);
            },
            Err(error) => {
                assert(tail.len() == 0);
                assert(first =~= steps);
            },
        }
    }
}

/// What comes of one command that is always stored, in the state `ca`.
proof fn lemma_apply_run(
    name: Seq<char>,
    ca: CertAuth,
    command: CommandView,
    steps: Seq<Step>,
    res: Result<Settled, ErrorView>,
)
    requires
        ran(apply_script(name, ca, command, false), steps, res),
    ensures
        1 <= steps.len() <= 2,
        steps[0].request == RequestView::Process(ca, command),
        steps.len() > 1 ==> kept(steps, 1, name),
        match res {
            Ok(settled) => {
                &&& steps.len() == 2
                &&& faultless(steps, Missing::Store)
                &&& settled.ca == given(steps[1])
            },
            Err(error) => given_up(steps, Missing::Store, error),
        },
{
    reveal_with_fuel(reached, 4);
}

/// The queries were put to the parent one after the other, each in an exchange
/// of its own, with these answers. `incident` says what is logged of an answer
/// that does not fit, after which the next query has its turn.
pub open spec fn in_turn(
    key: KeyId,
    contact: ParentResponse,
    queries: Seq<Qry>,
    incident: spec_fn(Result<Res, ErrorView>) -> Option<IncidentView>,
    steps: Seq<Step>,
    answers: Seq<Result<Res, ErrorView>>,
) -> bool
    decreases queries.len(),
{
    &&& answers.len() == queries.len()
    &&& if queries.len() == 0 {
        steps.len() == 0
    } else {
        exists|n: int|
            {
                &&& #[trigger] ran(
                    exchange_script(key, contact, asked_of(contact, queries[0])),
                    steps.take(n),
                    answers[0],
                )
                &&& 0 <= n <= steps.len()
                &&& match incident(answers[0]) {
                    None => in_turn(
                        key,
                        contact,
                        queries.drop_first(),
                        incident,
                        steps.skip(n),
                        answers.drop_first(),
                    ),
                    Some(logged) => {
                        &&& n < steps.len()
                        &&& steps[n].request == RequestView::Log(logged)
                        &&& steps[n].reply is Logged
                        &&& in_turn(
                            key,
                            contact,
                            queries.drop_first(),
                            incident,
                            steps.skip(n + 1),
                            answers.drop_first(),
                        )
                    },
                }
            }
    }
}

/// What is logged of an answer to a revocation query, if it is no revocation.
pub open spec fn unfit_for_revoke() -> spec_fn(Result<Res, ErrorView>) -> Option<IncidentView> {
    |answer: Result<Res, ErrorView>|
        match answer {
            Ok(Res::Revoke(_)) => None,
            Ok(Res::NotPerformed(response)) => Some(IncidentView::NotPerformed(response)),
            Ok(Res::List(_)) => Some(IncidentView::ListForRevoke),
            Ok(Res::Issue(_)) => Some(IncidentView::IssueForRevoke),
            Err(error) => Some(IncidentView::SendingRevoke(error)),
        }
}

/// What is logged of an answer to a certificate query, if it is no
/// certificate.
pub open spec fn unfit_for_issue() -> spec_fn(Result<Res, ErrorView>) -> Option<IncidentView> {
    |answer: Result<Res, ErrorView>|
        match answer {
            Ok(Res::Issue(_)) => None,
            Ok(Res::NotPerformed(response)) => Some(IncidentView::NotPerformed(response)),
            Ok(Res::List(_)) => Some(IncidentView::ListForIssue),
            Ok(Res::Revoke(_)) => Some(IncidentView::RevokeForIssue),
            Err(error) => Some(IncidentView::SendingCsr(error)),
        }
}

/// The revocations among the answers, in order.
pub open spec fn revocations_in(answers: Seq<Result<Res, ErrorView>>) -> Seq<RevocationResponse>
    decreases answers.len(),
{
    if answers.len() == 0 {
        Seq::empty()
    } else {
        let rest = revocations_in(answers.drop_first());
        match answers[0] {
            Ok(Res::Revoke(response)) => seq![response] + rest,
            _ => rest,
        }
    }
}

/// The certificates among the answers, in order, with the classes that the
/// parent has named.
pub open spec fn certificates_in(answers: Seq<Result<Res, ErrorView>>) -> Seq<(String, IssuedCert)>
    decreases answers.len(),
{
    if answers.len() == 0 {
        Seq::empty()
    } else {
        let rest = certificates_in(answers.drop_first());
        match answers[0] {
            Ok(Res::Issue(response)) => seq![(response.class_name, response.issued)] + rest,
            _ => rest,
        }
    }
}

/// The queries that ask for these revocations.
pub open spec fn revoke_queries(requests: Seq<RevocationRequest>) -> Seq<Qry> {
    Seq::new(requests.len(), |i: int| Qry::Revoke(requests[i]))
}

/// The queries that ask for these certificates.
pub open spec fn issue_queries(requests: Seq<IssuanceRequest>) -> Seq<Qry> {
    Seq::new(requests.len(), |i: int| Qry::Issue(requests[i]))
}

proof fn lemma_in_turn_next(
    key: KeyId,
    contact: ParentResponse,
    queries: Seq<Qry>,
    incident: spec_fn(Result<Res, ErrorView>) -> Option<IncidentView>,
    steps: Seq<Step>,
    n: int,
    r: Result<Res, ErrorView>,
    rest: Seq<Result<Res, ErrorView>>,
)
    requires
        queries.len() > 0,
        0 <= n <= steps.len(),
        ran(
            exchange_script(key, contact, asked_of(contact, queries[0])),
            steps.take(n),
            r,
        ),
        match incident(r) {
            None => in_turn(
                key,
                contact,
                queries.drop_first(),
                incident,
                steps.skip(n),
                rest,
            ),
            Some(logged) => {
                &&& n < steps.len()
                &&& steps[n].request == RequestView::Log(logged)
                &&& steps[n].reply is Logged
                &&& in_turn(
                    key,
                    contact,
                    queries.drop_first(),
                    incident,
                    steps.skip(n + 1),
                    rest,
                )
            },
        },
    ensures
        in_turn(key, contact, queries, incident, steps, seq![r] + rest),
{
    let answers = seq![r] + rest;
    assert(answers.drop_first() =~= rest);
    assert(answers[0] == r);
}

/// Every revocation request is sent, in order, and the responses are those
/// that the parent has given, in order, no more and no less. What does not fit
/// is logged. It never fails.
pub proof fn law_remote_revocations_run(
    key: KeyId,
    contact: ParentResponse,
    requests: Seq<RevocationRequest>,
    done: Seq<RevocationResponse>,
    steps: Seq<Step>,
    res: Result<Seq<RevocationResponse>, ErrorView>,
) -> (answers: Seq<Result<Res, ErrorView>>)
    requires
        ran(revoke_remote_script(key, contact, requests, done), steps, res),
    ensures
        in_turn(key, contact, revoke_queries(requests), unfit_for_revoke(), steps, answers),
        res == Ok::<_, ErrorView>(done + revocations_in(answers)),
    decreases requests.len(),
{
    let queries = revoke_queries(requests);
    if requests.len() == 0 {
        let answers = Seq::<Result<Res, ErrorView>>::empty();
        assert(done + revocations_in(answers) =~= done);
        answers
    } else {
        let rest = requests.drop_first();
        assert(queries.drop_first() =~= revoke_queries(rest));
        let exchange = exchange_script(key, contact, asked_of(contact, queries[0]));
        let (n, r) = lemma_ran_bind(
            exchange,
            revoke_remote_rest(key, contact, rest, done),
            steps,
            res,
        );
        let tail = steps.skip(n);
        if let Ok(Res::Revoke(response)) = r {
            let more = done.push(response);
            let left = law_remote_revocations_run(key, contact, rest, more, tail, res);
            lemma_in_turn_next(key, contact, queries, unfit_for_revoke(), steps, n, r, left);
            let answers = seq![r] + left;
            assert(answers.drop_first() =~= left);
            assert(more + revocations_in(left) =~= done + revocations_in(answers));
            answers
        } else {
            assert(tail.len() > 0);
            assert(tail[0] == steps[n]);
            assert(tail.drop_first() =~= steps.skip(n + 1));
            let left = law_remote_revocations_run(
                key,
                contact,
                rest,
                done,
                steps.skip(n + 1),
                res,
            );
            lemma_in_turn_next(key, contact, queries, unfit_for_revoke(), steps, n, r, left);
            let answers = seq![r] + left;
            assert(answers.drop_first() =~= left);
            answers
        }
    }
}

/// Every certificate request is sent, in order, and the certificates are those
/// that the parent has issued, in order, no more and no less. What does not
/// fit is logged. It never fails.
pub proof fn law_remote_certificates_run(
    key: KeyId,
    contact: ParentResponse,
    requests: Seq<IssuanceRequest>,
    done: Seq<(String, IssuedCert)>,
    steps: Seq<Step>,
    res: Result<Seq<(String, IssuedCert)>, ErrorView>,
) -> (answers: Seq<Result<Res, ErrorView>>)
    requires
        ran(certify_remote_script(key, contact, requests, done), steps, res),
    ensures
        in_turn(key, contact, issue_queries(requests), unfit_for_issue(), steps, answers),
        res == Ok::<_, ErrorView>(done + certificates_in(answers)),
    decreases requests.len(),
{
    let queries = issue_queries(requests);
    if requests.len() == 0 {
        let answers = Seq::<Result<Res, ErrorView>>::empty();
        assert(done + certificates_in(answers) =~= done);
        answers
    } else {
        let rest = requests.drop_first();
        assert(queries.drop_first() =~= issue_queries(rest));
        let exchange = exchange_script(key, contact, asked_of(contact, queries[0]));
        let (n, r) = lemma_ran_bind(
            exchange,
            certify_remote_rest(key, contact, rest, done),
            steps,
            res,
        );
        let tail = steps.skip(n);
        if let Ok(Res::Issue(response)) = r {
            let more = done.push((response.class_name, response.issued));
            let left = law_remote_certificates_run(key, contact, rest, more, tail, res);
            lemma_in_turn_next(key, contact, queries, unfit_for_issue(), steps, n, r, left);
            let answers = seq![r] + left;
            assert(answers.drop_first() =~= left);
            assert(more + certificates_in(left) =~= done + certificates_in(answers));
            answers
        } else {
            assert(tail.len() > 0);
            assert(tail[0] == steps[n]);
            assert(tail.drop_first() =~= steps.skip(n + 1));
            let left = law_remote_certificates_run(
                key,
                contact,
                rest,
                done,
                steps.skip(n + 1),
                res,
            );
            lemma_in_turn_next(key, contact, queries, unfit_for_issue(), steps, n, r, left);
            let answers = seq![r] + left;
            assert(answers.drop_first() =~= left);
            answers
        }
    }
}

/// The messages that were signed with a key, in order.
pub open spec fn signed(steps: Seq<Step>) -> Seq<(KeyId, Message)>
    decreases steps.len(),
{
    if steps.len() == 0 {
        Seq::empty()
    } else {
        match steps[0].request {
            RequestView::Sign(key, msg) => seq![(key, msg)] + signed(steps.drop_first()),
            _ => signed(steps.drop_first()),
        }
    }
}

/// The answers that were opened, in order.
pub open spec fn opened(steps: Seq<Step>) -> Seq<Res>
    decreases steps.len(),
{
    if steps.len() == 0 {
        Seq::empty()
    } else {
        match steps[0].reply {
            Reply::Opened(Ok(res)) => seq![res] + opened(steps.drop_first()),
            _ => opened(steps.drop_first()),
        }
    }
}

/// The answers that were got, in order.
pub open spec fn got(answers: Seq<Result<Res, ErrorView>>) -> Seq<Res>
    decreases answers.len(),
{
    if answers.len() == 0 {
        Seq::empty()
    } else {
        match answers[0] {
            Ok(res) => seq![res] + got(answers.drop_first()),
            Err(_) => got(answers.drop_first()),
        }
    }
}

proof fn lemma_signed_join(first: Seq<Step>, rest: Seq<Step>)
    ensures
        signed(first + rest) == signed(first) + signed(rest),
        opened(first + rest) == opened(first) + opened(rest),
    decreases first.len(),
{
    let all = first + rest;
    if first.len() == 0 {
        assert(all =~= rest);
        assert(signed(first) + signed(rest) =~= signed(rest));
        assert(opened(first) + opened(rest) =~= opened(rest));
    } else {
        let left = first.drop_first();
        assert(all.drop_first() =~= left + rest);
        assert(all[0] == first[0]);
        lemma_signed_join(left, rest);
        assert(signed(all) =~= signed(first) + signed(rest));
        assert(opened(all) =~= opened(first) + opened(rest));
    }
}

proof fn lemma_exchange_signs(
    key: KeyId,
    contact: ParentResponse,
    query: Message,
    steps: Seq<Step>,
    res: Result<Res, ErrorView>,
)
    requires
        ran(exchange_script(key, contact, query), steps, res),
    ensures
        signed(steps) == seq![(key, query)],
        opened(steps) == match res {
            Ok(answer) => seq![answer],
            Err(_) => Seq::empty(),
        },
{
    reveal_with_fuel(reached, 7);
    reveal_with_fuel(signed, 7);
    reveal_with_fuel(opened, 7);
    law_exchange_run(key, contact, query, steps, res);
    assert(signed(steps) =~= seq![(key, query)]);
    match res {
        Ok(answer) => assert(opened(steps) =~= seq![answer]),
        Err(_) => assert(opened(steps) =~= Seq::empty()),
    }
}

/// Every query is signed and so put to the parent, in order, and nothing else
/// is; and the answers are those that were opened, in order.
pub proof fn law_every_query_is_put(
    key: KeyId,
    contact: ParentResponse,
    queries: Seq<Qry>,
    incident: spec_fn(Result<Res, ErrorView>) -> Option<IncidentView>,
    steps: Seq<Step>,
    answers: Seq<Result<Res, ErrorView>>,
)
    requires
        in_turn(key, contact, queries, incident, steps, answers),
    ensures
        signed(steps) == Seq::new(
            queries.len(),
            |i: int|
                (
                    key,
                    Message {
                        sender: contact.child_handle.name,
                        recipient: contact.parent_handle.name,
                        content: Content::Qry(queries[i]),
                    },
                ),
        ),
        opened(steps) == got(answers),
    decreases queries.len(),
{
    let expected = Seq::new(queries.len(), |i: int| (key, asked_of(contact, queries[i])));
    if queries.len() > 0 {
        let query = asked_of(contact, queries[0]);
        let exchange = exchange_script(key, contact, query);
        let rest = queries.drop_first();
        let n = choose|n: int|
            {
                &&& #[trigger] ran(exchange, steps.take(n), answers[0])
                &&& 0 <= n <= steps.len()
                &&& match incident(answers[0]) {
                    None => in_turn(
                        key,
                        contact,
                        rest,
                        incident,
                        steps.skip(n),
                        answers.drop_first(),
                    ),
                    Some(logged) => {
                        &&& n < steps.len()
                        &&& steps[n].request == RequestView::Log(logged)
                        &&& steps[n].reply is Logged
                        &&& in_turn(
                            key,
                            contact,
                            rest,
                            incident,
                            steps.skip(n + 1),
                            answers.drop_first(),
                        )
                    },
                }
            };
        let first = steps.take(n);
        let tail = steps.skip(n);
        assert(first + tail =~= steps);
        lemma_exchange_signs(key, contact, query, first, answers[0]);
        lemma_signed_join(first, tail);
        if incident(answers[0]) is Some {
            let left = steps.skip(n + 1);
            assert(tail.drop_first() =~= left);
            assert(tail[0] == steps[n]);
            law_every_query_is_put(key, contact, rest, incident, left, answers.drop_first());
        } else {
            law_every_query_is_put(key, contact, rest, incident, tail, answers.drop_first());
        }
        assert(signed(steps) =~= expected);
        assert(opened(steps) =~= got(answers));
    } else {
        assert(signed(steps) =~= expected);
    }
    assert(expected =~= Seq::new(
        queries.len(),
        |i: int|
            (
                key,
                Message {
                    sender: contact.child_handle.name,
                    recipient: contact.parent_handle.name,
                    content: Content::Qry(queries[i]),
                },
            ),
    ));
}

} // verus!
