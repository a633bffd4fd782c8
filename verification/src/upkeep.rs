//! What comes of keeping CAs up to date: in every run, which requests go to a
//! parent, what the CA takes over from it, and in which order.
use crate::batch::apply_all_script;
use crate::certificates::{
    certify_all_script, certify_embedded_script, certify_from_script, certify_keys_script,
    certify_remote_script, certify_rest, certify_wanted_script, receive_certs, receive_commands,
};
use crate::dialogue::{Reply, RequestView};
use crate::entitlements::entitlements_script;
use crate::error::{ErrorView, IncidentView};
use crate::messages::{
    Entitlements, IssuanceRequest, IssuedCert, ParentResponse, Res, RevocationRequest,
    RevocationResponse,
};
use crate::outcomes::{lemma_certify_run, lemma_execute_run, lemma_faults_join};
use crate::parents::{
    certificates_in, in_order, in_turn, issue_queries, law_remote_certificates_run,
    law_remote_revocations_run, lemma_apply_all_run, revocations_in, revoke_queries,
    unfit_for_issue, unfit_for_revoke,
};
use crate::provisioning::certify_script;
use crate::revocations::{
    all_revoked, finish_commands, finish_keys, revoke_commands, revoke_embedded_script,
    revoke_from_script, revoke_keys_script, revoke_wanted_script, send_revoke_requests_script,
    then_revoked,
};
use crate::runs::{
    commanded, faultless, given, given_up, idle, kept, lemma_first_step, lemma_ran_bind, ran,
    reached,
};
use crate::script::{Script, Step};
use crate::store::{execute_script, Missing};
use crate::types::{CertAuth, CommandView, ParentCaContact, RcvdCert};
use crate::updates::{
    get_updates_for_all_cas_script, get_updates_from_parent_script, names, refresh_ca_script,
    refresh_cas_script, refresh_parents_script, refresh_rest, republish_all_script,
    republish_each_script, republish_rest, republish_script, send_requests_script, then_certify,
    then_send, then_update,
};
use vstd::prelude::*;

verus! {

/// Whether it went well, without what came of it.
pub open spec fn end_of<T>(res: Result<T, ErrorView>) -> Result<(), ErrorView> {
    match res {
        Ok(_) => Ok(()),
        Err(error) => Err(error),
    }
}

/// A parent in this server was loaded and has revoked the keys of the child,
/// one request after the other. The responses name the classes and keys of the
/// requests, in their order.
pub open spec fn revoked_here(
    steps: Seq<Step>,
    parent: Seq<char>,
    child: Seq<char>,
    requests: Seq<RevocationRequest>,
    res: Result<Seq<RevocationResponse>, ErrorView>,
) -> bool {
    &&& steps.len() > 0
    &&& steps[0].request == RequestView::Latest(parent)
    &&& match steps[0].reply->Ca_0 {
        Err(text) => {
            &&& steps.len() == 1
            &&& res == Err::<Seq<RevocationResponse>, _>(ErrorView::AggregateStoreError(text@))
        },
        Ok(ca) => in_order(
            steps.skip(1),
            parent,
            ca,
            Seq::new(
                requests.len(),
                |i: int| CommandView::ChildRevokeKey { ca: parent, child, req: requests[i] },
            ),
            end_of(res),
        ),
    }
    &&& res matches Ok(responses) ==> {
        &&& responses.len() == requests.len()
        &&& forall|i: int|
            0 <= i < requests.len() ==> {
                &&& (#[trigger] responses[i]).class_name == requests[i].class_name
                &&& responses[i].key == requests[i].key
            }
    }
}

proof fn lemma_revoked_here(
    parent: Seq<char>,
    child: Seq<char>,
    requests: Seq<RevocationRequest>,
    steps: Seq<Step>,
    res: Result<Seq<RevocationResponse>, ErrorView>,
)
    requires
        ran(revoke_embedded_script(parent, child, requests), steps, res),
    ensures
        revoked_here(steps, parent, child, requests, res),
{
    reveal_with_fuel(reached, 2);
    let tail = steps.skip(1);
    assert(steps.drop_first() =~= tail);
    if let Ok(ca) = steps[0].reply->Ca_0 {
        let commands = revoke_commands(parent, child, requests);
        let (n, r) = lemma_ran_bind(
            apply_all_script(parent, ca, commands),
            then_revoked(all_revoked(requests)),
            tail,
            res,
        );
        assert(tail.take(n) =~= tail);
        lemma_apply_all_run(parent, ca, commands, tail, r);
        assert(commands =~= Seq::new(
            requests.len(),
            |i: int| CommandView::ChildRevokeKey { ca: parent, child, req: requests[i] },
        ));
        if let Ok(unit) = r {
            assert(unit == ());
        }
        assert(r == end_of(res));
    }
}

/// The revocation requests of a CA go to the parent over the contact that the
/// CA has for it. A parent in this server carries them out for the CA. Any
/// other is sent all of them, in order, signed with the identity key of the
/// CA, and the responses are those that it has given.
pub proof fn law_send_revoke_requests_run(
    name: Seq<char>,
    parent: Seq<char>,
    requests: Seq<RevocationRequest>,
    steps: Seq<Step>,
    res: Result<Seq<RevocationResponse>, ErrorView>,
)
    requires
        ran(send_revoke_requests_script(name, parent, requests), steps, res),
    ensures
        steps.len() > 0,
        steps[0].request == RequestView::Latest(name),
        match steps[0].reply->Ca_0 {
            Err(text) => {
                &&& steps.len() == 1
                &&& res == Err::<Seq<RevocationResponse>, _>(
                    ErrorView::AggregateStoreError(text@),
                )
            },
            Ok(ca) => {
                &&& steps.len() > 1
                &&& steps[1].request == RequestView::Contact(ca, parent)
                &&& match steps[1].reply->Contact_0 {
                    Err(text) => {
                        &&& steps.len() == 2
                        &&& res == Err::<Seq<RevocationResponse>, _>(ErrorView::CertAuth(text@))
                    },
                    Ok(ParentCaContact::Embedded) => revoked_here(
                        steps.skip(2),
                        parent,
                        name,
                        requests,
                        res,
                    ),
                    Ok(ParentCaContact::Rfc6492(contact)) => exists|
                        answers: Seq<Result<Res, ErrorView>>,
                    |
                        {
                            &&& #[trigger] in_turn(
                                ca.id_key,
                                contact,
                                revoke_queries(requests),
                                unfit_for_revoke(),
                                steps.skip(2),
                                answers,
                            )
                            &&& res == Ok::<_, ErrorView>(revocations_in(answers))
                        },
                }
            },
        },
{
    lemma_first_step(send_revoke_requests_script(name, parent, requests), steps, res);
    if let Ok(ca) = steps[0].reply->Ca_0 {
        let second = steps.skip(1);
        lemma_first_step(revoke_from_script(name, ca, parent, requests), second, res);
        let tail = steps.skip(2);
        assert(second[0] == steps[1]);
        assert(second.skip(1) =~= tail);
        match steps[1].reply->Contact_0 {
            Ok(ParentCaContact::Embedded) => {
                lemma_revoked_here(parent, name, requests, tail, res);
            },
            Ok(ParentCaContact::Rfc6492(contact)) => {
                let none = Seq::<RevocationResponse>::empty();
                let answers = law_remote_revocations_run(
                    ca.id_key,
                    contact,
                    requests,
                    none,
                    tail,
                    res,
                );
                assert(none + revocations_in(answers) =~= revocations_in(answers));
            },
            Err(_) => {
                assert(tail.len() == 0);
            },
        }
    } else {
        assert(steps.skip(1).len() == 0);
    }
}

/// The revocations that a CA wants from a parent are those that are sent, and
/// with each response that comes back the CA finishes the key roll, in order,
/// each time in the state that it was brought to.
pub proof fn law_revoke_keys_run(
    name: Seq<char>,
    parent: Seq<char>,
    steps: Seq<Step>,
    res: Result<(), ErrorView>,
)
    requires
        ran(revoke_keys_script(name, parent), steps, res),
    ensures
        steps.len() > 0,
        steps[0].request == RequestView::Latest(name),
        match steps[0].reply->Ca_0 {
            Err(text) => {
                &&& steps.len() == 1
                &&& res == Err::<(), _>(ErrorView::AggregateStoreError(text@))
            },
            Ok(ca) => {
                &&& steps.len() > 1
                &&& steps[1].request == RequestView::Revocations(ca, parent)
                &&& exists|n: int, r: Result<Seq<RevocationResponse>, ErrorView>|
                    {
                        &&& #[trigger] ran(
                            send_revoke_requests_script(
                                name,
                                parent,
                                steps[1].reply->Revocations_0@,
                            ),
                            steps.skip(2).take(n),
                            r,
                        )
                        &&& 0 <= n <= steps.len() - 2
                        &&& match r {
                            Err(error) => n + 2 == steps.len() && res == Err::<(), _>(error),
                            Ok(responses) => in_order(
                                steps.skip(2).skip(n),
                                name,
                                ca,
                                Seq::new(
                                    responses.len(),
                                    |i: int|
                                        CommandView::KeyRollFinish {
                                            ca: name,
                                            parent,
                                            response: responses[i],
                                        },
                                ),
                                res,
                            ),
                        }
                    }
            },
        },
{
    lemma_first_step(revoke_keys_script(name, parent), steps, res);
    if let Ok(ca) = steps[0].reply->Ca_0 {
        let second = steps.skip(1);
        lemma_first_step(revoke_wanted_script(name, ca, parent), second, res);
        let tail = steps.skip(2);
        assert(second[0] == steps[1]);
        assert(second.skip(1) =~= tail);
        let send = send_revoke_requests_script(name, parent, steps[1].reply->Revocations_0@);
        let (n, r) = lemma_ran_bind(send, finish_keys(name, ca, parent), tail, res);
        if let Ok(responses) = r {
            let commands = finish_commands(name, parent, responses);
            lemma_apply_all_run(name, ca, commands, tail.skip(n), res);
            assert(commands =~= Seq::new(
                responses.len(),
                |i: int| CommandView::KeyRollFinish { ca: name, parent, response: responses[i] },
            ));
        }
        assert(ran(send, tail.take(n), r));
    } else {
        assert(steps.skip(1).len() == 0);
    }
}

/// The `k`-th request was certified for the child, first in the state `ca` of
/// the parent and later in the one that the last request has led to; what came
/// of it was stored, and the parent was asked what it has issued for the class
/// and the key of that request; as far as it has come to that.
pub open spec fn certified_at(
    steps: Seq<Step>,
    k: int,
    parent: Seq<char>,
    ca: CertAuth,
    child: Seq<char>,
    req: IssuanceRequest,
) -> bool {
    &&& 3 * k < steps.len() ==> steps[3 * k].request == RequestView::Process(
        if k == 0 {
            ca
        } else {
            given(steps[3 * k - 2])
        },
        CommandView::ChildCertify { ca: parent, child, req },
    )
    &&& 3 * k + 1 < steps.len() ==> kept(steps, 3 * k + 1, parent)
    &&& 3 * k + 2 < steps.len() ==> steps[3 * k + 2].request == RequestView::Issuance(
        given(steps[3 * k + 1]),
        child,
        req.class_name@,
        req.csr.public_key,
    )
}

/// A parent in this server has certified all requests, in order, or the first
/// failure has ended it. The certificates are, in order, the ones that the
/// parent says it has issued, each in the class of its request.
pub open spec fn certified_here(
    steps: Seq<Step>,
    parent: Seq<char>,
    ca: CertAuth,
    child: Seq<char>,
    requests: Seq<IssuanceRequest>,
    res: Result<Seq<(String, IssuedCert)>, ErrorView>,
) -> bool {
    &&& steps.len() <= 3 * requests.len()
    &&& forall|k: int|
        0 <= k < requests.len() ==> certified_at(
            steps,
            k,
            parent,
            ca,
            child,
            #[trigger] requests[k],
        )
    &&& match res {
        Ok(certs) => {
            &&& steps.len() == 3 * requests.len()
            &&& faultless(steps, Missing::Store)
            &&& certs.len() == requests.len()
            &&& forall|k: int|
                0 <= k < requests.len() ==> {
                    &&& (#[trigger] certs[k]).0 == requests[k].class_name
                    &&& steps[3 * k + 2].reply->Issuance_0->Ok_0.issued == certs[k].1
                }
        },
        Err(error) => given_up(steps, Missing::Store, error),
    }
}

proof fn lemma_certified_next(
    first: Seq<Step>,
    tail: Seq<Step>,
    parent: Seq<char>,
    ca: CertAuth,
    child: Seq<char>,
    requests: Seq<IssuanceRequest>,
    cert: (String, IssuedCert),
    res: Result<Seq<(String, IssuedCert)>, ErrorView>,
)
    requires
        requests.len() > 0,
        first.len() == 3,
        certified_at(first, 0, parent, ca, child, requests[0]),
        faultless(first, Missing::Store),
        cert.0 == requests[0].class_name,
        first[2].reply->Issuance_0->Ok_0.issued == cert.1,
        certified_here(tail, parent, given(first[1]), child, requests.drop_first(), res),
    ensures
        certified_here(
            first + tail,
            parent,
            ca,
            child,
            requests,
            match res {
                Ok(certs) => Ok(seq![cert] + certs),
                Err(error) => Err(error),
            },
        ),
{
    let steps = first + tail;
    let rest = requests.drop_first();
    let state = given(first[1]);
    assert forall|k: int| 0 <= k < requests.len() implies certified_at(
        steps,
        k,
        parent,
        ca,
        child,
        #[trigger] requests[k],
    ) by {
        if k > 0 {
            let j = k - 1;
            assert(rest[j] == requests[k]);
            assert(certified_at(tail, j, parent, state, child, rest[j]));
            if 3 * k < steps.len() {
                assert(steps[3 * k] == tail[3 * j]);
                assert(steps[3 * k - 2] == if k == 1 {
                    first[1]
                } else {
                    tail[3 * j - 2]
                });
            }
            if 3 * k + 1 < steps.len() {
                assert(steps[3 * k + 1] == tail[3 * j + 1]);
            }
            if 3 * k + 2 < steps.len() {
                assert(steps[3 * k + 2] == tail[3 * j + 2]);
            }
        } else {
            assert(steps[0] == first[0]);
            assert(steps[1] == first[1]);
            assert(steps[2] == first[2]);
        }
    }
    lemma_faults_join(first, tail, Missing::Store);
    if let Ok(certs) = res {
        let all = seq![cert] + certs;
        assert forall|k: int| 0 <= k < requests.len() implies {
            &&& (#[trigger] all[k]).0 == requests[k].class_name
            &&& steps[3 * k + 2].reply->Issuance_0->Ok_0.issued == all[k].1
        } by {
            if k > 0 {
                let j = k - 1;
                assert(all[k] == certs[j]);
                assert(rest[j] == requests[k]);
                assert(steps[3 * k + 2] == tail[3 * j + 2]);
            }
        }
    }
}

/// What a parent in this server issues for the requests of a child comes, with
/// what was there before, out of the run.
pub proof fn law_embedded_certificates_run(
    parent: Seq<char>,
    ca: CertAuth,
    child: Seq<char>,
    requests: Seq<IssuanceRequest>,
    done: Seq<(String, IssuedCert)>,
    steps: Seq<Step>,
    res: Result<Seq<(String, IssuedCert)>, ErrorView>,
) -> (own: Result<Seq<(String, IssuedCert)>, ErrorView>)
    requires
        ran(certify_all_script(parent, ca, child, requests, done), steps, res),
    ensures
        certified_here(steps, parent, ca, child, requests, own),
        res == match own {
            Ok(certs) => Ok(done + certs),
            Err(error) => Err(error),
        },
    decreases requests.len(),
{
    if requests.len() == 0 {
        let none = Seq::<(String, IssuedCert)>::empty();
        assert(done + none =~= done);
        Ok(none)
    } else {
        let req = requests[0];
        let rest = requests.drop_first();
        let certify = certify_script(parent, ca, child, req);
        let (n, r) = lemma_ran_bind(
            certify,
            certify_rest(parent, child, req.class_name, rest, done),
            steps,
            res,
        );
        let first = steps.take(n);
        let tail = steps.skip(n);
        assert(first + tail =~= steps);
        lemma_certify_run(parent, ca, child, req, first, r);
        match r {
            Ok(certified) => {
                let cert = (req.class_name, certified.response.issued);
                let more = done.push(cert);
                let own = law_embedded_certificates_run(
                    parent,
                    certified.ca,
                    child,
                    rest,
                    more,
                    tail,
                    res,
                );
                assert(faultless(first, Missing::Store));
                lemma_certified_next(first, tail, parent, ca, child, requests, cert, own);
                if let Ok(certs) = own {
                    assert(more + certs =~= done + (seq![cert] + certs));
                }
                match own {
                    Ok(certs) => Ok(seq![cert] + certs),
                    Err(error) => Err(error),
                }
            },
            Err(error) => {
                assert(tail.len() == 0);
                assert(first =~= steps);
                assert(given_up(steps, Missing::Store, error));
                Err(error)
            },
        }
    }
}

/// The commands by which a CA takes over certificates from a parent: each as
/// it was issued, in order.
pub open spec fn taking_over(
    name: Seq<char>,
    parent: Seq<char>,
    certs: Seq<(String, IssuedCert)>,
) -> Seq<CommandView> {
    Seq::new(
        certs.len(),
        |i: int|
            CommandView::UpdateRcvdCert {
                ca: name,
                parent,
                class_name: certs[i].0@,
                received: RcvdCert {
                    uri: certs[i].1.uri,
                    resources: certs[i].1.resources,
                    cert: certs[i].1.cert,
                },
            },
    )
}

/// A parent in this server, in the state `parent_ca`, has certified the
/// requests, and the CA, in the state `ca`, has taken over each certificate
/// that was issued, in order.
pub open spec fn obtained_here(
    steps: Seq<Step>,
    name: Seq<char>,
    ca: CertAuth,
    parent: Seq<char>,
    parent_ca: CertAuth,
    requests: Seq<IssuanceRequest>,
    res: Result<(), ErrorView>,
) -> bool {
    exists|n: int, r: Result<Seq<(String, IssuedCert)>, ErrorView>|
        {
            &&& #[trigger] certified_here(steps.take(n), parent, parent_ca, name, requests, r)
            &&& 0 <= n <= steps.len()
            &&& match r {
                Err(error) => n == steps.len() && res == Err::<(), _>(error),
                Ok(certs) => in_order(
                    steps.skip(n),
                    name,
                    ca,
                    taking_over(name, parent, certs),
                    res,
                ),
            }
        }
}

/// A parent elsewhere was sent all requests, and the CA, in the state `ca`,
/// has taken over each certificate that the parent has issued, in order.
pub open spec fn obtained_from_afar(
    steps: Seq<Step>,
    name: Seq<char>,
    ca: CertAuth,
    parent: Seq<char>,
    contact: ParentResponse,
    requests: Seq<IssuanceRequest>,
    res: Result<(), ErrorView>,
) -> bool {
    exists|n: int, answers: Seq<Result<Res, ErrorView>>|
        {
            &&& #[trigger] in_turn(
                ca.id_key,
                contact,
                issue_queries(requests),
                unfit_for_issue(),
                steps.take(n),
                answers,
            )
            &&& 0 <= n <= steps.len()
            &&& in_order(
                steps.skip(n),
                name,
                ca,
                taking_over(name, parent, certificates_in(answers)),
                res,
            )
        }
}

proof fn lemma_obtained_here(
    name: Seq<char>,
    ca: CertAuth,
    parent: Seq<char>,
    parent_ca: CertAuth,
    requests: Seq<IssuanceRequest>,
    steps: Seq<Step>,
    res: Result<(), ErrorView>,
)
    requires
        ran(
            certify_all_script(parent, parent_ca, name, requests, Seq::empty()).bind(
                receive_certs(name, ca, parent),
            ),
            steps,
            res,
        ),
    ensures
        obtained_here(steps, name, ca, parent, parent_ca, requests, res),
{
    let none = Seq::<(String, IssuedCert)>::empty();
    let certify = certify_all_script(parent, parent_ca, name, requests, none);
    let (n, r) = lemma_ran_bind(certify, receive_certs(name, ca, parent), steps, res);
    let own = law_embedded_certificates_run(
        parent,
        parent_ca,
        name,
        requests,
        none,
        steps.take(n),
        r,
    );
    if let Ok(certs) = own {
        assert(none + certs =~= certs);
        lemma_taking_over(name, ca, parent, certs, steps.skip(n), res);
    }
    assert(certified_here(steps.take(n), parent, parent_ca, name, requests, own));
}

proof fn lemma_obtained_from_afar(
    name: Seq<char>,
    ca: CertAuth,
    parent: Seq<char>,
    contact: ParentResponse,
    requests: Seq<IssuanceRequest>,
    steps: Seq<Step>,
    res: Result<(), ErrorView>,
)
    requires
        ran(
            certify_remote_script(ca.id_key, contact, requests, Seq::empty()).bind(
                receive_certs(name, ca, parent),
            ),
            steps,
            res,
        ),
    ensures
        obtained_from_afar(steps, name, ca, parent, contact, requests, res),
{
    let none = Seq::<(String, IssuedCert)>::empty();
    let certify = certify_remote_script(ca.id_key, contact, requests, none);
    let (n, r) = lemma_ran_bind(certify, receive_certs(name, ca, parent), steps, res);
    let answers = law_remote_certificates_run(
        ca.id_key,
        contact,
        requests,
        none,
        steps.take(n),
        r,
    );
    let certs = certificates_in(answers);
    assert(none + certs =~= certs);
    lemma_taking_over(name, ca, parent, certs, steps.skip(n), res);
    assert(in_turn(
        ca.id_key,
        contact,
        issue_queries(requests),
        unfit_for_issue(),
        steps.take(n),
        answers,
    ));
}

/// The certificates that a CA wants from a parent are those that are asked
/// for, over the contact that the CA has for the parent. A parent in this
/// server issues them; any other is sent all requests. The CA takes over each
/// certificate that was issued, in order, each time in the state that it was
/// brought to.
pub proof fn law_certify_keys_run(
    name: Seq<char>,
    parent: Seq<char>,
    steps: Seq<Step>,
    res: Result<(), ErrorView>,
)
    requires
        ran(certify_keys_script(name, parent), steps, res),
    ensures
        steps.len() > 0,
        steps[0].request == RequestView::Latest(name),
        match steps[0].reply->Ca_0 {
            Err(text) => {
                &&& steps.len() == 1
                &&& res == Err::<(), _>(ErrorView::AggregateStoreError(text@))
            },
            Ok(ca) => {
                let requests = steps[1].reply->CertRequests_0@;
                &&& steps.len() > 2
                &&& steps[1].request == RequestView::CertRequests(ca, parent)
                &&& steps[2].request == RequestView::Contact(ca, parent)
                &&& match steps[2].reply->Contact_0 {
                    Err(text) => {
                        &&& steps.len() == 3
                        &&& res == Err::<(), _>(ErrorView::CertAuth(text@))
                    },
                    Ok(ParentCaContact::Embedded) => {
                        &&& steps.len() > 3
                        &&& steps[3].request == RequestView::Latest(parent)
                        &&& match steps[3].reply->Ca_0 {
                            Err(text) => {
                                &&& steps.len() == 4
                                &&& res == Err::<(), _>(ErrorView::AggregateStoreError(text@))
                            },
                            Ok(parent_ca) => obtained_here(
                                steps.skip(4),
                                name,
                                ca,
                                parent,
                                parent_ca,
                                requests,
                                res,
                            ),
                        }
                    },
                    Ok(ParentCaContact::Rfc6492(contact)) => obtained_from_afar(
                        steps.skip(3),
                        name,
                        ca,
                        parent,
                        contact,
                        requests,
                        res,
                    ),
                }
            },
        },
{
    lemma_first_step(certify_keys_script(name, parent), steps, res);
    match steps[0].reply->Ca_0 {
        Ok(ca) => {
            let second = steps.skip(1);
            lemma_first_step(certify_wanted_script(name, ca, parent), second, res);
            assert(second[0] == steps[1]);
            let requests = steps[1].reply->CertRequests_0@;
            let third = second.skip(1);
            assert(third =~= steps.skip(2));
            lemma_certify_from_run(name, ca, parent, requests, third, res);
            assert(third[0] == steps[2]);
            assert(third.skip(1) =~= steps.skip(3));
            if third.len() > 1 {
                assert(third[1] == steps[3]);
                assert(third.skip(2) =~= steps.skip(4));
            }
        },
        Err(_) => {
            assert(steps.skip(1).len() == 0);
        },
    }
}

proof fn lemma_certify_from_run(
    name: Seq<char>,
    ca: CertAuth,
    parent: Seq<char>,
    requests: Seq<IssuanceRequest>,
    steps: Seq<Step>,
    res: Result<(), ErrorView>,
)
    requires
        ran(certify_from_script(name, ca, parent, requests), steps, res),
    ensures
        steps.len() > 0,
        steps[0].request == RequestView::Contact(ca, parent),
        match steps[0].reply->Contact_0 {
            Err(text) => {
                &&& steps.len() == 1
                &&& res == Err::<(), _>(ErrorView::CertAuth(text@))
            },
            Ok(ParentCaContact::Embedded) => {
                &&& steps.len() > 1
                &&& steps[1].request == RequestView::Latest(parent)
                &&& match steps[1].reply->Ca_0 {
                    Err(text) => {
                        &&& steps.len() == 2
                        &&& res == Err::<(), _>(ErrorView::AggregateStoreError(text@))
                    },
                    Ok(parent_ca) => obtained_here(
                        steps.skip(2),
                        name,
                        ca,
                        parent,
                        parent_ca,
                        requests,
                        res,
                    ),
                }
            },
            Ok(ParentCaContact::Rfc6492(contact)) => obtained_from_afar(
                steps.skip(1),
                name,
                ca,
                parent,
                contact,
                requests,
                res,
            ),
        },
{
    lemma_first_step(certify_from_script(name, ca, parent, requests), steps, res);
    let tail = steps.skip(1);
    match steps[0].reply->Contact_0 {
        Ok(ParentCaContact::Embedded) => {
            lemma_first_step(certify_embedded_script(name, ca, parent, requests), tail, res);
            assert(tail[0] == steps[1]);
            assert(tail.skip(1) =~= steps.skip(2));
            match steps[1].reply->Ca_0 {
                Ok(parent_ca) => {
                    lemma_obtained_here(
                        name,
                        ca,
                        parent,
                        parent_ca,
                        requests,
                        steps.skip(2),
                        res,
                    );
                },
                Err(_) => {
                    assert(steps.skip(2).len() == 0);
                },
            }
        },
        Ok(ParentCaContact::Rfc6492(contact)) => {
            lemma_obtained_from_afar(name, ca, parent, contact, requests, tail, res);
        },
        Err(_) => {
            assert(tail.len() == 0);
        },
    }
}

proof fn lemma_taking_over(
    name: Seq<char>,
    ca: CertAuth,
    parent: Seq<char>,
    certs: Seq<(String, IssuedCert)>,
    steps: Seq<Step>,
    res: Result<(), ErrorView>,
)
    requires
        ran(receive_certs(name, ca, parent)(Ok(certs)), steps, res),
    ensures
        in_order(steps, name, ca, taking_over(name, parent, certs), res),
{
    let commands = receive_commands(name, parent, certs);
    lemma_apply_all_run(name, ca, commands, steps, res);
    assert(commands =~= taking_over(name, parent, certs));
}

/// All open requests of a CA are sent: first the revocations are carried
/// through, and if that went well, the certificates.
pub proof fn law_send_requests_run(
    name: Seq<char>,
    parent: Seq<char>,
    steps: Seq<Step>,
    res: Result<(), ErrorView>,
) -> (cut: (int, Result<(), ErrorView>))
    requires
        ran(send_requests_script(name, parent), steps, res),
    ensures
        0 <= cut.0 <= steps.len(),
        ran(revoke_keys_script(name, parent), steps.take(cut.0), cut.1),
        match cut.1 {
            Ok(_) => ran(certify_keys_script(name, parent), steps.skip(cut.0), res),
            Err(error) => cut.0 == steps.len() && res == Err::<(), _>(error),
        },
{
    lemma_ran_bind(revoke_keys_script(name, parent), then_certify(name, parent), steps, res)
}

/// A CA is brought up to date with a parent: it learns of its entitlements,
/// and processes the command to update to just these. If that changes nothing,
/// it is done; otherwise the change is stored, and all open requests are sent,
/// as by a call to send them.
pub proof fn law_get_updates_from_parent_run(
    name: Seq<char>,
    parent: Seq<char>,
    steps: Seq<Step>,
    res: Result<(), ErrorView>,
) -> (cut: (int, Result<Entitlements, ErrorView>))
    requires
        ran(get_updates_from_parent_script(name, parent), steps, res),
    ensures
        0 <= cut.0 <= steps.len(),
        ran(entitlements_script(name, parent), steps.take(cut.0), cut.1),
        match cut.1 {
            Err(error) => cut.0 == steps.len() && res == Err::<(), _>(error),
            Ok(entitlements) => {
                let tail = steps.skip(cut.0);
                &&& tail.len() > 0
                &&& tail[0].request == RequestView::Latest(name)
                &&& tail.len() > 1 ==> commanded(
                    tail,
                    1,
                    CommandView::UpdateEntitlements { ca: name, parent, entitlements },
                )
                &&& tail.len() > 2 ==> kept(tail, 2, name) && !idle(tail[1])
                &&& if tail.len() >= 3 && faultless(tail.take(3), Missing::Store) {
                    ran(send_requests_script(name, parent), tail.skip(3), res)
                } else {
                    &&& tail.len() <= 3
                    &&& match res {
                        Ok(_) => {
                            &&& tail.len() == 2
                            &&& idle(tail[1])
                            &&& faultless(tail, Missing::Store)
                        },
                        Err(error) => given_up(tail, Missing::Store, error),
                    }
                }
            },
        },
{
    let ask = entitlements_script(name, parent);
    let (n, r) = lemma_ran_bind(ask, then_update(name, parent), steps, res);
    if let Ok(entitlements) = r {
        let tail = steps.skip(n);
        let command = CommandView::UpdateEntitlements { ca: name, parent, entitlements };
        let execute = execute_script(name, Missing::Store, command, true);
        let (m, x) = lemma_ran_bind(execute, then_send(name, parent), tail, res);
        let first = tail.take(m);
        lemma_execute_run(name, Missing::Store, command, true, first, x);
        assert(forall|i: int| 0 <= i < m ==> first[i] == tail[i]);
        match x {
            Ok(settled) => if settled.changed {
                assert(first =~= tail.take(3));
            } else {
                assert(first =~= tail);
            },
            Err(error) => {
                assert(first =~= tail);
                assert(tail.take(3) =~= tail || tail.len() < 3);
            },
        }
    }
    (n, r)
}

/// The CAs were republished one after the other, each as by a call for it.
/// What went wrong with one was logged, with its name and its error, before
/// the next.
pub open spec fn republished(cas: Seq<Seq<char>>, steps: Seq<Step>) -> bool
    decreases cas.len(),
{
    if cas.len() == 0 {
        steps.len() == 0
    } else {
        exists|n: int, r: Result<(), ErrorView>|
            {
                &&& #[trigger] ran(republish_script(cas[0]), steps.take(n), r)
                &&& 0 <= n <= steps.len()
                &&& match r {
                    Ok(_) => republished(cas.drop_first(), steps.skip(n)),
                    Err(error) => {
                        &&& n < steps.len()
                        &&& steps[n].request == RequestView::Log(
                            IncidentView::Publishing(cas[0], error),
                        )
                        &&& republished(cas.drop_first(), steps.skip(n + 1))
                    },
                }
            }
    }
}

proof fn lemma_republished(cas: Seq<Seq<char>>, steps: Seq<Step>, res: Result<(), ErrorView>)
    requires
        ran(republish_each_script(cas), steps, res),
    ensures
        res is Ok,
        republished(cas, steps),
    decreases cas.len(),
{
    if cas.len() > 0 {
        let rest = cas.drop_first();
        let call = republish_script(cas[0]);
        let (n, r) = lemma_ran_bind(call, republish_rest(cas[0], rest), steps, res);
        let tail = steps.skip(n);
        match r {
            Ok(_) => lemma_republished(rest, tail, res),
            Err(_) => {
                assert(tail.len() > 0);
                assert(tail[0] == steps[n]);
                assert(tail.drop_first() =~= steps.skip(n + 1));
                lemma_republished(rest, steps.skip(n + 1), res);
            },
        }
        assert(ran(call, steps.take(n), r));
    }
}

/// To republish all is to republish each CA that the store lists, in that
/// order, as by a call for it; what goes wrong is logged, and the whole is a
/// success.
pub proof fn law_republish_all_run(steps: Seq<Step>, res: Result<(), ErrorView>)
    requires
        ran(republish_all_script(), steps, res),
    ensures
        res is Ok,
        steps.len() > 0,
        steps[0].request == RequestView::List,
        steps[0].reply matches Reply::Handles(handles) && republished(
            Seq::new(handles@.len(), |i: int| handles@[i]@),
            steps.skip(1),
        ),
{
    reveal_with_fuel(reached, 2);
    let cas = names(steps[0].reply->Handles_0@);
    let handles = steps[0].reply->Handles_0;
    assert(steps.drop_first() =~= steps.skip(1));
    assert(cas =~= Seq::new(handles@.len(), |i: int| handles@[i]@));
    lemma_republished(cas, steps.skip(1), res);
}

/// The CA `name` was brought up to date with the parents one after the other,
/// each as by a call for it. What went wrong with one was logged, with the
/// name of the CA and the error, before the next. The other CAs had their turn
/// then.
pub open spec fn brought_up_to_date(
    name: Seq<char>,
    parents: Seq<Seq<char>>,
    others: Seq<Seq<char>>,
    steps: Seq<Step>,
) -> bool
    decreases others.len(), parents.len() + 1, 0nat,
{
    if parents.len() == 0 {
        all_up_to_date(others, steps)
    } else {
        exists|n: int, r: Result<(), ErrorView>|
            {
                &&& #[trigger] ran(
                    get_updates_from_parent_script(name, parents[0]),
                    steps.take(n),
                    r,
                )
                &&& 0 <= n <= steps.len()
                &&& match r {
                    Ok(_) => brought_up_to_date(
                        name,
                        parents.drop_first(),
                        others,
                        steps.skip(n),
                    ),
                    Err(error) => {
                        &&& n < steps.len()
                        &&& steps[n].request == RequestView::Log(
                            IncidentView::Refreshing(name, error),
                        )
                        &&& brought_up_to_date(
                            name,
                            parents.drop_first(),
                            others,
                            steps.skip(n + 1),
                        )
                    },
                }
            }
    }
}

/// The CAs had their turn one after the other: each was loaded and asked for
/// its parents, and was brought up to date with them. One that cannot be
/// loaded, or gives no parents, was passed over.
pub open spec fn all_up_to_date(cas: Seq<Seq<char>>, steps: Seq<Step>) -> bool
    decreases cas.len(), 0nat, 1nat,
{
    if cas.len() == 0 {
        steps.len() == 0
    } else {
        let others = cas.drop_first();
        &&& steps.len() > 0
        &&& steps[0].request == RequestView::Latest(cas[0])
        &&& match steps[0].reply->Ca_0 {
            Err(_) => all_up_to_date(others, steps.skip(1)),
            Ok(ca) => {
                &&& steps.len() > 1
                &&& steps[1].request == RequestView::Parents(ca)
                &&& match steps[1].reply->Parents_0 {
                    Err(_) => all_up_to_date(others, steps.skip(2)),
                    Ok(parents) => brought_up_to_date(
                        cas[0],
                        Seq::new(parents@.len(), |i: int| parents@[i]@),
                        others,
                        steps.skip(2),
                    ),
                }
            },
        }
    }
}

proof fn lemma_brought_up_to_date(
    name: Seq<char>,
    parents: Seq<Seq<char>>,
    others: Seq<Seq<char>>,
    steps: Seq<Step>,
    res: Result<(), ErrorView>,
)
    requires
        ran(refresh_parents_script(name, parents, others), steps, res),
    ensures
        res is Ok,
        brought_up_to_date(name, parents, others, steps),
    decreases others.len(), parents.len() + 1, 0nat,
{
    if parents.len() == 0 {
        lemma_all_up_to_date(others, steps, res);
    } else {
        let rest = parents.drop_first();
        let call = get_updates_from_parent_script(name, parents[0]);
        let (n, r) = lemma_ran_bind(call, refresh_rest(name, rest, others), steps, res);
        let tail = steps.skip(n);
        match r {
            Ok(_) => lemma_brought_up_to_date(name, rest, others, tail, res),
            Err(_) => {
                assert(tail.len() > 0);
                assert(tail[0] == steps[n]);
                assert(tail.drop_first() =~= steps.skip(n + 1));
                lemma_brought_up_to_date(name, rest, others, steps.skip(n + 1), res);
            },
        }
        assert(ran(call, steps.take(n), r));
    }
}

proof fn lemma_all_up_to_date(cas: Seq<Seq<char>>, steps: Seq<Step>, res: Result<(), ErrorView>)
    requires
        ran(refresh_cas_script(cas), steps, res),
    ensures
        res is Ok,
        all_up_to_date(cas, steps),
    decreases cas.len(), 0nat, 1nat,
{
    if cas.len() > 0 {
        let others = cas.drop_first();
        reveal_with_fuel(reached, 3);
        assert(steps.len() > 0);
        assert(steps.drop_first() =~= steps.skip(1));
        match steps[0].reply->Ca_0 {
            Err(_) => lemma_all_up_to_date(others, steps.skip(1), res),
            Ok(ca) => {
                assert(ran(refresh_ca_script(cas[0], ca, others), steps.skip(1), res));
                assert(steps.len() > 1);
                assert(steps.skip(1)[0] == steps[1]);
                assert(steps.skip(1).drop_first() =~= steps.skip(2));
                match steps[1].reply->Parents_0 {
                    Err(_) => lemma_all_up_to_date(others, steps.skip(2), res),
                    Ok(parents) => {
                        let all = names(parents@);
                        assert(all =~= Seq::new(parents@.len(), |i: int| parents@[i]@));
                        lemma_brought_up_to_date(cas[0], all, others, steps.skip(2), res);
                    },
                }
            },
        }
    }
}

/// To get updates for all CAs is to get them for each CA that the store lists,
/// from each of its parents, in that order, as by a call for that CA and that
/// parent; what goes wrong is logged, and the whole is a success.
pub proof fn law_get_updates_for_all_cas_run(steps: Seq<Step>, res: Result<(), ErrorView>)
    requires
        ran(get_updates_for_all_cas_script(), steps, res),
    ensures
        res is Ok,
        steps.len() > 0,
        steps[0].request == RequestView::List,
        steps[0].reply matches Reply::Handles(handles) && all_up_to_date(
            Seq::new(handles@.len(), |i: int| handles@[i]@),
            steps.skip(1),
        ),
{
    reveal_with_fuel(reached, 2);
    let cas = names(steps[0].reply->Handles_0@);
    let handles = steps[0].reply->Handles_0;
    assert(steps.drop_first() =~= steps.skip(1));
    assert(cas =~= Seq::new(handles@.len(), |i: int| handles@[i]@));
    lemma_all_up_to_date(cas, steps.skip(1), res);
}

} // verus!
