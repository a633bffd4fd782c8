//! What holds of the operations as wholes, and of several in turn.
use crate::dialogue::{Reply, RequestView};
use crate::discipline::any_end;
use crate::entitlements::{entitlements_script, list_remote_script, query_message, then_listed};
use crate::error::{ErrorView, IncidentView};
use crate::exchange::exchange_script;
use crate::messages::{Entitlements, ParentResponse, Qry};
use crate::provisioning::list_script;
use crate::revocations::revoke_keys_script;
use crate::script::{Script, Step};
use crate::store::{
    apply_script, cas_script, execute_script, load_script, perform_script, performed, token_script,
    Missing, Settled,
};
use crate::trust_anchor::{
    provisioning_uri, show_child_script, shrink_child, ta_update_child_script,
};
use crate::types::{
    CaEvent, CertAuth, ChildCaInfo, CommandView, Handle, ParentCaContact, UpdateChildRequest,
    TA_NAME,
};
use crate::updates::{
    get_updates_for_all_cas_script, get_updates_from_parent_script, names, refresh_ca_script,
    refresh_cas_script, refresh_log, refresh_parents_script, refresh_rest, republish_all_script,
    republish_each_script, republish_log, republish_rest, republish_script, send_requests_script,
    then_certify, then_send, then_update, update_entitlements_script,
};
use crate::uri::{has_https_scheme, is_https_uri, is_uri_char, is_uri_text};
use vstd::prelude::*;

verus! {

/// If a command changes nothing, nothing is stored: a CA that has nothing to
/// publish, or no key to roll, is left as it is, and that is a success.
pub proof fn law_no_change_is_no_op(
    name: Seq<char>,
    missing: Missing,
    command: CommandView,
    ca: CertAuth,
    events: Vec<CaEvent>,
)
    requires
        events@.len() == 0,
    ensures
        perform_script(name, missing, command, true).after(Reply::Ca(Ok(ca))).after(
            Reply::Events(Ok(events)),
        ) == Script::Done(Ok::<(), ErrorView>(())),
{
    let execute = execute_script(name, missing, command, true);
    execute.lemma_bind(performed(), Reply::Ca(Ok(ca)));
    let apply = apply_script(name, ca, command, true);
    apply.lemma_bind(performed(), Reply::Events(Ok(events)));
}

/// The URI at which a CA takes provisioning messages is an HTTPS URI, if the
/// name of the CA can stand in a URI. So a child can always be added to a
/// trust anchor that is stored under its own name.
pub proof fn law_provisioning_uri(base: Seq<char>, name: Seq<char>)
    requires
        is_https_uri(base),
    ensures
        is_https_uri(provisioning_uri(base, name)) == is_uri_text(name),
        is_uri_text(TA_NAME@),
{
    reveal_strlit("rfc6492/");
    reveal_strlit("ta");
    let uri = provisioning_uri(base, name);
    assert(has_https_scheme(uri));
    if is_uri_text(name) {
        assert forall|i: int| 0 <= i < uri.len() implies is_uri_char(
            #[trigger] uri[i],
        ) by {
            if i < base.len() {
                assert(uri[i] == base[i]);
            } else if i < base.len() + 8 {
                assert(uri[i] == "rfc6492/"@[i - base.len()]);
            } else {
                assert(uri[i] == name[i - base.len() - 8]);
            }
        }
    } else {
        let i = choose|i: int| 0 <= i < name.len() && !is_uri_char(#[trigger] name[i]);
        assert(uri[base.len() + 8 + i] == name[i]);
    }
}

/// Every request is allowed.
pub open spec fn any_rule() -> spec_fn(Seq<Step>, RequestView) -> bool {
    |past: Seq<Step>, request: RequestView| true
}

/// At this point the CA `name` was loaded and, if that went well, asked to
/// publish.
pub open spec fn published_at(past: Seq<Step>, i: int, name: Seq<char>) -> bool {
    &&& past[i].request == RequestView::Latest(name)
    &&& match past[i].reply {
        Reply::Ca(Ok(ca)) => {
            &&& i + 1 < past.len()
            &&& past[i + 1].request == RequestView::Process(ca, CommandView::Publish { ca: name })
        },
        _ => true,
    }
}

/// The CA `name` was loaded and, if that went well, asked to publish.
pub open spec fn published(past: Seq<Step>, name: Seq<char>) -> bool {
    exists|i: int| 0 <= i < past.len() && #[trigger] published_at(past, i, name)
}

proof fn lemma_published_later(past: Seq<Step>, later: Seq<Step>, name: Seq<char>)
    requires
        past.is_prefix_of(later),
        published(past, name),
    ensures
        published(later, name),
{
    let i = choose|i: int| 0 <= i < past.len() && #[trigger] published_at(past, i, name);
    let part = later.subrange(0, past.len() as int);
    assert(part[i] == later[i]);
    if i + 1 < past.len() {
        assert(part[i + 1] == later[i + 1]);
    }
    assert(published_at(later, i, name));
}

proof fn lemma_republish_publishes(name: Seq<char>, past: Seq<Step>)
    ensures
        republish_script(name).obeys(
            past,
            any_rule(),
            |p: Seq<Step>, r: Result<(), ErrorView>| published(p, name),
        ),
{
    let end = |p: Seq<Step>, r: Result<(), ErrorView>| published(p, name);
    let command = CommandView::Publish { ca: name };
    let script = republish_script(name);
    let execute = execute_script(name, Missing::Store, command, true);
    let request = RequestView::Latest(name);
    let then = script->Ask_1;
    assert forall|reply: Reply| request.answered_by(reply) implies (#[trigger] then(reply)).obeys(
        past.push(Step { request, reply }),
        any_rule(),
        end,
    ) by {
        let now = past.push(Step { request, reply });
        execute.lemma_bind(performed(), reply);
        assert(script.after(reply) == then(reply));
        match reply->Ca_0 {
            Ok(ca) => {
                let apply = apply_script(name, ca, command, true);
                let rest = apply.bind(performed());
                let request2 = RequestView::Process(ca, command);
                let then2 = rest->Ask_1;
                assert forall|reply2: Reply| request2.answered_by(reply2) implies (
                #[trigger] then2(reply2)).obeys(
                    now.push(Step { request: request2, reply: reply2 }),
                    any_rule(),
                    end,
                ) by {
                    let now2 = now.push(Step { request: request2, reply: reply2 });
                    assert(published_at(now2, past.len() as int, name));
                    assert forall|p: Seq<Step>, r: Result<(), ErrorView>| now2.is_prefix_of(
                        p,
                    ) implies #[trigger] end(p, r) by {
                        lemma_published_later(now2, p, name);
                    }
                    then2(reply2).lemma_obeys_settled(now2, any_rule(), end);
                }
            },
            Err(_) => {
                assert(published_at(now, past.len() as int, name));
            },
        }
    }
}

/// It went well, and every one of the CAs was loaded and asked to publish.
spec fn all_published(cas: Seq<Seq<char>>) -> spec_fn(Seq<Step>, Result<(), ErrorView>) -> bool {
    |past: Seq<Step>, res: Result<(), ErrorView>|
        {
            &&& res == Ok::<(), ErrorView>(())
            &&& forall|i: int| 0 <= i < cas.len() ==> published(past, #[trigger] cas[i])
        }
}

proof fn lemma_republish_each(cas: Seq<Seq<char>>, past: Seq<Step>)
    ensures
        republish_each_script(cas).obeys(past, any_rule(), all_published(cas)),
    decreases cas.len(), 1nat,
{
    if cas.len() > 0 {
        let name = cas[0];
        let rest = cas.drop_first();
        let mid = |p: Seq<Step>, r: Result<(), ErrorView>| published(p, name);
        let then = republish_rest(name, rest);
        lemma_republish_publishes(name, past);
        assert forall|p: Seq<Step>, r: Result<(), ErrorView>|
            past.is_prefix_of(p) && #[trigger] mid(p, r) implies then(r).obeys(
            p,
            any_rule(),
            all_published(cas),
        ) by {
            match r {
                Ok(_) => {
                    lemma_republish_each(rest, p);
                    lemma_all_published(republish_each_script(rest), cas, p);
                },
                Err(error) => {
                    let incident = IncidentView::Publishing(name, error);
                    let script = republish_log(incident, rest);
                    let request = RequestView::Log(incident);
                    let next = script->Ask_1;
                    assert forall|reply: Reply| request.answered_by(reply) implies (
                    #[trigger] next(reply)).obeys(
                        p.push(Step { request, reply }),
                        any_rule(),
                        all_published(cas),
                    ) by {
                        let now = p.push(Step { request, reply });
                        assert(p =~= now.subrange(0, p.len() as int));
                        lemma_published_later(p, now, name);
                        lemma_republish_each(rest, now);
                        lemma_all_published(republish_each_script(rest), cas, now);
                    }
                },
            }
        }
        republish_script(name).lemma_obeys_bind(then, past, any_rule(), mid, all_published(cas));
    }
}

/// If the first CA was published before and a script publishes the others,
/// then all are published.
proof fn lemma_all_published(
    script: Script<Result<(), ErrorView>>,
    cas: Seq<Seq<char>>,
    past: Seq<Step>,
)
    requires
        cas.len() > 0,
        published(past, cas[0]),
        script.obeys(past, any_rule(), all_published(cas.drop_first())),
    ensures
        script.obeys(past, any_rule(), all_published(cas)),
{
    let rest = cas.drop_first();
    assert forall|p: Seq<Step>, r: Result<(), ErrorView>|
        past.is_prefix_of(p) && #[trigger] all_published(rest)(p, r) implies all_published(cas)(
        p,
        r,
    ) by {
        lemma_published_later(past, p, cas[0]);
        assert forall|i: int| 0 <= i < cas.len() implies published(p, #[trigger] cas[i]) by {
            if i > 0 {
                assert(rest[i - 1] == cas[i]);
            }
        }
    }
    script.lemma_obeys_weaker(
        past,
        any_rule(),
        all_published(rest),
        any_rule(),
        all_published(cas),
    );
}

/// To republish all never fails, and it leaves no CA out: whatever goes
/// wrong with one, every CA that the store lists is loaded and asked to
/// publish.
pub proof fn law_republish_all(handles: Vec<Handle>)
    ensures
        republish_all_script().after(Reply::Handles(handles)).obeys(
            seq![Step { request: RequestView::List, reply: Reply::Handles(handles) }],
            any_rule(),
            |past: Seq<Step>, res: Result<(), ErrorView>|
                {
                    &&& res == Ok::<(), ErrorView>(())
                    &&& forall|i: int|
                        0 <= i < handles@.len() ==> published(past, #[trigger] handles@[i]@)
                },
        ),
{
    let past = seq![Step { request: RequestView::List, reply: Reply::Handles(handles) }];
    let cas = names(handles@);
    let end = |past: Seq<Step>, res: Result<(), ErrorView>|
        {
            &&& res == Ok::<(), ErrorView>(())
            &&& forall|i: int| 0 <= i < handles@.len() ==> published(past, #[trigger] handles@[i]@)
        };
    lemma_republish_each(cas, past);
    assert forall|p: Seq<Step>, r: Result<(), ErrorView>|
        past.is_prefix_of(p) && #[trigger] all_published(cas)(p, r) implies end(p, r) by {
        assert forall|i: int| 0 <= i < handles@.len() implies published(
            p,
            #[trigger] handles@[i]@,
        ) by {
            assert(cas[i] == handles@[i]@);
        }
    }
    republish_each_script(cas).lemma_obeys_weaker(
        past,
        any_rule(),
        all_published(cas),
        any_rule(),
        end,
    );
}

/// The CA `name` was asked, in its state at this point, for what it needs
/// from the parent: it was loaded and, if that went well, the contact of the
/// parent was looked up.
pub open spec fn refreshed_at(past: Seq<Step>, i: int, name: Seq<char>, parent: Seq<char>) -> bool {
    &&& past[i].request == RequestView::Latest(name)
    &&& match past[i].reply {
        Reply::Ca(Ok(ca)) => {
            &&& i + 1 < past.len()
            &&& past[i + 1].request == RequestView::Contact(ca, parent)
        },
        _ => true,
    }
}

/// An update of the CA `name` from the parent was begun.
pub open spec fn refreshed(past: Seq<Step>, name: Seq<char>, parent: Seq<char>) -> bool {
    exists|i: int| 0 <= i < past.len() && #[trigger] refreshed_at(past, i, name, parent)
}

/// At this point the CA `name` was loaded and, if that went well, asked for
/// its parents; if it has given any, an update from each of them was begun.
pub open spec fn visited_at(past: Seq<Step>, i: int, name: Seq<char>) -> bool {
    &&& past[i].request == RequestView::Latest(name)
    &&& match past[i].reply {
        Reply::Ca(Ok(ca)) => {
            &&& i + 1 < past.len()
            &&& past[i + 1].request == RequestView::Parents(ca)
            &&& past[i + 1].reply matches Reply::Parents(Ok(parents)) ==> forall|k: int|
                0 <= k < parents@.len() ==> refreshed(past, name, #[trigger] parents@[k]@)
        },
        _ => true,
    }
}

/// The CA `name` was loaded and updated from its parents, as far as it has
/// any.
pub open spec fn visited(past: Seq<Step>, name: Seq<char>) -> bool {
    exists|i: int| 0 <= i < past.len() && #[trigger] visited_at(past, i, name)
}

proof fn lemma_refreshed_later(
    past: Seq<Step>,
    later: Seq<Step>,
    name: Seq<char>,
    parent: Seq<char>,
)
    requires
        past.is_prefix_of(later),
        refreshed(past, name, parent),
    ensures
        refreshed(later, name, parent),
{
    let i = choose|i: int| 0 <= i < past.len() && #[trigger] refreshed_at(past, i, name, parent);
    let part = later.subrange(0, past.len() as int);
    assert(part[i] == later[i]);
    if i + 1 < past.len() {
        assert(part[i + 1] == later[i + 1]);
    }
    assert(refreshed_at(later, i, name, parent));
}

proof fn lemma_visited_later(past: Seq<Step>, later: Seq<Step>, name: Seq<char>)
    requires
        past.is_prefix_of(later),
        visited(past, name),
    ensures
        visited(later, name),
{
    let i = choose|i: int| 0 <= i < past.len() && #[trigger] visited_at(past, i, name);
    let part = later.subrange(0, past.len() as int);
    assert(part[i] == later[i]);
    if i + 1 < past.len() {
        assert(part[i + 1] == later[i + 1]);
        if let Reply::Parents(Ok(parents)) = past[i + 1].reply {
            assert forall|k: int|
                past[i].reply matches Reply::Ca(Ok(_)) && 0 <= k < parents@.len() implies refreshed(
                later,
                name,
                #[trigger] parents@[k]@,
            ) by {
                lemma_refreshed_later(past, later, name, parents@[k]@);
            }
        }
    }
    assert(visited_at(later, i, name));
}

proof fn lemma_update_refreshes(name: Seq<char>, parent: Seq<char>, past: Seq<Step>)
    ensures
        get_updates_from_parent_script(name, parent).obeys(
            past,
            any_rule(),
            |p: Seq<Step>, r: Result<(), ErrorView>| refreshed(p, name, parent),
        ),
{
    let end = |p: Seq<Step>, r: Result<(), ErrorView>| refreshed(p, name, parent);
    let mid = |p: Seq<Step>, r: Result<Entitlements, ErrorView>| refreshed(p, name, parent);
    let ask = entitlements_script(name, parent);
    let request = RequestView::Latest(name);
    let then = ask->Ask_1;
    assert forall|reply: Reply| request.answered_by(reply) implies (#[trigger] then(reply)).obeys(
        past.push(Step { request, reply }),
        any_rule(),
        mid,
    ) by {
        let now = past.push(Step { request, reply });
        match reply->Ca_0 {
            Ok(ca) => {
                let contact = RequestView::Contact(ca, parent);
                let next = then(reply)->Ask_1;
                assert forall|answer: Reply| contact.answered_by(answer) implies (#[trigger] next(
                    answer,
                )).obeys(now.push(Step { request: contact, reply: answer }), any_rule(), mid) by {
                    let now2 = now.push(Step { request: contact, reply: answer });
                    assert(refreshed_at(now2, past.len() as int, name, parent));
                    assert forall|p: Seq<Step>, r: Result<Entitlements, ErrorView>|
                        now2.is_prefix_of(p) implies #[trigger] mid(p, r) by {
                        lemma_refreshed_later(now2, p, name, parent);
                    }
                    next(answer).lemma_obeys_settled(now2, any_rule(), mid);
                }
            },
            Err(_) => {
                assert(refreshed_at(now, past.len() as int, name, parent));
            },
        }
    }
    let update = then_update(name, parent);
    assert forall|p: Seq<Step>, r: Result<Entitlements, ErrorView>|
        past.is_prefix_of(p) && #[trigger] mid(p, r) implies update(r).obeys(
        p,
        any_rule(),
        end,
    ) by {
        assert forall|q: Seq<Step>, x: Result<(), ErrorView>| p.is_prefix_of(
            q,
        ) implies #[trigger] end(q, x) by {
            lemma_refreshed_later(p, q, name, parent);
        }
        update(r).lemma_obeys_settled(p, any_rule(), end);
    }
    ask.lemma_obeys_bind(update, past, any_rule(), mid, end);
}

/// It went well, and every one of the CAs was visited.
spec fn all_visited(cas: Seq<Seq<char>>) -> spec_fn(Seq<Step>, Result<(), ErrorView>) -> bool {
    |past: Seq<Step>, res: Result<(), ErrorView>|
        {
            &&& res == Ok::<(), ErrorView>(())
            &&& forall|i: int| 0 <= i < cas.len() ==> visited(past, #[trigger] cas[i])
        }
}

/// If the first CA was visited before and a script visits the others, then
/// all are visited.
proof fn lemma_all_visited(
    script: Script<Result<(), ErrorView>>,
    cas: Seq<Seq<char>>,
    past: Seq<Step>,
)
    requires
        cas.len() > 0,
        visited(past, cas[0]),
        script.obeys(past, any_rule(), all_visited(cas.drop_first())),
    ensures
        script.obeys(past, any_rule(), all_visited(cas)),
{
    let rest = cas.drop_first();
    assert forall|p: Seq<Step>, r: Result<(), ErrorView>|
        past.is_prefix_of(p) && #[trigger] all_visited(rest)(p, r) implies all_visited(cas)(
        p,
        r,
    ) by {
        lemma_visited_later(past, p, cas[0]);
        assert forall|i: int| 0 <= i < cas.len() implies visited(p, #[trigger] cas[i]) by {
            if i > 0 {
                assert(rest[i - 1] == cas[i]);
            }
        }
    }
    script.lemma_obeys_weaker(past, any_rule(), all_visited(rest), any_rule(), all_visited(cas));
}

/// The CA was loaded and has given its parents at this point, and an update
/// from those before the given one was begun.
spec fn half_visited(
    past: Seq<Step>,
    i: int,
    name: Seq<char>,
    parents: Seq<Seq<char>>,
    upto: int,
) -> bool {
    &&& 0 <= i && i + 1 < past.len()
    &&& past[i].request == RequestView::Latest(name)
    &&& past[i].reply matches Reply::Ca(Ok(ca)) && past[i + 1].request == RequestView::Parents(ca)
    &&& past[i + 1].reply matches Reply::Parents(Ok(handles)) && names(handles@) == parents
    &&& 0 <= upto <= parents.len()
    &&& forall|k: int| 0 <= k < upto ==> refreshed(past, name, #[trigger] parents[k])
}

proof fn lemma_half_visited_later(
    past: Seq<Step>,
    later: Seq<Step>,
    i: int,
    name: Seq<char>,
    parents: Seq<Seq<char>>,
    upto: int,
)
    requires
        past.is_prefix_of(later),
        half_visited(past, i, name, parents, upto),
    ensures
        half_visited(later, i, name, parents, upto),
{
    let part = later.subrange(0, past.len() as int);
    assert(part[i] == later[i]);
    assert(part[i + 1] == later[i + 1]);
    assert forall|k: int| 0 <= k < upto implies refreshed(later, name, #[trigger] parents[k]) by {
        lemma_refreshed_later(past, later, name, parents[k]);
    }
}

proof fn lemma_refresh_parents(
    name: Seq<char>,
    parents: Seq<Seq<char>>,
    upto: int,
    rest: Seq<Seq<char>>,
    i: int,
    past: Seq<Step>,
)
    requires
        half_visited(past, i, name, parents, upto),
    ensures
        refresh_parents_script(name, parents.skip(upto), rest).obeys(
            past,
            any_rule(),
            all_visited(seq![name] + rest),
        ),
    decreases rest.len(), parents.len() - upto + 1, 0nat,
{
    let end = all_visited(seq![name] + rest);
    assert((seq![name] + rest).drop_first() =~= rest);
    let left = parents.skip(upto);
    if left.len() == 0 {
        let handles = past[i + 1].reply->Parents_0->Ok_0;
        assert forall|k: int| 0 <= k < handles@.len() implies refreshed(
            past,
            name,
            #[trigger] handles@[k]@,
        ) by {
            assert(parents[k] == handles@[k]@);
        }
        assert(visited_at(past, i, name));
        lemma_refresh_cas(rest, past);
        lemma_all_visited(refresh_cas_script(rest), seq![name] + rest, past);
    } else {
        let parent = left[0];
        assert(left.drop_first() =~= parents.skip(upto + 1));
        let next = refresh_rest(name, parents.skip(upto + 1), rest);
        let mid = |p: Seq<Step>, r: Result<(), ErrorView>| refreshed(p, name, parent);
        lemma_update_refreshes(name, parent, past);
        assert forall|p: Seq<Step>, r: Result<(), ErrorView>|
            past.is_prefix_of(p) && #[trigger] mid(p, r) implies next(r).obeys(
            p,
            any_rule(),
            end,
        ) by {
            lemma_half_visited_later(past, p, i, name, parents, upto);
            assert(half_visited(p, i, name, parents, upto + 1));
            match r {
                Ok(_) => lemma_refresh_parents(name, parents, upto + 1, rest, i, p),
                Err(error) => {
                    let incident = IncidentView::Refreshing(name, error);
                    let log = refresh_log(incident, name, parents.skip(upto + 1), rest);
                    let request = RequestView::Log(incident);
                    let then = log->Ask_1;
                    assert forall|reply: Reply| request.answered_by(reply) implies (
                    #[trigger] then(reply)).obeys(
                        p.push(Step { request, reply }),
                        any_rule(),
                        end,
                    ) by {
                        let now = p.push(Step { request, reply });
                        assert(p =~= now.subrange(0, p.len() as int));
                        lemma_half_visited_later(p, now, i, name, parents, upto + 1);
                        lemma_refresh_parents(name, parents, upto + 1, rest, i, now);
                    }
                },
            }
        }
        get_updates_from_parent_script(name, parent).lemma_obeys_bind(
            next,
            past,
            any_rule(),
            mid,
            end,
        );
    }
}

proof fn lemma_refresh_cas(cas: Seq<Seq<char>>, past: Seq<Step>)
    ensures
        refresh_cas_script(cas).obeys(past, any_rule(), all_visited(cas)),
    decreases cas.len(), 0int, 1nat,
{
    if cas.len() > 0 {
        let name = cas[0];
        let rest = cas.drop_first();
        assert(seq![name] + rest =~= cas);
        let request = RequestView::Latest(name);
        let script = refresh_cas_script(cas);
        let then = script->Ask_1;
        assert forall|reply: Reply| request.answered_by(reply) implies (#[trigger] then(
            reply,
        )).obeys(past.push(Step { request, reply }), any_rule(), all_visited(cas)) by {
            let now = past.push(Step { request, reply });
            match reply->Ca_0 {
                Ok(ca) => {
                    let ask = RequestView::Parents(ca);
                    let next = then(reply)->Ask_1;
                    assert(then(reply) == refresh_ca_script(name, ca, rest));
                    assert forall|answer: Reply| ask.answered_by(answer) implies (#[trigger] next(
                        answer,
                    )).obeys(
                        now.push(Step { request: ask, reply: answer }),
                        any_rule(),
                        all_visited(cas),
                    ) by {
                        let now2 = now.push(Step { request: ask, reply: answer });
                        match answer->Parents_0 {
                            Ok(parents) => {
                                let all = names(parents@);
                                assert(all.skip(0) =~= all);
                                assert(half_visited(now2, past.len() as int, name, all, 0));
                                lemma_refresh_parents(
                                    name,
                                    all,
                                    0,
                                    rest,
                                    past.len() as int,
                                    now2,
                                );
                            },
                            Err(_) => {
                                assert(visited_at(now2, past.len() as int, name));
                                lemma_refresh_cas(rest, now2);
                                lemma_all_visited(refresh_cas_script(rest), cas, now2);
                            },
                        }
                    }
                },
                Err(_) => {
                    assert(visited_at(now, past.len() as int, name));
                    lemma_refresh_cas(rest, now);
                    lemma_all_visited(refresh_cas_script(rest), cas, now);
                },
            }
        }
    }
}

/// To update all CAs never fails, and it leaves none out: whatever goes wrong
/// with one CA, or with one parent of it, every CA that the store lists is
/// asked for its parents, and an update from every parent is begun.
pub proof fn law_get_updates_for_all_cas(handles: Vec<Handle>)
    ensures
        get_updates_for_all_cas_script().after(Reply::Handles(handles)).obeys(
            seq![Step { request: RequestView::List, reply: Reply::Handles(handles) }],
            any_rule(),
            |past: Seq<Step>, res: Result<(), ErrorView>|
                {
                    &&& res == Ok::<(), ErrorView>(())
                    &&& forall|i: int|
                        0 <= i < handles@.len() ==> visited(past, #[trigger] handles@[i]@)
                },
        ),
{
    let past = seq![Step { request: RequestView::List, reply: Reply::Handles(handles) }];
    let cas = names(handles@);
    let end = |past: Seq<Step>, res: Result<(), ErrorView>|
        {
            &&& res == Ok::<(), ErrorView>(())
            &&& forall|i: int| 0 <= i < handles@.len() ==> visited(past, #[trigger] handles@[i]@)
        };
    lemma_refresh_cas(cas, past);
    assert forall|p: Seq<Step>, r: Result<(), ErrorView>|
        past.is_prefix_of(p) && #[trigger] all_visited(cas)(p, r) implies end(p, r) by {
        assert forall|i: int| 0 <= i < handles@.len() implies visited(
            p,
            #[trigger] handles@[i]@,
        ) by {
            assert(cas[i] == handles@[i]@);
        }
    }
    refresh_cas_script(cas).lemma_obeys_weaker(
        past,
        any_rule(),
        all_visited(cas),
        any_rule(),
        end,
    );
}

/// The request changes nothing that is stored.
pub open spec fn reads(request: RequestView) -> bool {
    match request {
        RequestView::Add(_) | RequestView::Update(_, _, _) => false,
        _ => true,
    }
}

/// Only requests that change nothing.
pub open spec fn reading() -> spec_fn(Seq<Step>, RequestView) -> bool {
    |past: Seq<Step>, request: RequestView| reads(request)
}

/// The requests by which a CA learns what it is entitled to: nothing is
/// changed, and nothing is wanted from the parent but an answer.
spec fn asking() -> spec_fn(Seq<Step>, RequestView) -> bool {
    |past: Seq<Step>, request: RequestView|
        match request {
            RequestView::Latest(_) | RequestView::Contact(_, _) => true,
            RequestView::Entitlements(_, _) | RequestView::Log(_) => true,
            RequestView::Sign(_, _) | RequestView::Post(_, _, _) => true,
            RequestView::Decode(_, _) | RequestView::Validate(_, _) => true,
            RequestView::Open(_) => true,
            _ => false,
        }
}

proof fn lemma_list_remote_asks(name: Seq<char>, contact: ParentResponse, past: Seq<Step>)
    ensures
        list_remote_script(name, contact).obeys(past, asking(), any_end()),
{
    let script = list_remote_script(name, contact);
    let then = script->Ask_1;
    let request = RequestView::Latest(name);
    assert forall|reply: Reply| request.answered_by(reply) implies (#[trigger] then(reply)).obeys(
        past.push(Step { request, reply }),
        asking(),
        any_end(),
    ) by {
        let now = past.push(Step { request, reply });
        if let Ok(ca) = reply->Ca_0 {
            let exchange = exchange_script(ca.id_key, contact, query_message(contact, Qry::List));
            assert(exchange.obeys(now, asking(), any_end())) by {
                reveal_with_fuel(Script::<_>::obeys, 6);
            }
            exchange.lemma_obeys_bind(then_listed(), now, asking(), any_end(), any_end());
        }
    }
}

proof fn lemma_entitlements_asks(name: Seq<char>, parent: Seq<char>, past: Seq<Step>)
    ensures
        entitlements_script(name, parent).obeys(past, asking(), any_end()),
{
    let ask = entitlements_script(name, parent);
    let then = ask->Ask_1;
    let request = RequestView::Latest(name);
    assert forall|reply: Reply| request.answered_by(reply) implies (#[trigger] then(reply)).obeys(
        past.push(Step { request, reply }),
        asking(),
        any_end(),
    ) by {
        let now = past.push(Step { request, reply });
        if let Ok(ca) = reply->Ca_0 {
            let next = then(reply)->Ask_1;
            let contact = RequestView::Contact(ca, parent);
            assert forall|answer: Reply| contact.answered_by(answer) implies (#[trigger] next(
                answer,
            )).obeys(
                now.push(Step { request: contact, reply: answer }),
                asking(),
                any_end(),
            ) by {
                let now2 = now.push(Step { request: contact, reply: answer });
                match answer->Contact_0 {
                    Ok(ParentCaContact::Rfc6492(contact)) => {
                        lemma_list_remote_asks(name, contact, now2);
                    },
                    Ok(ParentCaContact::Embedded) => {
                        reveal_with_fuel(Script::<_>::obeys, 3);
                    },
                    Err(_) => {},
                }
            }
        }
    }
}

/// To look at a CA, a child, the list of CAs or what a child is entitled to,
/// or to make a token, changes nothing; nor does it to ask a parent for the
/// entitlements.
pub proof fn law_looking_changes_nothing(
    name: Seq<char>,
    other: Seq<char>,
    missing: Missing,
    past: Seq<Step>,
)
    ensures
        load_script(name, missing).obeys(past, reading(), any_end()),
        show_child_script(name, other).obeys(past, reading(), any_end()),
        list_script(name, missing, other).obeys(past, reading(), any_end()),
        cas_script().obeys(past, reading(), any_end()),
        token_script().obeys(past, reading(), any_end()),
        entitlements_script(name, other).obeys(past, reading(), any_end()),
{
    lemma_entitlements_asks(name, other, past);
    entitlements_script(name, other).lemma_obeys_weaker(
        past,
        asking(),
        any_end(),
        reading(),
        any_end(),
    );
    reveal_with_fuel(Script::<_>::obeys, 3);
}

/// To show a child of the trust anchor fails only if the trust anchor is not
/// initialised. A child that the trust anchor does not know is no failure:
/// there is nothing to show.
pub proof fn law_show_child(child: Seq<char>)
    ensures
        show_child_script(TA_NAME@, child).obeys(
            Seq::empty(),
            any_rule(),
            |past: Seq<Step>, res: Result<Option<ChildCaInfo>, ErrorView>|
                match res {
                    Ok(Some(info)) => past.last().reply == Reply::Child(Ok(info)),
                    Ok(None) => past.last().reply matches Reply::Child(Err(_)),
                    Err(error) => {
                        &&& error == ErrorView::TrustAnchorNotInitialisedError
                        &&& past.last().reply matches Reply::Ca(Err(_))
                    },
                },
        ),
{
    reveal_with_fuel(Script::<_>::obeys, 3);
}

/// If the child is to be cut down to its resources, it is at once, that is
/// with no time of grace, and only if that was asked for and the last step
/// has stored a change of the child.
pub open spec fn shrinking(child: Seq<char>, force: bool) -> spec_fn(
    Seq<Step>,
    RequestView,
) -> bool {
    |past: Seq<Step>, request: RequestView|
        request matches RequestView::Process(ca, command) ==> (
        command matches CommandView::ChildShrink { child: who, grace_nanos, .. } ==> {
            &&& force
            &&& who == child
            &&& grace_nanos == 0
            &&& past.len() > 0
            &&& past.last().request is Update
            &&& past.last().reply == Reply::Ca(Ok(ca))
        })
}

/// To update a child takes resources from it only if that is forced, and then
/// without any time of grace; if nothing has changed, nothing is taken.
pub proof fn law_update_child(child: Seq<char>, req: UpdateChildRequest)
    ensures
        ta_update_child_script(child, req).obeys(
            Seq::empty(),
            shrinking(child, req.force),
            any_end(),
        ),
{
    let rule = shrinking(child, req.force);
    let command = CommandView::ChildUpdate { ca: TA_NAME@, child, req };
    let execute = execute_script(TA_NAME@, Missing::TrustAnchor, command, true);
    let mid = |p: Seq<Step>, r: Result<Settled, ErrorView>|
        r matches Ok(settled) ==> (settled.changed ==> {
            &&& p.len() > 0
            &&& p.last().request is Update
            &&& p.last().reply == Reply::Ca(Ok(settled.ca))
        });
    assert(execute.obeys(Seq::empty(), rule, mid)) by {
        reveal_with_fuel(Script::<_>::obeys, 4);
    }
    let then = shrink_child(child, req.force);
    assert forall|p: Seq<Step>, r: Result<Settled, ErrorView>|
        Seq::<Step>::empty().is_prefix_of(p) && #[trigger] mid(p, r) implies then(r).obeys(
        p,
        rule,
        any_end(),
    ) by {
        if let Ok(settled) = r {
            if settled.changed && req.force {
                let apply = apply_script(
                    TA_NAME@,
                    settled.ca,
                    CommandView::ChildShrink { ca: TA_NAME@, child, grace_nanos: 0 },
                    true,
                );
                assert(apply.obeys(p, rule, any_end())) by {
                    reveal_with_fuel(Script::<_>::obeys, 3);
                }
                apply.lemma_obeys_bind(performed(), p, rule, any_end(), any_end());
            }
        }
    }
    execute.lemma_obeys_bind(then, Seq::empty(), rule, mid, any_end());
}

/// Certificates are asked for only after the revocations that the CA wants
/// from the parent were looked up.
pub open spec fn revoking_first(parent: Seq<char>) -> spec_fn(Seq<Step>, RequestView) -> bool {
    |past: Seq<Step>, request: RequestView| request is CertRequests ==> asked_first(past, parent)
}

/// The revocations that a CA wants from the parent were looked up.
pub open spec fn asked_first(past: Seq<Step>, parent: Seq<char>) -> bool {
    exists|i: int|
        0 <= i < past.len() && ((#[trigger] past[i]).request matches RequestView::Revocations(
            _,
            from,
        ) && from == parent)
}

proof fn lemma_asked_later(past: Seq<Step>, later: Seq<Step>, parent: Seq<char>)
    requires
        past.is_prefix_of(later),
        asked_first(past, parent),
    ensures
        asked_first(later, parent),
{
    let i = choose|i: int|
        0 <= i < past.len() && ((#[trigger] past[i]).request matches RequestView::Revocations(
            _,
            from,
        ) && from == parent);
    assert(later.subrange(0, past.len() as int)[i] == later[i]);
}

/// Requests to a parent go out in order: revocations before certificates. If
/// the revocations fail, no certificates are asked for.
pub proof fn law_revocations_come_first(name: Seq<char>, parent: Seq<char>)
    ensures
        send_requests_script(name, parent).obeys(
            Seq::empty(),
            revoking_first(parent),
            any_end(),
        ),
        forall|error: ErrorView|
            #![trigger then_certify(name, parent)(Err(error))]
            then_certify(name, parent)(Err(error)) == Script::Done(Err::<(), _>(error)),
{
    let rule = revoking_first(parent);
    let start = Seq::<Step>::empty();
    let revoke = revoke_keys_script(name, parent);
    let mid = |p: Seq<Step>, r: Result<(), ErrorView>| r is Ok ==> asked_first(p, parent);
    let request = RequestView::Latest(name);
    let then = revoke->Ask_1;
    assert forall|reply: Reply| request.answered_by(reply) implies (#[trigger] then(reply)).obeys(
        start.push(Step { request, reply }),
        rule,
        mid,
    ) by {
        let now = start.push(Step { request, reply });
        if let Ok(ca) = reply->Ca_0 {
            let ask = RequestView::Revocations(ca, parent);
            let next = then(reply)->Ask_1;
            assert forall|answer: Reply| ask.answered_by(answer) implies (#[trigger] next(
                answer,
            )).obeys(now.push(Step { request: ask, reply: answer }), rule, mid) by {
                let now2 = now.push(Step { request: ask, reply: answer });
                assert(now2[1].request == ask);
                assert(asked_first(now2, parent));
                assert forall|p: Seq<Step>, q: RequestView| now2.is_prefix_of(
                    p,
                ) implies #[trigger] rule(p, q) by {
                    lemma_asked_later(now2, p, parent);
                }
                assert forall|p: Seq<Step>, r: Result<(), ErrorView>| now2.is_prefix_of(
                    p,
                ) implies #[trigger] mid(p, r) by {
                    lemma_asked_later(now2, p, parent);
                }
                next(answer).lemma_obeys_settled(now2, rule, mid);
            }
        }
    }
    let certify = then_certify(name, parent);
    assert forall|p: Seq<Step>, r: Result<(), ErrorView>|
        start.is_prefix_of(p) && #[trigger] mid(p, r) implies certify(r).obeys(
        p,
        rule,
        any_end(),
    ) by {
        if r is Ok {
            assert forall|q: Seq<Step>, x: RequestView| p.is_prefix_of(q) implies #[trigger] rule(
                q,
                x,
            ) by {
                lemma_asked_later(p, q, parent);
            }
            certify(r).lemma_obeys_settled(p, rule, any_end());
        }
    }
    revoke.lemma_obeys_bind(certify, start, rule, mid, any_end());
}

/// A change was stored.
pub open spec fn stored(past: Seq<Step>) -> bool {
    exists|i: int|
        0 <= i < past.len() && (#[trigger] past[i]).request is Update && (
        past[i].reply matches Reply::Ca(Ok(_)))
}

/// What a CA wants from a parent is looked up only after a change was stored.
pub open spec fn sending_if_stored() -> spec_fn(Seq<Step>, RequestView) -> bool {
    |past: Seq<Step>, request: RequestView|
        request is Revocations || request is CertRequests ==> stored(past)
}

proof fn lemma_stored_later(past: Seq<Step>, later: Seq<Step>)
    requires
        past.is_prefix_of(later),
        stored(past),
    ensures
        stored(later),
{
    let i = choose|i: int|
        0 <= i < past.len() && (#[trigger] past[i]).request is Update && (
        past[i].reply matches Reply::Ca(Ok(_)));
    assert(later.subrange(0, past.len() as int)[i] == later[i]);
}

/// If a command has changed a CA, the change was stored.
spec fn changed_if_stored() -> spec_fn(Seq<Step>, Result<Settled, ErrorView>) -> bool {
    |past: Seq<Step>, res: Result<Settled, ErrorView>|
        res matches Ok(settled) ==> (settled.changed ==> stored(past))
}

proof fn lemma_execute_stores(name: Seq<char>, command: CommandView, past: Seq<Step>)
    ensures
        execute_script(name, Missing::Store, command, true).obeys(
            past,
            sending_if_stored(),
            changed_if_stored(),
        ),
{
    let rule = sending_if_stored();
    let end = changed_if_stored();
    let execute = execute_script(name, Missing::Store, command, true);
    let then = execute->Ask_1;
    let load = RequestView::Latest(name);
    assert forall|reply: Reply| load.answered_by(reply) implies (#[trigger] then(reply)).obeys(
        past.push(Step { request: load, reply }),
        rule,
        end,
    ) by {
        let now = past.push(Step { request: load, reply });
        if let Ok(ca) = reply->Ca_0 {
            let process = RequestView::Process(ca, command);
            let next = then(reply)->Ask_1;
            assert forall|answer: Reply| process.answered_by(answer) implies (#[trigger] next(
                answer,
            )).obeys(now.push(Step { request: process, reply: answer }), rule, end) by {
                let now2 = now.push(Step { request: process, reply: answer });
                if let Ok(events) = answer->Events_0 {
                    if events@.len() > 0 {
                        let update = RequestView::Update(name, ca, events@);
                        let last = next(answer)->Ask_1;
                        assert forall|done: Reply| update.answered_by(done) implies (
                        #[trigger] last(done)).obeys(
                            now2.push(Step { request: update, reply: done }),
                            rule,
                            end,
                        ) by {
                            let now3 = now2.push(Step { request: update, reply: done });
                            assert(now3[now2.len() as int].request == update);
                        }
                    }
                }
            }
        }
    }
}

/// A CA sends no requests to its parent if the entitlements are what the CA
/// has already: only a change of them that was stored makes it do so.
pub proof fn law_unchanged_entitlements_send_nothing(name: Seq<char>, parent: Seq<char>)
    ensures
        get_updates_from_parent_script(name, parent).obeys(
            Seq::empty(),
            sending_if_stored(),
            any_end(),
        ),
{
    let rule = sending_if_stored();
    let start = Seq::<Step>::empty();
    let ask = entitlements_script(name, parent);
    lemma_entitlements_asks(name, parent, start);
    ask.lemma_obeys_weaker(start, asking(), any_end(), rule, any_end());
    let update = then_update(name, parent);
    assert forall|p: Seq<Step>, r: Result<Entitlements, ErrorView>|
        start.is_prefix_of(p) && #[trigger] any_end::<Result<Entitlements, ErrorView>>()(
            p,
            r,
        ) implies update(r).obeys(p, rule, any_end()) by {
        if let Ok(entitlements) = r {
            let execute = update_entitlements_script(name, parent, entitlements);
            let mid = changed_if_stored();
            lemma_execute_stores(
                name,
                CommandView::UpdateEntitlements { ca: name, parent, entitlements },
                p,
            );
            let send = then_send(name, parent);
            assert forall|q: Seq<Step>, x: Result<Settled, ErrorView>|
                p.is_prefix_of(q) && #[trigger] mid(q, x) implies send(x).obeys(
                q,
                rule,
                any_end(),
            ) by {
                if let Ok(settled) = x {
                    if settled.changed {
                        assert forall|s: Seq<Step>, y: RequestView| q.is_prefix_of(
                            s,
                        ) implies #[trigger] rule(s, y) by {
                            lemma_stored_later(q, s);
                        }
                        send(x).lemma_obeys_settled(q, rule, any_end());
                    }
                }
            }
            execute.lemma_obeys_bind(send, p, rule, mid, any_end());
        }
    }
    ask.lemma_obeys_bind(update, start, rule, any_end(), any_end());
}

} // verus!
