//! How CAs come into being, with a store that keeps what it is given.
use crate::dialogue::{Reply, RequestView};
use crate::error::ErrorView;
use crate::script::Script;
use crate::store::{cas_script, create_script, load_script, taken, Missing};
use crate::trust_anchor::show_child_script;
use crate::types::{CertAuth, ChildCaInfo, NewCaView, TA_NAME};
use crate::updates::names;
use vstd::prelude::*;

verus! {

/// The names are exactly these, each of them once.
pub open spec fn exactly(names: Seq<Seq<char>>, these: Set<Seq<char>>) -> bool {
    names.no_duplicates() && names.to_set() == these
}

/// The reply is one that a store gives that holds the CAs of these names:
/// it finds a CA if and only if it holds it, and lists exactly those that it
/// holds. A new CA gets the name that was asked for.
pub open spec fn reliable(held: Set<Seq<char>>, request: RequestView, reply: Reply) -> bool {
    match request {
        RequestView::Has(name) => reply == Reply::Has(held.contains(name)),
        RequestView::Latest(name) => reply is Ca && (reply->Ca_0 is Ok <==> held.contains(name)),
        RequestView::Init(new) => reply matches Reply::Init(Ok(init)) ==> init.handle@
            == new.name(),
        RequestView::List => reply matches Reply::Handles(handles) && exactly(
            names(handles@),
            held,
        ),
        _ => true,
    }
}

/// The names of the CAs that the store holds after a request. Only to add a
/// CA changes them.
pub open spec fn held_after(held: Set<Seq<char>>, request: RequestView, reply: Reply) -> Set<
    Seq<char>,
> {
    match (request, reply) {
        (RequestView::Add(init), Reply::Added(Ok(_))) => held.insert(init.handle@),
        _ => held,
    }
}

/// With a reliable store that holds the CAs of these names, every result and
/// what the store then holds is as `end` says.
pub open spec fn leads<R>(
    script: Script<R>,
    held: Set<Seq<char>>,
    end: spec_fn(Set<Seq<char>>, R) -> bool,
) -> bool
    decreases script,
{
    match script {
        Script::Done(result) => end(held, result),
        Script::Ask(request, next) => forall|reply: Reply|
            request.answered_by(reply) && reliable(held, request, reply) ==> leads(
                #[trigger] next(reply),
                held_after(held, request, reply),
                end,
            ),
        Script::Halt => true,
    }
}

/// A CA can be loaded if and only if the store holds it; to load it changes
/// nothing.
pub proof fn law_load(name: Seq<char>, missing: Missing, held: Set<Seq<char>>)
    ensures
        leads(
            load_script(name, missing),
            held,
            |after: Set<Seq<char>>, res: Result<CertAuth, ErrorView>|
                after == held && (res is Ok <==> held.contains(name)),
        ),
{
    reveal_with_fuel(leads, 2);
}

/// The list has exactly these names, and the store holds what it held.
pub open spec fn lists(held: Set<Seq<char>>, these: Set<Seq<char>>) -> spec_fn(
    Set<Seq<char>>,
    Seq<Seq<char>>,
) -> bool {
    |after: Set<Seq<char>>, cas: Seq<Seq<char>>| after == held && exactly(cas, these)
}

/// The CAs that are listed are exactly those that the store holds, the trust
/// anchor among them, each once; to list them changes nothing.
pub proof fn law_cas(held: Set<Seq<char>>)
    ensures
        leads(cas_script(), held, lists(held, held)),
{
    reveal_with_fuel(leads, 2);
}

/// Until it is initialised, the trust anchor is reported as such.
pub proof fn law_uninitialised_trust_anchor(held: Set<Seq<char>>)
    requires
        !held.contains(TA_NAME@),
    ensures
        leads(
            load_script(TA_NAME@, Missing::TrustAnchor),
            held,
            |after: Set<Seq<char>>, res: Result<CertAuth, ErrorView>|
                res == Err::<CertAuth, _>(ErrorView::TrustAnchorNotInitialisedError),
        ),
{
    reveal_with_fuel(leads, 2);
}

/// To show a child fails if and only if the trust anchor is not initialised,
/// which is what is reported; it changes nothing.
pub proof fn law_show_child_needs_the_trust_anchor(child: Seq<char>, held: Set<Seq<char>>)
    ensures
        leads(
            show_child_script(TA_NAME@, child),
            held,
            |after: Set<Seq<char>>, res: Result<Option<ChildCaInfo>, ErrorView>|
                {
                    &&& after == held
                    &&& match res {
                        Ok(_) => held.contains(TA_NAME@),
                        Err(error) => {
                            &&& !held.contains(TA_NAME@)
                            &&& error == ErrorView::TrustAnchorNotInitialisedError
                        },
                    }
                },
        ),
{
    reveal_with_fuel(leads, 3);
}

/// A CA that the store holds is not created again: that is reported, and
/// nothing changes.
pub proof fn law_create_is_refused(new: NewCaView, held: Set<Seq<char>>)
    requires
        held.contains(new.name()),
    ensures
        leads(
            create_script(new),
            held,
            |after: Set<Seq<char>>, res: Result<(), ErrorView>|
                after == held && res == Err::<(), _>(taken(new)),
        ),
{
    reveal_with_fuel(leads, 2);
}

/// The store holds what it held, and the new CA if it was created.
pub(crate) open(crate) spec fn created(new: NewCaView, held: Set<Seq<char>>) -> spec_fn(
    Set<Seq<char>>,
    Result<(), ErrorView>,
) -> bool {
    |after: Set<Seq<char>>, res: Result<(), ErrorView>|
        match res {
            Ok(_) => after == held.insert(new.name()),
            Err(_) => after == held,
        }
}

pub(crate) proof fn lemma_created(new: NewCaView, held: Set<Seq<char>>)
    requires
        !held.contains(new.name()),
    ensures
        leads(create_script(new), held, created(new, held)),
{
    reveal_with_fuel(leads, 4);
}

pub(crate) proof fn lemma_leads_weaker<R>(
    script: Script<R>,
    held: Set<Seq<char>>,
    end: spec_fn(Set<Seq<char>>, R) -> bool,
    weaker: spec_fn(Set<Seq<char>>, R) -> bool,
)
    requires
        leads(script, held, end),
        forall|after: Set<Seq<char>>, r: R| #[trigger] end(after, r) ==> weaker(after, r),
    ensures
        leads(script, held, weaker),
    decreases script,
{
    match script {
        Script::Done(result) => {
            assert(end(held, result));
        },
        Script::Ask(request, next) => {
            assert forall|reply: Reply|
                request.answered_by(reply) && reliable(held, request, reply) implies leads(
                #[trigger] next(reply),
                held_after(held, request, reply),
                weaker,
            ) by {
                lemma_leads_weaker(
                    next(reply),
                    held_after(held, request, reply),
                    end,
                    weaker,
                );
            }
        },
        Script::Halt => {},
    }
}

/// If a CA was created, the store holds it and what it held; the CA can be
/// loaded from then on, and to create a CA of the same name is refused. If it
/// was not, the store holds what it held.
pub proof fn law_create_then_load(
    new: NewCaView,
    again: NewCaView,
    missing: Missing,
    held: Set<Seq<char>>,
)
    requires
        !held.contains(new.name()),
        again.name() == new.name(),
    ensures
        leads(
            create_script(new),
            held,
            |after: Set<Seq<char>>, res: Result<(), ErrorView>|
                match res {
                    Ok(_) => {
                        &&& after == held.insert(new.name())
                        &&& leads(
                            load_script(new.name(), missing),
                            after,
                            |last: Set<Seq<char>>, res: Result<CertAuth, ErrorView>| res is Ok,
                        )
                        &&& leads(
                            create_script(again),
                            after,
                            |last: Set<Seq<char>>, res: Result<(), ErrorView>|
                                res == Err::<(), _>(taken(again)),
                        )
                    },
                    Err(_) => after == held,
                },
        ),
{
    lemma_created(new, held);
    let end = |after: Set<Seq<char>>, res: Result<(), ErrorView>|
        match res {
            Ok(_) => {
                &&& after == held.insert(new.name())
                &&& leads(
                    load_script(new.name(), missing),
                    after,
                    |last: Set<Seq<char>>, res: Result<CertAuth, ErrorView>| res is Ok,
                )
                &&& leads(
                    create_script(again),
                    after,
                    |last: Set<Seq<char>>, res: Result<(), ErrorView>|
                        res == Err::<(), _>(taken(again)),
                )
            },
            Err(_) => after == held,
        };
    assert forall|after: Set<Seq<char>>, r: Result<(), ErrorView>|
        #[trigger] created(new, held)(after, r) implies end(after, r) by {
        if r is Ok {
            reveal_with_fuel(leads, 2);
        }
    }
    lemma_leads_weaker(create_script(new), held, created(new, held), end);
}

} // verus!
