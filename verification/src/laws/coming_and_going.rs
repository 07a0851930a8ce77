//! What it takes to come up, to stop and to leave.

use vstd::prelude::*;

use crate::company::{CompanyModel, TransitionAction, TransitionStatus};
use crate::laws::decision::Decision;
use crate::laws::frames::{lemma_clear_fences_in, lemma_number_people, lemma_retract_in};
use crate::laws::ledger::{
    ledgered, lemma_next_is_free, lemma_open_transition, lemma_ready_transition, lemma_superseded,
    none_open,
};
use crate::laws::running::lemma_root_same;
use crate::org_ops::create::hire_line;
use crate::org_ops::guards::ledger_line;
use crate::org_ops::shutdown::ShutdownKindModel;
use crate::org_projection::HireModel;
use crate::org_view::{first_where, lemma_first_where};
use crate::organization::EmploymentState;
use crate::rows::ledger::routine_park;
use crate::table::{lemma_finite_listing, listing};
use crate::text::Text;

verus! {

/// Starting somebody puts them in the company, wants them up and lets them be
/// started. The CEO needs no start decision.
pub proof fn law_starting_brings_up(c: CompanyModel, person: Text, at: Text, actor: Text)
    requires
        c.allows(Decision::Start { person }, actor),
    ensures
        c.started(person, at, actor).people[person].employment_state == EmploymentState::Active,
        c.started(person, at, actor).desired(person),
        c.started(person, at, actor).fences.dom().contains(person) || c.is_ceo(person),
        c.is_ceo(person) ==> c.started(person, at, actor).fences == c.fences,
        c.started(person, at, actor).people[person].department_id
            == c.people[person].department_id,
{
}

/// Waking somebody lets them be started, and leaves it to the reconciler who is
/// wanted up.
pub proof fn law_waking_leaves_who_is_wanted(
    c: CompanyModel,
    person: Text,
    at: Text,
    actor: Text,
    p: Text,
)
    requires
        c.allows(Decision::Wake { person }, actor),
    ensures
        c.woken(person, at, actor).desired(p) == c.desired(p),
        c.woken(person, at, actor).fences.dom().contains(person) || c.is_ceo(person),
        c.woken(person, at, actor).people[person].employment_state == EmploymentState::Active,
{
}

/// Waking somebody again at the same moment changes nothing and tells nothing.
pub proof fn law_waking_again_changes_nothing(
    c: CompanyModel,
    person: Text,
    at: Text,
    actor: Text,
)
    requires
        c.allows(Decision::Wake { person }, actor),
    ensures
        c.woken(person, at, actor).woken(person, at, actor) == c.woken(person, at, actor),
{
    let w = c.woken(person, at, actor);
    assert(w.departments == c.departments);
    assert(w.org().departments =~= c.org().departments);
    assert(w.is_ceo(person) == c.is_ceo(person));
    assert(w.people[person].employment_state == EmploymentState::Active);
    assert(w.touches.len() == 0);
    assert(w.parked_under(person) is None);
    let again = w.woken(person, at, actor);
    assert(again.touches =~= w.touches);
    assert(again.events =~= w.events);
}

/// Offboarding somebody leaves them their start decision and points their
/// activity at an open offboarding of theirs: the departure waits for it.
pub proof fn law_offboarding_waits_for_the_handoff(
    c: CompanyModel,
    person: Text,
    at: Text,
    actor: Text,
)
    requires
        c.finite(),
        c.allows(Decision::Offboard { person }, actor),
        c.transition_seq < u64::MAX,
    ensures
        ({
            let r = c.offboarded(person, at, actor);
            &&& r.fences == c.fences
            &&& r.people[person].employment_state == EmploymentState::Departed
            &&& r.people[person].department_id == c.people[person].department_id
            &&& !r.desired(person)
            &&& r.activity[person].active_transition_id matches Some(t)
                && r.transitions.dom().contains(t) && r.transitions[t].person_id == person
                && r.transitions[t].action == TransitionAction::Offboard
                && r.transitions[t].status.open()
        }),
{
    lemma_ready_transition(c, person, TransitionAction::Offboard);
}

/// Shutting somebody down leaves the chart and the staffing history as they
/// are. They are not to be started, are not wanted up and have nothing open; the
/// transition that says so is cancelled, and abandoned by the clock.
pub proof fn law_shutting_down_stops_only_the_running(
    c: CompanyModel,
    person: Text,
    kind: ShutdownKindModel,
    at: Text,
    actor: Text,
)
    requires
        c.finite(),
        ledgered(c),
        c.allows(Decision::Shutdown { person, kind }, actor),
        c.transition_seq < u64::MAX,
    ensures
        ({
            let r = c.shut_down(person, kind, at, actor);
            let t = c.next_transition_id(person, TransitionAction::Park);
            &&& r.people == c.people
            &&& r.departments == c.departments
            &&& r.staffing == c.staffing
            &&& !r.fences.dom().contains(person)
            &&& !r.desired(person)
            &&& none_open(r, person)
            &&& r.transitions.dom().contains(t)
            &&& r.transitions[t].status == TransitionStatus::Cancelled
            &&& r.transitions[t].abandoned_at == Some(at)
        }),
{
    let b = c.counted();
    assert(ledgered(b));
    lemma_superseded(b, person, kind.marker(), at);
    let e = b.supersede_open_transition(person, kind.marker(), at);
    let r = c.shut_down(person, kind, at, actor);
    let t = c.next_transition_id(person, TransitionAction::Park);
    assert forall|s: Text| #[trigger]
        r.transitions.dom().contains(s) && r.transitions[s].person_id == person implies
        !r.transitions[s].status.open() by {
        assert(e.transitions.dom().contains(s) || s == t);
    }
}

/// Benching somebody directly mints no transition and moves nobody. They are
/// not to be started and not wanted up; a park of theirs that stands ready is
/// what their activity points at.
pub proof fn law_benching_mints_nothing(c: CompanyModel, person: Text, at: Text, actor: Text)
    requires
        c.finite(),
        c.allows(Decision::Bench { person }, actor),
    ensures
        ({
            let r = c.benched(person, at, actor);
            &&& r.transitions.dom() == c.transitions.dom()
            &&& r.transition_seq == c.transition_seq
            &&& r.departments == c.departments
            &&& r.people[person].employment_state == EmploymentState::Benched
            &&& r.people[person].department_id == c.people[person].department_id
            &&& !r.fences.dom().contains(person)
            &&& !r.desired(person)
            &&& r.activity[person].active_transition_id == c.ready_transition(
                person,
                TransitionAction::Park,
            )
        }),
{
    lemma_open_transition(c, person);
    assert(c.benched(person, at, actor).transitions.dom() =~= c.transitions.dom());
}

/// Benching somebody by way of the lifecycle leaves the park that it names
/// ready, and their activity pointing at it.
pub proof fn law_benched_lifecycle_keeps_its_park(
    c: CompanyModel,
    person: Text,
    at: Text,
    actor: Text,
)
    requires
        c.finite(),
        ledgered(c),
        c.allows(Decision::BenchLifecycle { person }, actor),
        c.transition_seq < u64::MAX,
    ensures
        ({
            let r = c.park_prepared(person, at, actor).benched(person, at, actor);
            let t = c.bench_park(person);
            &&& r.transitions.dom().contains(t)
            &&& r.transitions[t].status == TransitionStatus::Ready
            &&& r.transitions[t].person_id == person
            &&& r.activity[person].active_transition_id == Some(t)
            &&& r.people[person].employment_state == EmploymentState::Benched
        }),
{
    lemma_ready_transition(c, person, TransitionAction::Park);
    lemma_open_transition(c, person);
    lemma_next_is_free(c, person, TransitionAction::Park);
    let ready = c.park_prepared(person, at, actor);
    let t = c.bench_park(person);
    assert(ready.finite());
    lemma_ready_transition(ready, person, TransitionAction::Park);
    lemma_ready_found(ready, person, t);
    match ready.ready_transition(person, TransitionAction::Park) {
        Some(s) => {
            assert(ready.transitions.dom().contains(s) && ready.transitions.dom().contains(t));
            if c.ready_transition(person, TransitionAction::Park) is Some {
                assert(c.transitions.dom().contains(s) && c.transitions.dom().contains(t));
            } else if s != t {
                assert(c.transitions.dom().contains(s));
            }
            assert(s == t);
        },
        None => {},
    }
}

/// A ready park is found.
proof fn lemma_ready_found(c: CompanyModel, person: Text, t: Text)
    requires
        c.finite(),
        c.transitions.dom().contains(t),
        c.transitions[t].person_id == person,
        c.transitions[t].action == TransitionAction::Park,
        c.transitions[t].status == TransitionStatus::Ready,
    ensures
        c.ready_transition(person, TransitionAction::Park) is Some,
{
    let q = listing(c.transitions.dom());
    let action = TransitionAction::Park;
    let f = |t: Text|
        c.transitions[t].person_id == person && c.transitions[t].action == action
            && c.transitions[t].status == TransitionStatus::Ready;
    lemma_finite_listing(c.transitions.dom());
    lemma_first_where(q, f);
    assert(c.ready_transition(person, action) == first_where(q, f));
    assert(q.contains(t));
    let i = choose|i: int| 0 <= i < q.len() && q[i] == t;
    assert(f(q[i]));
}

/// A transition that was released is adopted: a transfer, an offboarding or a
/// bench that finds one of its own kind ready changes no transition, and mints
/// none.
pub proof fn law_a_released_transition_is_adopted(
    c: CompanyModel,
    person: Text,
    destination: Text,
    intent: Text,
    at: Text,
    actor: Text,
)
    ensures
        c.ready_transition(person, TransitionAction::Transfer) is Some ==> c.transferred(
            person,
            destination,
            intent,
            at,
            actor,
            None,
        ).transitions == c.transitions,
        c.ready_transition(person, TransitionAction::Offboard) is Some ==> c.offboarded(
            person,
            at,
            actor,
        ).transitions == c.transitions,
        c.ready_transition(person, TransitionAction::Park) is Some ==> c.benched(
            person,
            at,
            actor,
        ).transitions == c.transitions,
{
    let reason = ledger_line("transferred"@, actor);
    let there = c.move_all(seq![person], destination, intent, reason, true, at);
    lemma_number_people(there, there.people_order(), at);
    assert(seq![person].drop_last() =~= Seq::empty());
    assert(seq![person].last() == person);
    reveal_with_fuel(CompanyModel::move_all, 2);
}

/// Starting or waking somebody who has not departed lets go of nothing but an
/// idle park: a stop that was commanded stands as it was, and their activity
/// still points at it.
pub proof fn law_a_commanded_stop_stands(
    c: CompanyModel,
    person: Text,
    at: Text,
    actor: Text,
    t: Text,
)
    requires
        c.people[person].employment_state != EmploymentState::Departed,
        c.transitions.dom().contains(t),
        !routine_park(c.transitions[t]),
    ensures
        c.started(person, at, actor).transitions[t] == c.transitions[t],
        c.woken(person, at, actor).transitions[t] == c.transitions[t],
        c.activity.dom().contains(person) && c.activity[person].active_transition_id == Some(t)
            ==> c.started(person, at, actor).activity[person].active_transition_id == Some(t)
            && c.woken(person, at, actor).activity[person].active_transition_id == Some(t),
{
}

/// Hiring somebody decides to start them exactly where they are staffed and the
/// company is not stood down; nobody else is decided about.
pub proof fn law_a_hire_starts_whoever_is_staffed(
    c: CompanyModel,
    p: HireModel,
    actor: Text,
)
    ensures
        c.hired(p, actor).fences.dom() == (if p.seed.employment_state == EmploymentState::Active
            && !c.stood_down {
            c.fences.dom().insert(p.person_id)
        } else {
            c.fences.dom()
        }),
        !c.hired(p, actor).desired(p.person_id),
{
    let line = hire_line(p.person_id, p.department_id);
    let there = c.seeded(p.person_id, p.department_id, p.seed, line, p.at);
    lemma_number_people(there, there.people_order(), p.at);
    assert(c.fences.dom().contains(p.person_id) ==> c.fences.dom().insert(p.person_id)
        =~= c.fences.dom());
}

// ---------------------------------------------------------------------------
// An operator who attaches
// ---------------------------------------------------------------------------

/// Preparing a company for an operator who attaches leaves the CEO alone to be
/// started, and nobody but the CEO wanted up.
pub proof fn law_attaching_leaves_the_ceo(c: CompanyModel, at: Text, actor: Text)
    requires
        c.finite(),
        c.allows(Decision::CeoOnly, actor),
    ensures
        c.ceo_only(at, actor).fences.dom() == set![c.root_head()->0],
        forall|p: Text|
            Some(p) != c.root_head() ==> !#[trigger] c.ceo_only(at, actor).desired(p),
        c.ceo_only(at, actor).desired(c.root_head()->0) == c.desired(c.root_head()->0),
        c.ceo_only(at, actor).quiesce_since == Some(at),
        c.ceo_only(at, actor).people == c.people,
        c.ceo_only(at, actor).departments == c.departments,
        c.ceo_only(at, actor).transitions == c.transitions,
        c.ceo_only(at, actor).settings == c.settings,
{
    let r = c.ceo_only(at, actor);
    let chief = c.root_head()->0;
    let q = listing(c.activity.dom());
    lemma_finite_listing(c.activity.dom());
    lemma_retract_in(c, q, chief, at);
    let quiet = c.retract_non_kept(chief, at);
    let s = listing(quiet.fences.dom());
    lemma_finite_listing(quiet.fences.dom());
    lemma_clear_fences_in(quiet, s, chief);
    assert forall|p: Text| #[trigger] r.fences.dom().contains(p) <==> set![chief].contains(p) by {
        if quiet.fences.dom().contains(p) {
            assert(s.contains(p));
        }
    }
    assert(r.fences.dom() =~= set![chief]);
    assert forall|p: Text| Some(p) != c.root_head() implies !#[trigger] r.desired(p) by {
        if c.activity.dom().contains(p) {
            assert(q.contains(p));
        }
    }
}

proof fn lemma_nobody_to_retract(c: CompanyModel, people: Seq<Text>, keep: Text, at: Text)
    requires
        forall|p: Text| p != keep ==> !#[trigger] c.desired(p),
    ensures
        c.retract_in(people, keep, at) == c,
    decreases people.len(),
{
    if people.len() > 0 {
        lemma_nobody_to_retract(c, people.drop_last(), keep, at);
        assert(!(people.last() != keep && c.desired(people.last())));
    }
}

proof fn lemma_nothing_to_clear(c: CompanyModel, people: Seq<Text>, keep: Text)
    requires
        forall|p: Text| #[trigger] c.fences.dom().contains(p) ==> p == keep,
    ensures
        c.clear_fences_in(people, keep) == c,
    decreases people.len(),
{
    if people.len() > 0 {
        lemma_nothing_to_clear(c, people.drop_last(), keep);
    }
}

/// Preparing a company again at the same moment changes nothing and tells
/// nothing.
pub proof fn law_attaching_again_changes_nothing(c: CompanyModel, at: Text, actor: Text)
    requires
        c.finite(),
        c.allows(Decision::CeoOnly, actor),
    ensures
        c.ceo_only(at, actor).ceo_only(at, actor) == c.ceo_only(at, actor),
{
    law_attaching_leaves_the_ceo(c, at, actor);
    let r = c.ceo_only(at, actor);
    let chief = c.root_head()->0;
    lemma_root_same(c, r);
    assert(r.root_head() == c.root_head());
    assert forall|p: Text| p != chief implies !#[trigger] r.desired(p) by {}
    lemma_nobody_to_retract(r, listing(r.activity.dom()), chief, at);
    assert forall|p: Text| #[trigger] r.fences.dom().contains(p) implies p == chief by {
        assert(set![chief].contains(p));
    }
    lemma_nothing_to_clear(r, listing(r.fences.dom()), chief);
    assert(set![chief].contains(chief));
    let again = r.ceo_only(at, actor);
    assert(r.touches.len() == 0);
    assert(again.touches =~= r.touches);
    assert(again.events =~= r.events);
}

} // verus!
