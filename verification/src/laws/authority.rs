//! Who may act on whom.

use vstd::prelude::*;

use crate::company::CompanyModel;
use crate::laws::chart::{charted, heads_nothing, lemma_heads, lemma_org, person_sound, unit_sound};
use crate::laws::chart_kept::lemma_roster;
use crate::laws::decision::Decision;
use crate::laws::tree::{lemma_beneath_step, lemma_beneath_through};
use crate::order::lemma_sorted;
use crate::org_ops::decisions::{HeadDecisionModel, HeadVacancyModel};
use crate::org_ops::refusals::HeadVacancyRefusalModel;
use crate::org_projection::vacancy_refusal;
use crate::org_view::{
    beneath, children, headed_by, lemma_first_where, lemma_members_but, lemma_those_where, manages,
    may_create_under, members_but, those_where, OrgModel,
};
use crate::organization::{EmploymentState, PersonKind};
use crate::table::{lemma_finite_listing, listing};
use crate::text::Text;

verus! {

/// Whether a decision would move somebody, take their headship, or stop or end
/// their employment.
pub open spec fn acts_on(c: CompanyModel, d: Decision, p: Text) -> bool {
    match d {
        Decision::Create { proposal } => proposal.head == (HeadDecisionModel::AppointExisting {
            person_id: p,
        }),
        Decision::Appoint { department, .. } => c.departments.dom().contains(department)
            && c.departments[department].head_person_id == p,
        Decision::Transfer { person, .. } => person == p,
        Decision::MoveMembers { from, named, .. } => c.batch(from, named).contains(p),
        Decision::Offboard { person } => person == p,
        Decision::ReplaceHead { head, .. } => head == p,
        Decision::RemoveTree { department } => beneath(
            c.org().departments,
            c.people[p].department_id,
            department,
        ),
        Decision::Shutdown { person, .. } => person == p,
        Decision::Bench { person } => person == p,
        Decision::BenchLifecycle { person } => person == p,
        _ => false,
    }
}

proof fn lemma_batch_refused(c: CompanyModel, people: Seq<Text>, home: Text, i: int, k: int)
    requires
        0 <= i <= k < people.len(),
        c.is_ceo(people[k]),
    ensures
        c.batch_refusal(people, home, i) is Some,
    decreases k - i,
{
    if i < k {
        lemma_batch_refused(c, people, home, i + 1, k);
    }
}

/// The CEO is the one person nobody acts on: no decision that would move them,
/// take their headship, or stop or end their employment is ever applied. An
/// appointment and a removal name a unit rather than a person: the law holds of
/// them where the chart is sound, so that the CEO heads the root alone and sits
/// in it. A CEO who sits elsewhere departs with the unit they sit in.
pub proof fn law_nobody_acts_on_the_ceo(
    c: CompanyModel,
    root: Text,
    d: Decision,
    actor: Text,
    p: Text,
)
    requires
        c.is_ceo(p),
        acts_on(c, d, p),
        d is Appoint || d is RemoveTree ==> c.finite() && charted(c, root),
    ensures
        !c.allows(d, actor),
{
    if d is Appoint || d is RemoveTree {
        lemma_heads(c, root);
        lemma_org(c);
        assert(unit_sound(c, root, root));
        match d {
            Decision::Appoint { department, .. } => {
                assert(unit_sound(c, root, department));
            },
            Decision::RemoveTree { department } => {
                lemma_beneath_step(c.org().departments, root, department);
            },
            _ => {},
        }
    }
    if let Decision::MoveMembers { from, destination, named, intent } = d {
        let people = c.batch(from, named);
        let k = choose|k: int| 0 <= k < people.len() && people[k] == p;
        lemma_batch_refused(c, people, from, 0, k);
    }
}

/// Whether a decision would move a unit, remove it, stop it or give it another
/// head.
pub open spec fn acts_on_unit(d: Decision, unit: Text) -> bool {
    match d {
        Decision::Appoint { department, .. } => department == unit,
        Decision::Reparent { department, .. } => department == unit,
        Decision::RemoveTree { department } => department == unit,
        Decision::Pause { department } => department == unit,
        _ => false,
    }
}

/// The root is the one unit nobody acts on: it is never moved, removed or
/// paused, and never given another head.
pub proof fn law_nobody_acts_on_the_root(c: CompanyModel, d: Decision, actor: Text, root: Text)
    requires
        c.finite(),
        c.company_root() == Some(root),
        acts_on_unit(d, root),
    ensures
        !c.allows(d, actor),
{
    lemma_org(c);
    let m = c.org().departments;
    let q = listing(m.dom());
    lemma_finite_listing(m.dom());
    lemma_first_where(q, |d: Text| m[d].parent is None);
    assert(q.contains(root));
    assert(m.dom().contains(root));
}

/// An actor that names nobody is not judged: no decision is refused for being
/// out of their scope.
pub proof fn law_an_actor_who_is_nobody_is_not_judged(
    c: CompanyModel,
    actor: Text,
    department: Text,
    person: Text,
)
    requires
        actor.len() == 0 || !c.people.dom().contains(actor),
    ensures
        !c.out_of_scope(actor, department),
        !c.out_of_scope_for(actor, person),
{
}

/// Whoever is somebody is judged by the tree alone. The CEO reaches every unit;
/// a head reaches the unit they head and what hangs beneath it, and nothing
/// else; a worker and whoever has departed reach nothing.
pub proof fn law_scope_is_the_subtree(
    c: CompanyModel,
    root: Text,
    actor: Text,
    department: Text,
)
    requires
        c.finite(),
        charted(c, root),
        actor.len() > 0,
        c.people.dom().contains(actor),
    ensures
        c.people[actor].employment_state == EmploymentState::Departed ==> c.out_of_scope(
            actor,
            department,
        ),
        c.people[actor].kind == PersonKind::Worker ==> c.out_of_scope(actor, department),
        c.is_ceo(actor) ==> !c.out_of_scope(actor, department),
        c.people[actor].kind == PersonKind::Head ==> (c.out_of_scope(actor, department) <==>
            !beneath(c.org().departments, department, c.people[actor].department_id)),
{
    lemma_heads(c, root);
    lemma_org(c);
    assert(person_sound(c, actor));
    assert(unit_sound(c, root, root));
    let home = c.people[actor].department_id;
    if c.people[actor].kind != PersonKind::Worker {
        assert(c.departments[home].head_person_id == actor);
        assert(unit_sound(c, root, home));
        match c.headed_by(actor) {
            Some(d) => {
                assert(d == home);
            },
            None => {
                assert(heads_nothing(c, actor));
            },
        }
    }
}

/// Who manages a unit manages every unit beneath it.
pub proof fn law_scope_goes_down(
    c: CompanyModel,
    root: Text,
    actor: Text,
    unit: Text,
    below: Text,
)
    requires
        c.finite(),
        charted(c, root),
        c.departments.dom().contains(below),
        beneath(c.org().departments, below, unit),
        !c.out_of_scope(actor, unit),
    ensures
        !c.out_of_scope(actor, below),
{
    lemma_org(c);
    if c.names_a_person(actor) {
        let m = c.org().departments;
        if c.people[actor].kind == PersonKind::Head {
            let top = headed_by(m, actor)->0;
            lemma_beneath_through(m, below, unit, top);
        }
    }
}

/// Whether a decision is asked of whoever manages a unit: where somebody or
/// something is, and where it is to go.
pub open spec fn asked(c: CompanyModel, d: Decision, unit: Text) -> bool {
    match d {
        Decision::Appoint { department, demote_to, .. } => unit == department || demote_to == Some(
            unit,
        ),
        Decision::Reparent { department, parent } => unit == department || unit == parent,
        Decision::Transfer { person, destination, .. } => unit == c.people[person].department_id
            || unit == destination,
        Decision::MoveMembers { from, destination, .. } => unit == from || unit == destination,
        Decision::Offboard { person } => unit == c.people[person].department_id,
        Decision::ReplaceHead { head, .. } => c.headed_by(head) == Some(unit),
        Decision::RemoveTree { department } => unit == department,
        Decision::Pause { department } => unit == department,
        Decision::Resume { department } => unit == department,
        Decision::ResumeMany { departments, .. } => departments.contains(unit),
        Decision::Shutdown { person, .. } => unit == c.people[person].department_id,
        Decision::Bench { person } => unit == c.people[person].department_id,
        Decision::BenchLifecycle { person } => unit == c.people[person].department_id,
        Decision::Start { person } => unit == c.people[person].department_id,
        Decision::Wake { person } => unit == c.people[person].department_id,
        Decision::Recall { person } => unit == c.people[person].department_id,
        Decision::ReactivateRoot => c.company_root() == Some(unit),
        _ => false,
    }
}

proof fn lemma_each_asked(
    c: CompanyModel,
    departments: Seq<Text>,
    skip_active: bool,
    actor: Text,
    i: int,
    k: int,
)
    requires
        0 <= i <= k < departments.len(),
        c.resume_refusal_from(departments, skip_active, actor, i) is None,
    ensures
        !c.out_of_scope(actor, departments[k]),
    decreases k - i,
{
    if i < k {
        lemma_each_asked(c, departments, skip_active, actor, i + 1, k);
    }
}

/// Nobody acts outside their scope: whoever makes a decision manages every unit
/// it is asked of, both ends of a move among them.
pub proof fn law_every_end_is_asked(c: CompanyModel, d: Decision, actor: Text, unit: Text)
    requires
        c.allows(d, actor),
        asked(c, d, unit),
    ensures
        !c.out_of_scope(actor, unit),
{
    if let Decision::ResumeMany { departments, skip_active } = d {
        let k = choose|k: int| 0 <= k < departments.len() && departments[k] == unit;
        lemma_each_asked(c, departments, skip_active, actor, 0, k);
    }
}

/// Whoever asks for a unit may create beneath its parent, and whoever asks for
/// somebody to be hired manages where they land.
pub proof fn law_requesters_are_in_scope(c: CompanyModel, d: Decision, actor: Text)
    requires
        c.allows(d, actor),
    ensures
        d matches Decision::Create { proposal } ==> (proposal.requester matches Some(r)
            ==> may_create_under(c.org(), r, proposal.parent_id)),
        d matches Decision::Hire { newcomer } ==> (newcomer.requester matches Some(r) ==> manages(
            c.org(),
            r,
            newcomer.department_id,
        )),
{
}

proof fn lemma_ordinary(c: CompanyModel, from: Text)
    requires
        c.finite(),
    ensures
        forall|p: Text| #[trigger]
            c.ordinary_members(from).contains(p) <==> c.people.dom().contains(p)
                && c.people[p].department_id == from && c.people[p].employment_state
                != EmploymentState::Departed && !(c.departments.dom().contains(from)
                && c.departments[from].head_person_id == p),
{
    lemma_finite_listing(c.people.dom());
    lemma_sorted(listing(c.people.dom()), |p: Text| seq![c.people[p].ordinal]);
    let f = |p: Text|
        c.people[p].department_id == from && c.people[p].employment_state
            != EmploymentState::Departed && !(c.departments.dom().contains(from)
            && c.departments[from].head_person_id == p);
    lemma_those_where(c.roster(), f);
    assert(c.ordinary_members(from) == those_where(c.roster(), f));
}

proof fn lemma_batch_accepted(
    c: CompanyModel,
    root: Text,
    people: Seq<Text>,
    home: Text,
    i: int,
)
    requires
        c.finite(),
        charted(c, root),
        0 <= i,
        forall|j: int|
            0 <= j < people.len() ==> c.people.dom().contains(#[trigger] people[j])
                && c.people[people[j]].department_id == home && c.people[people[j]].employment_state
                != EmploymentState::Departed && !(c.departments.dom().contains(home)
                && c.departments[home].head_person_id == people[j]),
    ensures
        c.batch_refusal(people, home, i) is None,
    decreases people.len() - i,
{
    if i < people.len() {
        lemma_heads(c, root);
        let p = people[i];
        if c.is_ceo(p) {
            assert(unit_sound(c, root, root));
        }
        lemma_batch_accepted(c, root, people, home, i + 1);
    }
}

/// Moving everybody there is to move is never refused for somebody among them:
/// who is left out is exactly who would be refused.
pub proof fn law_a_derived_batch_is_never_refused(c: CompanyModel, root: Text, from: Text)
    requires
        c.finite(),
        charted(c, root),
    ensures
        c.batch_refusal(c.batch(from, Seq::empty()), from, 0) is None,
{
    let people = c.ordinary_members(from);
    lemma_ordinary(c, from);
    assert forall|j: int| 0 <= j < people.len() implies c.people.dom().contains(
        #[trigger] people[j],
    ) && c.people[people[j]].department_id == from && c.people[people[j]].employment_state
        != EmploymentState::Departed && !(c.departments.dom().contains(from)
        && c.departments[from].head_person_id == people[j]) by {
        assert(people.contains(people[j]));
    }
    lemma_batch_accepted(c, root, people, from, 0);
}

// ---------------------------------------------------------------------------
// Vacancies
// ---------------------------------------------------------------------------

/// A transfer, and a create that appoints somebody of the company, says what
/// becomes of the unit they head exactly where they head one: a head does not
/// go without a decision, and a decision about nothing is refused.
pub proof fn law_a_decision_is_about_a_headship(c: CompanyModel, d: Decision, actor: Text)
    requires
        c.allows(d, actor),
    ensures
        d matches Decision::Transfer { person, vacates, .. } ==> (vacates is Some <==> c.headed_by(
            person,
        ) is Some),
        d matches Decision::Create { proposal } ==> (proposal.head
            matches HeadDecisionModel::AppointExisting { person_id } ==> (proposal.vacates
            is Some <==> c.headed_by(person_id) is Some)),
{
}

/// Whom a refusal advertises as a successor is exactly who is accepted as one,
/// and a unit can be dissolved exactly where nobody is advertised and nothing
/// hangs beneath it.
pub proof fn law_advertised_successors_are_the_accepted(
    o: OrgModel,
    unit: Text,
    person: Text,
    successor: Text,
)
    ensures
        vacancy_refusal(o, Some(unit), person, None) matches Some(
            HeadVacancyRefusalModel::Required { person_id, department_id, eligible_successor_ids },
        ) && person_id == person && department_id == unit && (eligible_successor_ids.contains(
            successor,
        ) <==> vacancy_refusal(
            o,
            Some(unit),
            person,
            Some(HeadVacancyModel::HandOver { successor_person_id: successor }),
        ) is None) && (eligible_successor_ids.len() == 0 && children(o.departments, unit).len() == 0
            <==> vacancy_refusal(o, Some(unit), person, Some(HeadVacancyModel::Dissolve)) is None),
{
}

/// Whoever is advertised is employed, in the unit, and not the one who leaves.
pub proof fn law_successors_are_members(o: OrgModel, unit: Text, person: Text, successor: Text)
    requires
        o.people.dom().finite(),
    ensures
        members_but(o, unit, person).contains(successor) <==> o.people.dom().contains(successor)
            && successor != person && o.people[successor].department == unit
            && o.people[successor].employment != EmploymentState::Departed,
{
    lemma_members_but(o, unit, person);
}

// ---------------------------------------------------------------------------
// Ids
// ---------------------------------------------------------------------------

/// An id that somebody has, even somebody who has departed, is not given to
/// anybody else; nor is a unit's.
pub proof fn law_ids_are_never_reused(c: CompanyModel, d: Decision, actor: Text)
    requires
        c.allows(d, actor),
    ensures
        d matches Decision::Hire { newcomer } ==> !c.people.dom().contains(newcomer.person_id),
        d matches Decision::Create { proposal } ==> !c.departments.dom().contains(
            proposal.department_id,
        ),
        d matches Decision::Create { proposal } ==> (proposal.head
            matches HeadDecisionModel::HireNew { person_id, .. } ==> !c.people.dom().contains(
            person_id,
        )),
        d matches Decision::Create { proposal } ==> forall|i: int|
            0 <= i < proposal.staff.len() ==> !c.people.dom().contains(
                (#[trigger] proposal.staff[i]).person_id,
            ) && proposal.staff[i].person_id != proposal.head.person_id(),
{
    lemma_org(c);
    if let Decision::Create { proposal } = d {
        lemma_roster(c, proposal.head.person_id(), proposal.staff, 0);
    }
}

} // verus!
