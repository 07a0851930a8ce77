//! Whom a decision leaves where they are.

use vstd::prelude::*;

use crate::company::CompanyModel;
use crate::laws::chart::{charted, lemma_heads, lemma_org, lemma_residents};
use crate::laws::chart_kept::{
    lemma_people_ordered, lemma_roster, lemma_units_ordered, lemma_vacancy_answered,
};
use crate::laws::decision::Decision;
use crate::laws::frames::{
    lemma_clear_fences_in, lemma_delete_departments, lemma_left_behind_all, lemma_move_all,
    lemma_rehome, lemma_resume_all, lemma_retract_in, lemma_seeded_all, lemma_swept_all, seeds,
};
use crate::laws::history::law_nothing_is_lost;
use crate::org_ops::create::hire_line;
use crate::org_ops::decisions::{HeadDecisionModel, HeadVacancyModel};
use crate::org_ops::guards::ledger_line;
use crate::org_ops::shutdown::ShutdownKindModel;
use crate::org_projection::{create_refusal, hire_refusal, CreateModel, HireModel};
use crate::organization::{EmploymentState, UnitState};
use crate::table::listing;
use crate::text::Text;

verus! {

/// Whether a decision is about where somebody is, or whether they are staffed.
pub open spec fn concerns(c: CompanyModel, d: Decision, p: Text) -> bool {
    match d {
        Decision::Create { proposal } => proposal.head.person_id() == p,
        Decision::Appoint { department, demote_to, .. } => demote_to is Some
            && c.departments[department].head_person_id == p,
        Decision::Transfer { person, .. } => person == p,
        Decision::MoveMembers { from, named, .. } => c.batch(from, named).contains(p),
        Decision::RemoveTree { department } => c.people_in(
            c.subtree_descending(department),
        ).contains(p),
        Decision::ReplaceHead { head, .. } => head == p,
        Decision::Offboard { person } => person == p,
        Decision::Bench { person } => person == p,
        Decision::BenchLifecycle { person } => person == p,
        Decision::Start { person } => person == p,
        Decision::Wake { person } => person == p,
        Decision::Recall { person } => person == p,
        _ => false,
    }
}

/// Whether somebody is staffed in `b` as in `a`, and, unless they have
/// departed, in the same unit.
pub open spec fn left_standing(a: CompanyModel, b: CompanyModel, p: Text) -> bool {
    &&& b.people.dom().contains(p)
    &&& b.people[p].employment_state == a.people[p].employment_state
    &&& a.people[p].employment_state != EmploymentState::Departed ==> b.people[p].department_id
        == a.people[p].department_id
}

/// Whoever leaves a unit that they head leaves everybody employed where they
/// are, if a unit that goes has nobody else in it.
proof fn lemma_vacated_standing(
    c: CompanyModel,
    x: Text,
    decision: HeadVacancyModel,
    reason: Text,
    at: Text,
    p: Text,
)
    requires
        c.finite(),
        c.people.dom().contains(p),
        p != x,
        c.headed_by(x) matches Some(unit) ==> decision is HandOver || c.people[p].department_id
            != unit || c.people[p].employment_state == EmploymentState::Departed,
    ensures
        left_standing(c, c.vacated(x, decision, reason, at), p),
{
    let r = c.vacated(x, decision, reason, at);
    if let Some(unit) = c.headed_by(x) {
        if decision is Dissolve {
            let residents = c.people_in(seq![unit]);
            lemma_residents(c, seq![unit]);
            assert(seq![unit].contains(c.people[p].department_id) ==> c.people[p].department_id
                == unit);
            let left = match c.departments[unit].parent_id {
                Some(parent) => {
                    lemma_rehome(c, residents, x, unit, parent, reason, at);
                    c.rehome(residents, x, unit, parent, reason, at)
                },
                None => c,
            };
            lemma_units_ordered(left.delete_department(unit), at);
            assert(r.people == left.people);
        }
    }
}

proof fn lemma_created_standing(
    c: CompanyModel,
    root: Text,
    proposal: CreateModel,
    actor: Text,
    p: Text,
)
    requires
        c.finite(),
        charted(c, root),
        create_refusal(c.org(), proposal) is None,
        c.people.dom().contains(p),
        p != proposal.head.person_id(),
    ensures
        left_standing(c, c.department_created(proposal, actor), p),
{
    let head = proposal.head.person_id();
    lemma_heads(c, root);
    lemma_org(c);
    let there = match proposal.vacates {
        Some(HeadVacancyModel::Dissolve) => c.move_person(head, proposal.parent_id, proposal.at),
        _ => c,
    };
    assert(there.people.dom() =~= c.people.dom());
    assert(there.org().departments =~= c.org().departments);
    assert(there.headed_by(head) == c.headed_by(head));
    let freed = c.head_freed(proposal);
    if let Some(decision) = proposal.vacates {
        if let Some(unit) = c.headed_by(head) {
            assert(proposal.head is AppointExisting);
            lemma_vacancy_answered(c, head, unit, decision);
        }
        lemma_vacated_standing(there, head, decision, proposal.audit_reason, proposal.at, p);
    }
    assert(left_standing(c, freed, p));
    let unit = freed.insert_department(
        proposal.department_id,
        proposal.parent_id,
        proposal.name,
        proposal.purpose,
        proposal.unit,
        head,
        proposal.at,
    );
    let headed = match proposal.head {
        HeadDecisionModel::AppointExisting { person_id } => unit.head_appointed(
            person_id,
            if c.people.dom().contains(person_id) {
                Some(c.people[person_id].department_id)
            } else {
                None
            },
            proposal,
        ),
        HeadDecisionModel::HireNew { person_id, seed } => unit.seeded(
            person_id,
            proposal.department_id,
            seed,
            proposal.audit_reason,
            proposal.at,
        ),
    };
    assert(left_standing(c, headed, p));
    let staff = proposal.staff;
    let staffed = headed.seeded_all(
        staff,
        proposal.department_id,
        proposal.audit_reason,
        proposal.at,
    );
    lemma_seeded_all(headed, staff, proposal.department_id, proposal.audit_reason, proposal.at);
    lemma_roster(c, head, staff, 0);
    assert(!seeds(staff, p));
    let ordered = staffed.refresh_department_order(proposal.at);
    lemma_units_ordered(staffed, proposal.at);
    lemma_people_ordered(ordered, proposal.at);
    assert(staffed.people[p] == headed.people[p]);
    assert(ordered.people.dom().contains(p));
}

proof fn lemma_moved_finite(
    c: CompanyModel,
    person: Text,
    destination: Text,
    intent: Text,
    at: Text,
    actor: Text,
)
    requires
        c.finite(),
    ensures
        c.move_all(
            seq![person],
            destination,
            intent,
            ledger_line("transferred"@, actor),
            true,
            at,
        ).refresh_people_order(at).finite(),
{
    let d = Decision::Transfer { person, destination, intent, vacates: None };
    law_nothing_is_lost(c, d, at, actor);
    assert(c.decided(d, at, actor) == c.transferred(person, destination, intent, at, actor, None));
}

proof fn lemma_transferred_standing(
    c: CompanyModel,
    root: Text,
    person: Text,
    destination: Text,
    intent: Text,
    at: Text,
    actor: Text,
    vacates: Option<HeadVacancyModel>,
    p: Text,
)
    requires
        c.finite(),
        charted(c, root),
        c.transfer_refusal(person, destination, actor, vacates) is None,
        c.people.dom().contains(p),
        p != person,
    ensures
        left_standing(c, c.transferred(person, destination, intent, at, actor, vacates), p),
{
    let reason = ledger_line("transferred"@, actor);
    lemma_heads(c, root);
    lemma_move_all(c, seq![person], destination, intent, reason, true, at);
    assert(!seq![person].contains(p));
    let there = c.move_all(seq![person], destination, intent, reason, true, at);
    lemma_people_ordered(there, at);
    let moved = there.refresh_people_order(at);
    if let Some(decision) = vacates {
        lemma_moved_finite(c, person, destination, intent, at, actor);
        assert(moved.org().departments =~= c.org().departments);
        assert(moved.headed_by(person) == c.headed_by(person));
        if let Some(unit) = c.headed_by(person) {
            lemma_vacancy_answered(c, person, unit, decision);
        }
        lemma_vacated_standing(moved, person, decision, reason, at, p);
    }
}

proof fn lemma_paused_standing(
    c: CompanyModel,
    department: Text,
    at: Text,
    actor: Text,
    p: Text,
)
    requires
        c.people.dom().contains(p),
    ensures
        left_standing(c, c.paused(department, at, actor), p),
{
    let flipped = c.set_department_state(department, UnitState::Paused, at);
    lemma_swept_all(
        flipped,
        flipped.subtree_members(department),
        flipped.root_head(),
        department,
        at,
    );
}

proof fn lemma_attached_standing(c: CompanyModel, at: Text, actor: Text, p: Text)
    requires
        c.people.dom().contains(p),
    ensures
        left_standing(c, c.ceo_only(at, actor), p),
{
    let chief = c.root_head()->0;
    lemma_retract_in(c, listing(c.activity.dom()), chief, at);
    let quiet = c.retract_non_kept(chief, at);
    lemma_clear_fences_in(quiet, listing(quiet.fences.dom()), chief);
}

proof fn lemma_appointed_standing(
    c: CompanyModel,
    department: Text,
    successor: Text,
    demote_to: Option<Text>,
    at: Text,
    actor: Text,
    p: Text,
)
    requires
        c.people.dom().contains(p),
        !(demote_to is Some && c.departments[department].head_person_id == p),
    ensures
        left_standing(c, c.appointed(department, successor, demote_to, at, actor), p),
{
}

proof fn lemma_offboarded_standing(
    c: CompanyModel,
    person: Text,
    at: Text,
    actor: Text,
    p: Text,
)
    requires
        c.people.dom().contains(p),
        p != person,
    ensures
        left_standing(c, c.offboarded(person, at, actor), p),
{
}

proof fn lemma_replaced_standing(
    c: CompanyModel,
    head: Text,
    successor: Text,
    at: Text,
    actor: Text,
    p: Text,
)
    requires
        c.people.dom().contains(p),
        p != head,
    ensures
        left_standing(c, c.head_replaced(head, successor, at, actor), p),
{
}

proof fn lemma_benched_standing(
    c: CompanyModel,
    person: Text,
    at: Text,
    actor: Text,
    p: Text,
)
    requires
        c.people.dom().contains(p),
        p != person,
    ensures
        left_standing(c, c.benched(person, at, actor), p),
{
}

proof fn lemma_started_standing(
    c: CompanyModel,
    person: Text,
    at: Text,
    actor: Text,
    p: Text,
)
    requires
        c.people.dom().contains(p),
        p != person,
    ensures
        left_standing(c, c.started(person, at, actor), p),
{
}

proof fn lemma_woken_standing(
    c: CompanyModel,
    person: Text,
    at: Text,
    actor: Text,
    p: Text,
)
    requires
        c.people.dom().contains(p),
        p != person,
    ensures
        left_standing(c, c.woken(person, at, actor), p),
{
}

proof fn lemma_hired_standing(c: CompanyModel, newcomer: HireModel, actor: Text, p: Text)
    requires
        hire_refusal(c.org(), newcomer) is None,
        c.people.dom().contains(p),
    ensures
        left_standing(c, c.hired(newcomer, actor), p),
{
    let there = c.seeded(
        newcomer.person_id,
        newcomer.department_id,
        newcomer.seed,
        hire_line(newcomer.person_id, newcomer.department_id),
        newcomer.at,
    );
    lemma_org(c);
    assert(newcomer.person_id != p);
    lemma_people_ordered(there, newcomer.at);
    assert(there.people.dom().contains(p));
}

proof fn lemma_reparented_standing(
    c: CompanyModel,
    department: Text,
    parent: Text,
    at: Text,
    actor: Text,
    p: Text,
)
    requires
        c.people.dom().contains(p),
    ensures
        left_standing(c, c.reparented(department, parent, at, actor), p),
{
    let hung = c.set_parent(department, parent, at);
    lemma_units_ordered(hung, at);
    lemma_people_ordered(hung.refresh_department_order(at), at);
    assert(hung.refresh_department_order(at).people.dom().contains(p));
}

proof fn lemma_members_standing(
    c: CompanyModel,
    people: Seq<Text>,
    destination: Text,
    intent: Text,
    at: Text,
    actor: Text,
    p: Text,
)
    requires
        c.people.dom().contains(p),
        !people.contains(p),
    ensures
        left_standing(c, c.members_moved(people, destination, intent, at, actor), p),
{
    lemma_move_all(c, people, destination, intent, intent, false, at);
    let there = c.move_all(people, destination, intent, intent, false, at);
    lemma_people_ordered(there, at);
    assert(there.people.dom().contains(p));
}

proof fn lemma_removed_standing(
    c: CompanyModel,
    department: Text,
    at: Text,
    actor: Text,
    p: Text,
)
    requires
        c.people.dom().contains(p),
        !c.people_in(c.subtree_descending(department)).contains(p),
    ensures
        left_standing(c, c.department_removed(department, at, actor), p),
{
    let units = c.subtree_descending(department);
    let people = c.people_in(units);
    let rests = c.departments[department].parent_id->0;
    let reason = "department "@ + department + " removed"@;
    lemma_left_behind_all(c, people, rests, reason, at);
    let left = c.left_behind_all(people, rests, reason, at);
    lemma_delete_departments(left, units);
    let ordered = left.delete_departments(units).refresh_department_order(at);
    lemma_units_ordered(left.delete_departments(units), at);
    lemma_people_ordered(ordered, at);
    assert(ordered.people.dom().contains(p));
}

proof fn lemma_shut_down_standing(
    c: CompanyModel,
    person: Text,
    kind: ShutdownKindModel,
    at: Text,
    actor: Text,
    p: Text,
)
    requires
        c.people.dom().contains(p),
    ensures
        left_standing(c, c.shut_down(person, kind, at, actor), p),
{
}

proof fn lemma_parked_standing(
    c: CompanyModel,
    person: Text,
    at: Text,
    actor: Text,
    p: Text,
)
    requires
        c.people.dom().contains(p),
        p != person,
    ensures
        left_standing(c, c.park_prepared(person, at, actor).benched(person, at, actor), p),
{
    lemma_benched_standing(c.park_prepared(person, at, actor), person, at, actor, p);
}

/// Nobody moves, and nobody is let go or taken back, but those a decision is
/// about. A unit that is dissolved because its head leaves it takes nobody
/// along; who has departed already and rests in it comes to its parent.
pub proof fn law_only_those_concerned_move(
    c: CompanyModel,
    root: Text,
    d: Decision,
    at: Text,
    actor: Text,
    p: Text,
)
    requires
        c.finite(),
        charted(c, root),
        c.allows(d, actor),
        c.people.dom().contains(p),
        !concerns(c, d, p),
    ensures
        left_standing(c, c.decided(d, at, actor), p),
{
    match d {
        Decision::Create { proposal } => {
            lemma_created_standing(c, root, proposal, actor, p);
        },
        Decision::Hire { newcomer } => {
            lemma_hired_standing(c, newcomer, actor, p);
        },
        Decision::Reparent { department, parent } => {
            lemma_reparented_standing(c, department, parent, at, actor, p);
        },
        Decision::Transfer { person, destination, intent, vacates } => {
            lemma_transferred_standing(
                c,
                root,
                person,
                destination,
                intent,
                at,
                actor,
                vacates,
                p,
            );
        },
        Decision::MoveMembers { from, destination, named, intent } => {
            lemma_members_standing(c, c.batch(from, named), destination, intent, at, actor, p);
        },
        Decision::RemoveTree { department } => {
            lemma_removed_standing(c, department, at, actor, p);
        },
        Decision::Pause { department } => {
            lemma_paused_standing(c, department, at, actor, p);
        },
        Decision::ResumeMany { departments, skip_active } => {
            lemma_resume_all(c, departments, at);
        },
        Decision::CeoOnly => {
            lemma_attached_standing(c, at, actor, p);
        },
        Decision::Appoint { department, successor, demote_to } => {
            lemma_appointed_standing(c, department, successor, demote_to, at, actor, p);
        },
        Decision::Offboard { person } => {
            lemma_offboarded_standing(c, person, at, actor, p);
        },
        Decision::ReplaceHead { head, successor } => {
            lemma_replaced_standing(c, head, successor, at, actor, p);
        },
        Decision::Shutdown { person, kind } => {
            lemma_shut_down_standing(c, person, kind, at, actor, p);
        },
        Decision::Bench { person } => {
            lemma_benched_standing(c, person, at, actor, p);
        },
        Decision::BenchLifecycle { person } => {
            lemma_parked_standing(c, person, at, actor, p);
        },
        Decision::Start { person } => {
            lemma_started_standing(c, person, at, actor, p);
        },
        Decision::Wake { person } => {
            lemma_woken_standing(c, person, at, actor, p);
        },
        Decision::Recall { person } => {},
        Decision::Resume { department } => {},
        Decision::ReactivateRoot => {},
        Decision::PublishLauncherRoot { launcher_root } => {},
    }
}

} // verus!
