//! What is never lost: nobody is deleted, and what is written down stays
//! written down.

use vstd::prelude::*;

use crate::company::CompanyModel;
use crate::laws::decision::Decision;
use crate::laws::frames::begins;
use crate::org_ops::create::hire_line;
use crate::org_ops::decisions::{HeadDecisionModel, HeadVacancyModel, StaffModel};
use crate::org_ops::guards::ledger_line;
use crate::org_ops::shutdown::ShutdownKindModel;
use crate::org_projection::{CreateModel, HireModel};
use crate::organization::UnitState;
use crate::table::listing;
use crate::text::Text;

verus! {

/// Whether nothing was lost on the way from `a` to `b`: the histories and the
/// tables only grew.
pub open spec fn grew(a: CompanyModel, b: CompanyModel) -> bool {
    &&& a.slug == b.slug
    &&& a.activity_ledger == b.activity_ledger
    &&& a.stood_down == b.stood_down
    &&& a.event_base == b.event_base
    &&& begins(a.staffing, b.staffing)
    &&& begins(a.events, b.events)
    &&& a.people.dom().subset_of(b.people.dom())
    &&& a.transitions.dom().subset_of(b.transitions.dom())
    &&& a.activity.dom().subset_of(b.activity.dom())
    &&& a.finite() ==> b.finite()
}

proof fn lemma_number_departments_grew(c: CompanyModel, order: Seq<Text>, at: Text)
    ensures
        grew(c, c.number_departments(order, at)),
    decreases order.len(),
{
    if order.len() > 0 {
        lemma_number_departments_grew(c, order.drop_last(), at);
    }
}

proof fn lemma_number_people_grew(c: CompanyModel, order: Seq<Text>, at: Text)
    ensures
        grew(c, c.number_people(order, at)),
    decreases order.len(),
{
    if order.len() > 0 {
        lemma_number_people_grew(c, order.drop_last(), at);
    }
}

proof fn lemma_refreshed_grew(c: CompanyModel, at: Text)
    ensures
        grew(c, c.refresh_department_order(at)),
        grew(c, c.refresh_people_order(at)),
{
    lemma_number_departments_grew(c, c.department_order(), at);
    lemma_number_people_grew(c, c.people_order(), at);
}

proof fn lemma_rehome_grew(
    c: CompanyModel,
    residents: Seq<Text>,
    leaver: Text,
    from: Text,
    to: Text,
    reason: Text,
    at: Text,
)
    ensures
        grew(c, c.rehome(residents, leaver, from, to, reason, at)),
    decreases residents.len(),
{
    if residents.len() > 0 {
        lemma_rehome_grew(c, residents.drop_last(), leaver, from, to, reason, at);
    }
}

proof fn lemma_move_all_grew(
    c: CompanyModel,
    people: Seq<Text>,
    destination: Text,
    intent: Text,
    reason: Text,
    adopt: bool,
    at: Text,
)
    ensures
        grew(c, c.move_all(people, destination, intent, reason, adopt, at)),
    decreases people.len(),
{
    if people.len() > 0 {
        lemma_move_all_grew(c, people.drop_last(), destination, intent, reason, adopt, at);
    }
}

proof fn lemma_seeded_all_grew(
    c: CompanyModel,
    staff: Seq<StaffModel>,
    department: Text,
    reason: Text,
    at: Text,
)
    ensures
        grew(c, c.seeded_all(staff, department, reason, at)),
    decreases staff.len(),
{
    if staff.len() > 0 {
        lemma_seeded_all_grew(c, staff.drop_last(), department, reason, at);
    }
}

proof fn lemma_swept_all_grew(
    c: CompanyModel,
    members: Seq<Text>,
    ceo: Option<Text>,
    department: Text,
    at: Text,
)
    ensures
        grew(c, c.swept_all(members, ceo, department, at)),
    decreases members.len(),
{
    if members.len() > 0 {
        lemma_swept_all_grew(c, members.drop_last(), ceo, department, at);
    }
}

proof fn lemma_resume_all_grew(c: CompanyModel, departments: Seq<Text>, at: Text)
    ensures
        grew(c, c.resume_all(departments, at)),
    decreases departments.len(),
{
    if departments.len() > 0 {
        lemma_resume_all_grew(c, departments.drop_last(), at);
    }
}

proof fn lemma_left_behind_all_grew(
    c: CompanyModel,
    people: Seq<Text>,
    rests: Text,
    reason: Text,
    at: Text,
)
    ensures
        grew(c, c.left_behind_all(people, rests, reason, at)),
    decreases people.len(),
{
    if people.len() > 0 {
        lemma_left_behind_all_grew(c, people.drop_last(), rests, reason, at);
    }
}

proof fn lemma_delete_departments_grew(c: CompanyModel, departments: Seq<Text>)
    ensures
        grew(c, c.delete_departments(departments)),
    decreases departments.len(),
{
    if departments.len() > 0 {
        lemma_delete_departments_grew(c, departments.drop_last());
    }
}

proof fn lemma_retract_in_grew(c: CompanyModel, people: Seq<Text>, keep: Text, at: Text)
    ensures
        grew(c, c.retract_in(people, keep, at)),
    decreases people.len(),
{
    if people.len() > 0 {
        lemma_retract_in_grew(c, people.drop_last(), keep, at);
    }
}

proof fn lemma_clear_fences_in_grew(c: CompanyModel, people: Seq<Text>, keep: Text)
    ensures
        grew(c, c.clear_fences_in(people, keep)),
    decreases people.len(),
{
    if people.len() > 0 {
        lemma_clear_fences_in_grew(c, people.drop_last(), keep);
    }
}

proof fn lemma_vacated_grew(
    c: CompanyModel,
    person: Text,
    decision: HeadVacancyModel,
    reason: Text,
    at: Text,
)
    ensures
        grew(c, c.vacated(person, decision, reason, at)),
{
    match c.headed_by(person) {
        Some(unit) => {
            if decision is Dissolve {
                let left = match c.departments[unit].parent_id {
                    Some(parent) => {
                        lemma_rehome_grew(
                            c,
                            c.people_in(seq![unit]),
                            person,
                            unit,
                            parent,
                            reason,
                            at,
                        );
                        c.rehome(c.people_in(seq![unit]), person, unit, parent, reason, at)
                    },
                    None => c,
                };
                lemma_refreshed_grew(left.delete_department(unit), at);
            }
        },
        None => {},
    }
}

proof fn lemma_created_grew(c: CompanyModel, p: CreateModel, actor: Text)
    ensures
        grew(c, c.department_created(p, actor)),
{
    let head = p.head.person_id();
    let there = match p.vacates {
        Some(HeadVacancyModel::Dissolve) => c.move_person(head, p.parent_id, p.at),
        _ => c,
    };
    if let Some(decision) = p.vacates {
        lemma_vacated_grew(there, head, decision, p.audit_reason, p.at);
    }
    let freed = c.head_freed(p);
    assert(grew(c, freed));
    let unit = freed.insert_department(
        p.department_id,
        p.parent_id,
        p.name,
        p.purpose,
        p.unit,
        head,
        p.at,
    );
    assert(grew(c, unit));
    let headed = match p.head {
        HeadDecisionModel::AppointExisting { person_id } =>
        unit.head_appointed(
            person_id,
            if c.people.dom().contains(person_id) {
                Some(c.people[person_id].department_id)
            } else {
                None
            },
            p,
        ),
        HeadDecisionModel::HireNew { person_id, seed } => unit.seeded(
            person_id,
            p.department_id,
            seed,
            p.audit_reason,
            p.at,
        ),
    };
    assert(grew(c, headed));
    lemma_seeded_all_grew(headed, p.staff, p.department_id, p.audit_reason, p.at);
    let staffed = headed.seeded_all(p.staff, p.department_id, p.audit_reason, p.at);
    lemma_refreshed_grew(staffed, p.at);
    lemma_refreshed_grew(staffed.refresh_department_order(p.at), p.at);
}

proof fn lemma_hired_grew(c: CompanyModel, p: HireModel, actor: Text)
    ensures
        grew(c, c.hired(p, actor)),
{
    let line = hire_line(p.person_id, p.department_id);
    let there = c.seeded(p.person_id, p.department_id, p.seed, line, p.at);
    assert(grew(c, there));
    lemma_refreshed_grew(there, p.at);
}

proof fn lemma_reparented_grew(
    c: CompanyModel,
    department: Text,
    parent: Text,
    at: Text,
    actor: Text,
)
    ensures
        grew(c, c.reparented(department, parent, at, actor)),
{
    let hung = c.set_parent(department, parent, at);
    lemma_refreshed_grew(hung, at);
    lemma_refreshed_grew(hung.refresh_department_order(at), at);
}

proof fn lemma_transferred_grew(
    c: CompanyModel,
    person: Text,
    destination: Text,
    intent: Text,
    at: Text,
    actor: Text,
    vacates: Option<HeadVacancyModel>,
)
    ensures
        grew(c, c.transferred(person, destination, intent, at, actor, vacates)),
{
    let reason = ledger_line("transferred"@, actor);
    lemma_move_all_grew(c, seq![person], destination, intent, reason, true, at);
    let there = c.move_all(seq![person], destination, intent, reason, true, at);
    lemma_refreshed_grew(there, at);
    if let Some(decision) = vacates {
        lemma_vacated_grew(there.refresh_people_order(at), person, decision, reason, at);
    }
}

proof fn lemma_members_moved_grew(
    c: CompanyModel,
    people: Seq<Text>,
    destination: Text,
    intent: Text,
    at: Text,
    actor: Text,
)
    ensures
        grew(c, c.members_moved(people, destination, intent, at, actor)),
{
    lemma_move_all_grew(c, people, destination, intent, intent, false, at);
    lemma_refreshed_grew(c.move_all(people, destination, intent, intent, false, at), at);
}

proof fn lemma_removed_grew(c: CompanyModel, department: Text, at: Text, actor: Text)
    ensures
        grew(c, c.department_removed(department, at, actor)),
{
    let units = c.subtree_descending(department);
    let people = c.people_in(units);
    let rests = c.departments[department].parent_id->0;
    let reason = "department "@ + department + " removed"@;
    lemma_left_behind_all_grew(c, people, rests, reason, at);
    let left = c.left_behind_all(people, rests, reason, at);
    lemma_delete_departments_grew(left, units);
    let cut = left.delete_departments(units);
    lemma_refreshed_grew(cut, at);
    lemma_refreshed_grew(cut.refresh_department_order(at), at);
}

proof fn lemma_paused_grew(c: CompanyModel, department: Text, at: Text, actor: Text)
    ensures
        grew(c, c.paused(department, at, actor)),
{
    let flipped = c.set_department_state(department, UnitState::Paused, at);
    lemma_swept_all_grew(
        flipped,
        flipped.subtree_members(department),
        flipped.root_head(),
        department,
        at,
    );
}

proof fn lemma_ceo_only_grew(c: CompanyModel, at: Text, actor: Text)
    ensures
        grew(c, c.ceo_only(at, actor)),
{
    let chief = c.root_head()->0;
    lemma_retract_in_grew(c, listing(c.activity.dom()), chief, at);
    let quiet = c.retract_non_kept(chief, at);
    lemma_clear_fences_in_grew(quiet, listing(quiet.fences.dom()), chief);
}

proof fn lemma_appointed_grew(
    c: CompanyModel,
    department: Text,
    successor: Text,
    demote_to: Option<Text>,
    at: Text,
    actor: Text,
)
    ensures
        grew(c, c.appointed(department, successor, demote_to, at, actor)),
{
}

proof fn lemma_offboarded_grew(c: CompanyModel, person: Text, at: Text, actor: Text)
    ensures
        grew(c, c.offboarded(person, at, actor)),
{
}

proof fn lemma_head_replaced_grew(
    c: CompanyModel,
    head: Text,
    successor: Text,
    at: Text,
    actor: Text,
)
    ensures
        grew(c, c.head_replaced(head, successor, at, actor)),
{
}

proof fn lemma_shut_down_grew(
    c: CompanyModel,
    person: Text,
    kind: ShutdownKindModel,
    at: Text,
    actor: Text,
)
    ensures
        grew(c, c.shut_down(person, kind, at, actor)),
{
}

proof fn lemma_benched_grew(c: CompanyModel, person: Text, at: Text, actor: Text)
    ensures
        grew(c, c.benched(person, at, actor)),
        grew(c, c.park_prepared(person, at, actor)),
{
}

proof fn lemma_started_grew(c: CompanyModel, person: Text, at: Text, actor: Text)
    ensures
        grew(c, c.started(person, at, actor)),
{
}

proof fn lemma_woken_grew(c: CompanyModel, person: Text, at: Text, actor: Text)
    ensures
        grew(c, c.woken(person, at, actor)),
        grew(c, c.recalled(person, at, actor)),
{
}

/// No decision loses anything: nobody's row, transition or activity is ever
/// deleted, and the staffing history and the events are only ever added to.
/// Whether the company is stood down is no decision's to change.
pub proof fn law_nothing_is_lost(c: CompanyModel, d: Decision, at: Text, actor: Text)
    ensures
        grew(c, c.decided(d, at, actor)),
{
    match d {
        Decision::Create { proposal } => {
            lemma_created_grew(c, proposal, actor);
        },
        Decision::Hire { newcomer } => {
            lemma_hired_grew(c, newcomer, actor);
        },
        Decision::Appoint { department, successor, demote_to } => {
            lemma_appointed_grew(c, department, successor, demote_to, at, actor);
        },
        Decision::Reparent { department, parent } => {
            lemma_reparented_grew(c, department, parent, at, actor);
        },
        Decision::Transfer { person, destination, intent, vacates } => {
            lemma_transferred_grew(c, person, destination, intent, at, actor, vacates);
        },
        Decision::MoveMembers { from, destination, named, intent } => {
            lemma_members_moved_grew(c, c.batch(from, named), destination, intent, at, actor);
        },
        Decision::Offboard { person } => {
            lemma_offboarded_grew(c, person, at, actor);
        },
        Decision::ReplaceHead { head, successor } => {
            lemma_head_replaced_grew(c, head, successor, at, actor);
        },
        Decision::RemoveTree { department } => {
            lemma_removed_grew(c, department, at, actor);
        },
        Decision::Pause { department } => {
            lemma_paused_grew(c, department, at, actor);
        },
        Decision::Resume { department } => {},
        Decision::ResumeMany { departments, skip_active } => {
            lemma_resume_all_grew(c, departments, at);
        },
        Decision::Shutdown { person, kind } => {
            lemma_shut_down_grew(c, person, kind, at, actor);
        },
        Decision::Bench { person } => {
            lemma_benched_grew(c, person, at, actor);
        },
        Decision::BenchLifecycle { person } => {
            lemma_benched_grew(c, person, at, actor);
            lemma_benched_grew(c.park_prepared(person, at, actor), person, at, actor);
        },
        Decision::Start { person } => {
            lemma_started_grew(c, person, at, actor);
        },
        Decision::Wake { person } => {
            lemma_woken_grew(c, person, at, actor);
        },
        Decision::Recall { person } => {
            lemma_woken_grew(c, person, at, actor);
        },
        Decision::ReactivateRoot => {},
        Decision::CeoOnly => {
            lemma_ceo_only_grew(c, at, actor);
        },
        Decision::PublishLauncherRoot { launcher_root } => {},
    }
}

} // verus!
