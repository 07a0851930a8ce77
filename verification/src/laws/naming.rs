//! The staffing history names only people the company has.

use vstd::prelude::*;

use crate::company::CompanyModel;
use crate::laws::chart::{
    charted, lemma_headed_by_none, lemma_heads, lemma_org, lemma_residents, unit_sound,
};
use crate::laws::chart_kept::{lemma_batch, lemma_vacancy_answered};
use crate::laws::decision::Decision;
use crate::laws::frames;
use crate::laws::frames::{
    begins, lemma_clear_fences_in, lemma_delete_departments, lemma_number_departments,
    lemma_number_people, lemma_resume_all, lemma_retract_in, lemma_swept_all, lemma_with_last,
};
use crate::laws::history::law_nothing_is_lost;
use crate::org_ops::create::hire_line;
use crate::org_ops::decisions::{HeadDecisionModel, HeadVacancyModel, StaffModel};
use crate::org_ops::guards::ledger_line;
use crate::org_projection::{create_refusal, CreateModel};
use crate::organization::UnitState;
use crate::table::listing;
use crate::text::Text;

verus! {

/// Whether everybody the staffing history names is somebody.
pub open spec fn history_names_people(c: CompanyModel) -> bool {
    forall|i: int|
        0 <= i < c.staffing.len() ==> c.people.dom().contains((#[trigger] c.staffing[i]).person_id)
}

/// Whether whoever an added entry names is somebody, and nobody is lost.
spec fn adds_people(a: CompanyModel, b: CompanyModel) -> bool {
    &&& begins(a.staffing, b.staffing)
    &&& a.people.dom().subset_of(b.people.dom())
    &&& forall|i: int|
        a.staffing.len() <= i < b.staffing.len() ==> b.people.dom().contains(
            (#[trigger] b.staffing[i]).person_id,
        )
}

proof fn lemma_adds_through(a: CompanyModel, b: CompanyModel, c: CompanyModel)
    requires
        adds_people(a, b),
        adds_people(b, c),
    ensures
        adds_people(a, c),
{
    assert forall|i: int| a.staffing.len() <= i < c.staffing.len() implies c.people.dom().contains(
        (#[trigger] c.staffing[i]).person_id,
    ) by {
        if i < b.staffing.len() {
            assert(b.staffing[i] == c.staffing[i]);
        }
    }
}

proof fn lemma_refreshed(c: CompanyModel, at: Text)
    ensures
        adds_people(c, c.refresh_department_order(at)),
        adds_people(c, c.refresh_people_order(at)),
{
    lemma_number_departments(c, c.department_order(), at);
    lemma_number_people(c, c.people_order(), at);
}

proof fn lemma_rehome(
    c: CompanyModel,
    residents: Seq<Text>,
    leaver: Text,
    from: Text,
    to: Text,
    reason: Text,
    at: Text,
)
    requires
        forall|p: Text| #[trigger] residents.contains(p) ==> c.people.dom().contains(p),
    ensures
        adds_people(c, c.rehome(residents, leaver, from, to, reason, at)),
    decreases residents.len(),
{
    if residents.len() > 0 {
        lemma_with_last(residents);
        let front = residents.drop_last();
        assert forall|p: Text| #[trigger] front.contains(p) implies c.people.dom().contains(p) by {
            assert(residents.contains(p));
        }
        assert(residents.contains(residents.last()));
        lemma_rehome(c, front, leaver, from, to, reason, at);
        let b = c.rehome(front, leaver, from, to, reason, at);
        lemma_adds_through(c, b, c.rehome(residents, leaver, from, to, reason, at));
    }
}

proof fn lemma_move_all(
    c: CompanyModel,
    people: Seq<Text>,
    destination: Text,
    intent: Text,
    reason: Text,
    adopt: bool,
    at: Text,
)
    requires
        forall|p: Text| #[trigger] people.contains(p) ==> c.people.dom().contains(p),
    ensures
        adds_people(c, c.move_all(people, destination, intent, reason, adopt, at)),
    decreases people.len(),
{
    if people.len() > 0 {
        lemma_with_last(people);
        let front = people.drop_last();
        assert forall|p: Text| #[trigger] front.contains(p) implies c.people.dom().contains(p) by {
            assert(people.contains(p));
        }
        assert(people.contains(people.last()));
        lemma_move_all(c, front, destination, intent, reason, adopt, at);
        let b = c.move_all(front, destination, intent, reason, adopt, at);
        lemma_adds_through(c, b, c.move_all(people, destination, intent, reason, adopt, at));
    }
}

proof fn lemma_seeded_all(
    c: CompanyModel,
    staff: Seq<StaffModel>,
    department: Text,
    reason: Text,
    at: Text,
)
    ensures
        adds_people(c, c.seeded_all(staff, department, reason, at)),
    decreases staff.len(),
{
    if staff.len() > 0 {
        let front = staff.drop_last();
        lemma_seeded_all(c, front, department, reason, at);
        let b = c.seeded_all(front, department, reason, at);
        lemma_adds_through(c, b, c.seeded_all(staff, department, reason, at));
    }
}

proof fn lemma_left_behind_all(
    c: CompanyModel,
    people: Seq<Text>,
    rests: Text,
    reason: Text,
    at: Text,
)
    requires
        forall|p: Text| #[trigger] people.contains(p) ==> c.people.dom().contains(p),
    ensures
        adds_people(c, c.left_behind_all(people, rests, reason, at)),
    decreases people.len(),
{
    if people.len() > 0 {
        lemma_with_last(people);
        let front = people.drop_last();
        assert forall|p: Text| #[trigger] front.contains(p) implies c.people.dom().contains(p) by {
            assert(people.contains(p));
        }
        assert(people.contains(people.last()));
        lemma_left_behind_all(c, front, rests, reason, at);
        let b = c.left_behind_all(front, rests, reason, at);
        lemma_adds_through(c, b, c.left_behind_all(people, rests, reason, at));
    }
}

proof fn lemma_vacated(
    c: CompanyModel,
    person: Text,
    decision: HeadVacancyModel,
    reason: Text,
    at: Text,
)
    requires
        c.finite(),
        c.headed_by(person) is Some ==> c.people.dom().contains(person),
        c.headed_by(person) is Some ==> (decision matches HeadVacancyModel::HandOver {
            successor_person_id,
        } ==> c.people.dom().contains(successor_person_id)),
    ensures
        adds_people(c, c.vacated(person, decision, reason, at)),
{
    if let Some(unit) = c.headed_by(person) {
        if decision is Dissolve {
            let residents = c.people_in(seq![unit]);
            lemma_residents(c, seq![unit]);
            let left = match c.departments[unit].parent_id {
                Some(parent) => {
                    lemma_rehome(c, residents, person, unit, parent, reason, at);
                    c.rehome(residents, person, unit, parent, reason, at)
                },
                None => c,
            };
            let cut = left.delete_department(unit);
            lemma_adds_through(c, left, cut);
            lemma_refreshed(cut, at);
            let ordered = cut.refresh_department_order(at);
            lemma_adds_through(c, cut, ordered);
            let r = c.vacated(person, decision, reason, at);
            assert(adds_people(ordered, r));
            lemma_adds_through(c, ordered, r);
        }
    }
}

proof fn lemma_created(c: CompanyModel, root: Text, p: CreateModel, actor: Text)
    requires
        c.finite(),
        charted(c, root),
        create_refusal(c.org(), p) is None,
    ensures
        adds_people(c, c.department_created(p, actor)),
{
    let r = c.department_created(p, actor);
    let head = p.head.person_id();
    lemma_org(c);
    lemma_heads(c, root);
    let there = match p.vacates {
        Some(HeadVacancyModel::Dissolve) => c.move_person(head, p.parent_id, p.at),
        _ => c,
    };
    assert(there.people.dom() =~= c.people.dom());
    assert(there.org().departments =~= c.org().departments);
    assert(there.headed_by(head) == c.headed_by(head));
    if let Some(decision) = p.vacates {
        if p.head is HireNew {
            assert forall|d: Text| #[trigger] c.departments.dom().contains(d) implies
                c.departments[d].head_person_id != head by {
                assert(unit_sound(c, root, d));
            }
            lemma_headed_by_none(c, head);
        } else if let Some(unit) = c.headed_by(head) {
            lemma_vacancy_answered(c, head, unit, decision);
        }
        lemma_vacated(there, head, decision, p.audit_reason, p.at);
    }
    let freed = c.head_freed(p);
    assert(adds_people(c, freed));
    let unit = freed.insert_department(
        p.department_id,
        p.parent_id,
        p.name,
        p.purpose,
        p.unit,
        head,
        p.at,
    );
    lemma_adds_through(c, freed, unit);
    let headed = match p.head {
        HeadDecisionModel::AppointExisting { person_id } => unit.head_appointed(
            person_id,
            if c.people.dom().contains(person_id) {
                Some(c.people[person_id].department_id)
            } else {
                None
            },
            p,
        ),
        HeadDecisionModel::HireNew { person_id, seed } => unit.seeded(
            person_id,
            p.department_id,
            seed,
            p.audit_reason,
            p.at,
        ),
    };
    assert(adds_people(unit, headed));
    lemma_adds_through(c, unit, headed);
    lemma_seeded_all(headed, p.staff, p.department_id, p.audit_reason, p.at);
    let staffed = headed.seeded_all(p.staff, p.department_id, p.audit_reason, p.at);
    lemma_adds_through(c, headed, staffed);
    lemma_refreshed(staffed, p.at);
    let ordered = staffed.refresh_department_order(p.at);
    lemma_adds_through(c, staffed, ordered);
    lemma_refreshed(ordered, p.at);
    lemma_adds_through(c, ordered, ordered.refresh_people_order(p.at));
    lemma_adds_through(c, ordered.refresh_people_order(p.at), r);
}

proof fn lemma_transferred(
    c: CompanyModel,
    root: Text,
    person: Text,
    destination: Text,
    intent: Text,
    at: Text,
    actor: Text,
    vacates: Option<HeadVacancyModel>,
)
    requires
        c.finite(),
        charted(c, root),
        c.transfer_refusal(person, destination, actor, vacates) is None,
    ensures
        adds_people(c, c.transferred(person, destination, intent, at, actor, vacates)),
{
    let r = c.transferred(person, destination, intent, at, actor, vacates);
    let reason = ledger_line("transferred"@, actor);
    lemma_heads(c, root);
    assert forall|t: Text| #[trigger] seq![person].contains(t) implies c.people.dom().contains(
        t,
    ) by {
        assert(seq![person][0] == person);
    }
    lemma_move_all(c, seq![person], destination, intent, reason, true, at);
    let there = c.move_all(seq![person], destination, intent, reason, true, at);
    frames::lemma_move_all(c, seq![person], destination, intent, reason, true, at);
    lemma_refreshed(there, at);
    let moved = there.refresh_people_order(at);
    lemma_number_people(there, there.people_order(), at);
    lemma_adds_through(c, there, moved);
    match vacates {
        Some(decision) => {
            law_nothing_is_lost(
                c,
                Decision::Transfer { person, destination, intent, vacates: None },
                at,
                actor,
            );
            assert(moved.finite());
            assert(moved.org().departments =~= c.org().departments);
            assert(moved.headed_by(person) == c.headed_by(person));
            if let Some(unit) = c.headed_by(person) {
                lemma_vacancy_answered(c, person, unit, decision);
            }
            lemma_vacated(moved, person, decision, reason, at);
            let freed = moved.vacated(person, decision, reason, at);
            lemma_adds_through(c, moved, freed);
            assert(adds_people(freed, r));
            lemma_adds_through(c, freed, r);
        },
        None => {
            lemma_adds_through(c, moved, r);
        },
    }
}

proof fn lemma_members_moved(
    c: CompanyModel,
    root: Text,
    from: Text,
    destination: Text,
    people: Seq<Text>,
    intent: Text,
    at: Text,
    actor: Text,
)
    requires
        c.finite(),
        charted(c, root),
        c.move_refusal(from, destination, people, actor) is None,
    ensures
        adds_people(c, c.members_moved(people, destination, intent, at, actor)),
{
    let r = c.members_moved(people, destination, intent, at, actor);
    lemma_batch(c, root, people, from, 0);
    assert forall|t: Text| #[trigger] people.contains(t) implies c.people.dom().contains(t) by {
        let i = choose|i: int| 0 <= i < people.len() && people[i] == t;
        assert(c.people.dom().contains(people[i]));
    }
    lemma_move_all(c, people, destination, intent, intent, false, at);
    let there = c.move_all(people, destination, intent, intent, false, at);
    lemma_refreshed(there, at);
    lemma_adds_through(c, there, there.refresh_people_order(at));
    lemma_adds_through(c, there.refresh_people_order(at), r);
}

proof fn lemma_removed(c: CompanyModel, department: Text, at: Text, actor: Text)
    requires
        c.finite(),
    ensures
        adds_people(c, c.department_removed(department, at, actor)),
{
    let r = c.department_removed(department, at, actor);
    let units = c.subtree_descending(department);
    let people = c.people_in(units);
    let rests = c.departments[department].parent_id->0;
    let reason = "department "@ + department + " removed"@;
    lemma_residents(c, units);
    lemma_left_behind_all(c, people, rests, reason, at);
    let left = c.left_behind_all(people, rests, reason, at);
    lemma_delete_departments(left, units);
    let cut = left.delete_departments(units);
    lemma_adds_through(c, left, cut);
    lemma_refreshed(cut, at);
    let ordered = cut.refresh_department_order(at);
    lemma_adds_through(c, cut, ordered);
    lemma_refreshed(ordered, at);
    lemma_adds_through(c, ordered, ordered.refresh_people_order(at));
    lemma_adds_through(c, ordered.refresh_people_order(at), r);
}

proof fn lemma_appointed(
    c: CompanyModel,
    department: Text,
    successor: Text,
    demote_to: Option<Text>,
    at: Text,
    actor: Text,
)
    requires
        c.people.dom().contains(successor),
        c.people.dom().contains(c.departments[department].head_person_id),
    ensures
        adds_people(c, c.appointed(department, successor, demote_to, at, actor)),
{
}

proof fn lemma_offboarded(c: CompanyModel, person: Text, at: Text, actor: Text)
    requires
        c.people.dom().contains(person),
    ensures
        adds_people(c, c.offboarded(person, at, actor)),
{
}

proof fn lemma_head_replaced(
    c: CompanyModel,
    head: Text,
    successor: Text,
    at: Text,
    actor: Text,
)
    requires
        c.people.dom().contains(head),
        c.people.dom().contains(successor),
    ensures
        adds_people(c, c.head_replaced(head, successor, at, actor)),
{
}

proof fn lemma_benched(c: CompanyModel, person: Text, at: Text, actor: Text)
    requires
        c.people.dom().contains(person),
    ensures
        adds_people(c, c.benched(person, at, actor)),
        adds_people(c, c.park_prepared(person, at, actor)),
        c.park_prepared(person, at, actor).people == c.people,
{
}

proof fn lemma_started(c: CompanyModel, person: Text, at: Text, actor: Text)
    requires
        c.people.dom().contains(person),
    ensures
        adds_people(c, c.started(person, at, actor)),
{
}

proof fn lemma_woken(c: CompanyModel, person: Text, at: Text, actor: Text)
    requires
        c.people.dom().contains(person),
    ensures
        adds_people(c, c.woken(person, at, actor)),
        adds_people(c, c.recalled(person, at, actor)),
{
}

/// Every decision keeps the staffing history to people the company has: nobody
/// it names is ever missing from the roster.
pub proof fn law_history_names_only_people(
    c: CompanyModel,
    root: Text,
    d: Decision,
    at: Text,
    actor: Text,
)
    requires
        c.finite(),
        charted(c, root),
        history_names_people(c),
        c.allows(d, actor),
    ensures
        history_names_people(c.decided(d, at, actor)),
{
    let r = c.decided(d, at, actor);
    match d {
        Decision::Create { proposal } => {
            lemma_created(c, root, proposal, actor);
        },
        Decision::Hire { newcomer } => {
            let line = hire_line(newcomer.person_id, newcomer.department_id);
            let there = c.seeded(
                newcomer.person_id,
                newcomer.department_id,
                newcomer.seed,
                line,
                newcomer.at,
            );
            assert(adds_people(c, there));
            lemma_refreshed(there, newcomer.at);
            lemma_adds_through(c, there, there.refresh_people_order(newcomer.at));
            lemma_adds_through(c, there.refresh_people_order(newcomer.at), r);
        },
        Decision::Reparent { department, parent } => {
            let hung = c.set_parent(department, parent, at);
            lemma_refreshed(hung, at);
            let ordered = hung.refresh_department_order(at);
            lemma_adds_through(c, hung, ordered);
            lemma_refreshed(ordered, at);
            lemma_adds_through(c, ordered, ordered.refresh_people_order(at));
            lemma_adds_through(c, ordered.refresh_people_order(at), r);
        },
        Decision::Transfer { person, destination, intent, vacates } => {
            lemma_transferred(c, root, person, destination, intent, at, actor, vacates);
        },
        Decision::MoveMembers { from, destination, named, intent } => {
            let people = c.batch(from, named);
            lemma_members_moved(c, root, from, destination, people, intent, at, actor);
        },
        Decision::RemoveTree { department } => {
            lemma_removed(c, department, at, actor);
        },
        Decision::Pause { department } => {
            let flipped = c.set_department_state(department, UnitState::Paused, at);
            lemma_swept_all(
                flipped,
                flipped.subtree_members(department),
                flipped.root_head(),
                department,
                at,
            );
        },
        Decision::ResumeMany { departments, skip_active } => {
            lemma_resume_all(c, departments, at);
        },
        Decision::CeoOnly => {
            let chief = c.root_head()->0;
            lemma_retract_in(c, listing(c.activity.dom()), chief, at);
            let quiet = c.retract_non_kept(chief, at);
            lemma_clear_fences_in(quiet, listing(quiet.fences.dom()), chief);
        },
        Decision::Resume { .. } => {},
        Decision::Shutdown { .. } => {},
        Decision::ReactivateRoot => {},
        Decision::PublishLauncherRoot { .. } => {},
        Decision::Appoint { department, successor, demote_to } => {
            assert(unit_sound(c, root, department));
            lemma_appointed(c, department, successor, demote_to, at, actor);
        },
        Decision::Offboard { person } => {
            lemma_offboarded(c, person, at, actor);
        },
        Decision::ReplaceHead { head, successor } => {
            lemma_head_replaced(c, head, successor, at, actor);
        },
        Decision::Bench { person } => {
            lemma_benched(c, person, at, actor);
        },
        Decision::BenchLifecycle { person } => {
            let ready = c.park_prepared(person, at, actor);
            lemma_benched(c, person, at, actor);
            lemma_benched(ready, person, at, actor);
            lemma_adds_through(c, ready, r);
        },
        Decision::Start { person } => {
            lemma_started(c, person, at, actor);
        },
        Decision::Wake { person } => {
            lemma_woken(c, person, at, actor);
        },
        Decision::Recall { person } => {
            lemma_woken(c, person, at, actor);
        },
    }
    assert forall|i: int| 0 <= i < r.staffing.len() implies r.people.dom().contains(
        (#[trigger] r.staffing[i]).person_id,
    ) by {
        if i < c.staffing.len() {
            assert(c.staffing[i] == r.staffing[i]);
        }
    }
}

} // verus!
