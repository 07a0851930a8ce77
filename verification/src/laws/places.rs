//! Places: units and people are numbered without a gap, and every decision
//! keeps them so.

use vstd::prelude::*;

use crate::company::{CompanyModel, DepartmentModel, PersonModel};
use crate::laws::decision::Decision;
use crate::laws::frames::{
    lemma_clear_fences_in, lemma_delete_departments, lemma_left_behind_all, lemma_move_all,
    lemma_number_departments, lemma_number_people, lemma_rehome, lemma_resume_all,
    lemma_retract_in, lemma_swept_all,
};
use crate::laws::history::law_nothing_is_lost;
use crate::order::{in_order, lemma_sorted};
use crate::org_ops::create::hire_line;
use crate::org_ops::decisions::{HeadDecisionModel, HeadVacancyModel};
use crate::org_ops::guards::ledger_line;
use crate::org_projection::{CreateModel, HireModel};
use crate::organization::UnitState;
use crate::table::{lemma_finite_listing, listing};
use crate::text::Text;

verus! {

/// Whether the units are numbered from nothing without a gap: each has a number
/// below how many there are, and no two have the same.
pub open spec fn units_numbered(units: Map<Text, DepartmentModel>) -> bool {
    &&& forall|d: Text| #[trigger] units.dom().contains(d) ==> units[d].ordinal < units.dom().len()
    &&& units_apart(units)
}

/// Whether no two units have the same number.
pub open spec fn units_apart(units: Map<Text, DepartmentModel>) -> bool {
    forall|d: Text, e: Text|
        #![trigger units.dom().contains(d), units.dom().contains(e)]
        units.dom().contains(d) && units.dom().contains(e) && d != e ==> units[d].ordinal
            != units[e].ordinal
}

/// Whether the people are numbered from nothing without a gap.
pub open spec fn people_numbered(people: Map<Text, PersonModel>) -> bool {
    &&& forall|p: Text| #[trigger]
        people.dom().contains(p) ==> people[p].ordinal < people.dom().len()
    &&& forall|p: Text, q: Text|
        #![trigger people.dom().contains(p), people.dom().contains(q)]
        people.dom().contains(p) && people.dom().contains(q) && p != q ==> people[p].ordinal
            != people[q].ordinal
}

/// Whether the numbering of units fits a machine word.
pub open spec fn countable(c: CompanyModel) -> bool {
    c.departments.dom().len() <= u64::MAX && c.people.dom().len() <= u64::MAX
}

/// Whether units have kept their numbers and their parents.
pub open spec fn units_in_place(a: CompanyModel, b: CompanyModel) -> bool {
    &&& a.departments.dom() == b.departments.dom()
    &&& forall|d: Text| #[trigger]
        a.departments.dom().contains(d) ==> a.departments[d].ordinal == b.departments[d].ordinal
            && a.departments[d].parent_id == b.departments[d].parent_id
}

/// Whether people have kept their numbers.
pub open spec fn people_in_place(a: CompanyModel, b: CompanyModel) -> bool {
    &&& a.people.dom() == b.people.dom()
    &&& forall|p: Text| #[trigger]
        a.people.dom().contains(p) ==> a.people[p].ordinal == b.people[p].ordinal
}

/// The order of units names each once.
pub proof fn lemma_department_order(c: CompanyModel)
    requires
        c.finite(),
    ensures
        in_order(c.department_order(), |d: Text| c.department_key(d)),
        c.department_order().no_duplicates(),
        c.department_order().len() == c.departments.dom().len(),
        forall|d: Text| #[trigger]
            c.department_order().contains(d) <==> c.departments.dom().contains(d),
{
    lemma_finite_listing(c.departments.dom());
    lemma_sorted(listing(c.departments.dom()), |d: Text| c.department_key(d));
}

/// The order of people names each once.
pub proof fn lemma_people_order(c: CompanyModel)
    requires
        c.finite(),
    ensures
        in_order(c.people_order(), |p: Text| c.person_key(p)),
        c.people_order().no_duplicates(),
        c.people_order().len() == c.people.dom().len(),
        forall|p: Text| #[trigger] c.people_order().contains(p) <==> c.people.dom().contains(p),
{
    lemma_finite_listing(c.people.dom());
    lemma_sorted(listing(c.people.dom()), |p: Text| c.person_key(p));
}

/// Where a unit comes in the order is its number.
pub proof fn lemma_unit_place(c: CompanyModel, at: Text, d: Text) -> (i: int)
    requires
        c.finite(),
        c.departments.dom().len() <= u64::MAX,
        c.departments.dom().contains(d),
    ensures
        0 <= i < c.department_order().len(),
        c.department_order()[i] == d,
        c.refresh_department_order(at).departments[d].ordinal == i,
{
    lemma_department_order(c);
    lemma_number_departments(c, c.department_order(), at);
    let q = c.department_order();
    assert(q.contains(d));
    let i = choose|i: int| 0 <= i < q.len() && q[i] == d;
    assert(c.departments.dom().contains(q[i]));
    i
}

/// Where somebody comes in the order is their number.
pub proof fn lemma_person_place(c: CompanyModel, at: Text, p: Text) -> (i: int)
    requires
        c.finite(),
        c.people.dom().len() <= u64::MAX,
        c.people.dom().contains(p),
    ensures
        0 <= i < c.people_order().len(),
        c.people_order()[i] == p,
        c.refresh_people_order(at).people[p].ordinal == i,
{
    lemma_people_order(c);
    lemma_number_people(c, c.people_order(), at);
    let q = c.people_order();
    assert(q.contains(p));
    let i = choose|i: int| 0 <= i < q.len() && q[i] == p;
    assert(c.people.dom().contains(q[i]));
    i
}

/// Refreshing the order of units numbers them without a gap.
pub proof fn lemma_units_refreshed(c: CompanyModel, at: Text)
    requires
        c.finite(),
        c.departments.dom().len() <= u64::MAX,
    ensures
        units_numbered(c.refresh_department_order(at).departments),
        people_in_place(c, c.refresh_department_order(at)),
        c.refresh_department_order(at).departments.dom() == c.departments.dom(),
        c.refresh_department_order(at).finite(),
{
    let r = c.refresh_department_order(at);
    lemma_department_order(c);
    lemma_number_departments(c, c.department_order(), at);
    assert forall|d: Text| #[trigger] r.departments.dom().contains(d) implies
        r.departments[d].ordinal < r.departments.dom().len() by {
        let i = lemma_unit_place(c, at, d);
    }
    assert forall|d: Text, e: Text|
        #![trigger r.departments.dom().contains(d), r.departments.dom().contains(e)]
        r.departments.dom().contains(d) && r.departments.dom().contains(e) && d
            != e implies r.departments[d].ordinal != r.departments[e].ordinal by {
        let i = lemma_unit_place(c, at, d);
        let j = lemma_unit_place(c, at, e);
    }
}

/// Refreshing the order of people numbers them without a gap.
pub proof fn lemma_people_refreshed(c: CompanyModel, at: Text)
    requires
        c.finite(),
        c.people.dom().len() <= u64::MAX,
    ensures
        people_numbered(c.refresh_people_order(at).people),
        units_in_place(c, c.refresh_people_order(at)),
        c.refresh_people_order(at).people.dom() == c.people.dom(),
        c.refresh_people_order(at).finite(),
{
    let r = c.refresh_people_order(at);
    lemma_people_order(c);
    lemma_number_people(c, c.people_order(), at);
    assert forall|p: Text| #[trigger] r.people.dom().contains(p) implies r.people[p].ordinal
        < r.people.dom().len() by {
        let i = lemma_person_place(c, at, p);
    }
    assert forall|p: Text, q: Text|
        #![trigger r.people.dom().contains(p), r.people.dom().contains(q)]
        r.people.dom().contains(p) && r.people.dom().contains(q) && p != q implies r.people[p].ordinal
        != r.people[q].ordinal by {
        let i = lemma_person_place(c, at, p);
        let j = lemma_person_place(c, at, q);
    }
}

/// Whether units and people are numbered without a gap.
pub open spec fn numbered(c: CompanyModel) -> bool {
    units_numbered(c.departments) && people_numbered(c.people)
}

proof fn lemma_units_kept(a: CompanyModel, b: CompanyModel)
    requires
        units_numbered(a.departments),
        units_in_place(a, b),
    ensures
        units_numbered(b.departments),
{
}

proof fn lemma_people_kept(a: CompanyModel, b: CompanyModel)
    requires
        people_numbered(a.people),
        people_in_place(a, b),
    ensures
        people_numbered(b.people),
{
}

/// Settling a vacancy keeps units numbered, and people in their places.
pub proof fn lemma_vacated(
    c: CompanyModel,
    person: Text,
    decision: HeadVacancyModel,
    reason: Text,
    at: Text,
)
    requires
        c.finite(),
        c.departments.dom().len() <= u64::MAX,
        units_numbered(c.departments),
    ensures
        units_numbered(c.vacated(person, decision, reason, at).departments),
        people_in_place(c, c.vacated(person, decision, reason, at)),
        c.vacated(person, decision, reason, at).departments.dom().subset_of(c.departments.dom()),
        c.vacated(person, decision, reason, at).finite(),
{
    let r = c.vacated(person, decision, reason, at);
    match c.headed_by(person) {
        None => {},
        Some(unit) => match decision {
            HeadVacancyModel::HandOver { successor_person_id } => {
                assert(r.people.dom() =~= c.people.dom());
                if c.departments.dom().contains(unit) {
                    assert(r.departments.dom() =~= c.departments.dom());
                }
                lemma_units_kept(c, r);
            },
            HeadVacancyModel::Dissolve => {
                let left = match c.departments[unit].parent_id {
                    Some(parent) => {
                        lemma_rehome(
                            c,
                            c.people_in(seq![unit]),
                            person,
                            unit,
                            parent,
                            reason,
                            at,
                        );
                        c.rehome(c.people_in(seq![unit]), person, unit, parent, reason, at)
                    },
                    None => c,
                };
                let cut = left.delete_department(unit);
                assert(cut.departments.dom() =~= c.departments.dom().remove(unit));
                assert(cut.departments.dom().len() <= c.departments.dom().len());
                lemma_units_refreshed(cut, at);
            },
        },
    }
}

proof fn lemma_transferred(
    c: CompanyModel,
    person: Text,
    destination: Text,
    intent: Text,
    at: Text,
    actor: Text,
    vacates: Option<HeadVacancyModel>,
)
    requires
        c.finite(),
        countable(c),
        numbered(c),
    ensures
        numbered(c.transferred(person, destination, intent, at, actor, vacates)),
{
    let r = c.transferred(person, destination, intent, at, actor, vacates);
    let reason = ledger_line("transferred"@, actor);
    let there = c.move_all(seq![person], destination, intent, reason, true, at);
    lemma_move_all(c, seq![person], destination, intent, reason, true, at);
    law_nothing_is_lost(
        c,
        Decision::Transfer { person, destination, intent, vacates: None },
        at,
        actor,
    );
    let plain = c.transferred(person, destination, intent, at, actor, None);
    assert(there.finite()) by {
        lemma_number_people(there, there.people_order(), at);
        assert(plain.finite());
    }
    lemma_people_refreshed(there, at);
    let moved = there.refresh_people_order(at);
    lemma_units_kept(c, moved);
    match vacates {
        Some(decision) => {
            lemma_vacated(moved, person, decision, reason, at);
            let freed = moved.vacated(person, decision, reason, at);
            assert(r.departments == freed.departments);
            assert(r.people.dom() =~= freed.people.dom());
            lemma_people_kept(moved, r);
        },
        None => {},
    }
}

proof fn lemma_members_moved(
    c: CompanyModel,
    people: Seq<Text>,
    destination: Text,
    intent: Text,
    at: Text,
    actor: Text,
)
    requires
        c.finite(),
        countable(c),
        numbered(c),
        c.members_moved(people, destination, intent, at, actor).finite(),
    ensures
        numbered(c.members_moved(people, destination, intent, at, actor)),
{
    let there = c.move_all(people, destination, intent, intent, false, at);
    lemma_move_all(c, people, destination, intent, intent, false, at);
    lemma_number_people(there, there.people_order(), at);
    let r = c.members_moved(people, destination, intent, at, actor);
    assert(there.finite()) by {
        assert(r.finite());
    }
    lemma_people_refreshed(there, at);
    lemma_units_kept(c, r);
}

proof fn lemma_removed(c: CompanyModel, department: Text, at: Text, actor: Text)
    requires
        c.finite(),
        countable(c),
    ensures
        numbered(c.department_removed(department, at, actor)),
{
    let units = c.subtree_descending(department);
    let people = c.people_in(units);
    let rests = c.departments[department].parent_id->0;
    let reason = "department "@ + department + " removed"@;
    let left = c.left_behind_all(people, rests, reason, at);
    lemma_left_behind_all(c, people, rests, reason, at);
    let cut = left.delete_departments(units);
    lemma_delete_departments(left, units);
    lemma_number_departments(cut, cut.department_order(), at);
    let ordered = cut.refresh_department_order(at);
    lemma_number_people(ordered, ordered.people_order(), at);
    let r = c.department_removed(department, at, actor);
    law_nothing_is_lost(c, Decision::RemoveTree { department }, at, actor);
    assert(cut.finite());
    assert(cut.departments.dom().subset_of(c.departments.dom()));
    vstd::set_lib::lemma_len_subset(cut.departments.dom(), c.departments.dom());
    lemma_units_refreshed(cut, at);
    lemma_people_refreshed(ordered, at);
    lemma_units_kept(ordered, r);
}

proof fn lemma_created(c: CompanyModel, p: CreateModel, actor: Text)
    requires
        c.finite(),
        countable(c.department_created(p, actor)),
    ensures
        numbered(c.department_created(p, actor)),
{
    let r = c.department_created(p, actor);
    law_nothing_is_lost(c, Decision::Create { proposal: p }, p.at, actor);
    let unit = c.head_freed(p).insert_department(
        p.department_id,
        p.parent_id,
        p.name,
        p.purpose,
        p.unit,
        p.head.person_id(),
        p.at,
    );
    let headed = match p.head {
        HeadDecisionModel::AppointExisting { person_id } => unit.head_appointed(
            person_id,
            if c.people.dom().contains(person_id) {
                Some(c.people[person_id].department_id)
            } else {
                None
            },
            p,
        ),
        HeadDecisionModel::HireNew { person_id, seed } => unit.seeded(
            person_id,
            p.department_id,
            seed,
            p.audit_reason,
            p.at,
        ),
    };
    let staffed = headed.seeded_all(p.staff, p.department_id, p.audit_reason, p.at);
    let ordered = staffed.refresh_department_order(p.at);
    let all = ordered.refresh_people_order(p.at);
    assert(r == all.deduped().emitted(p.at, actor));
    lemma_number_departments(staffed, staffed.department_order(), p.at);
    lemma_number_people(ordered, ordered.people_order(), p.at);
    assert(staffed.finite());
    lemma_units_refreshed(staffed, p.at);
    lemma_people_refreshed(ordered, p.at);
    lemma_units_kept(ordered, r);
}

proof fn lemma_hired(c: CompanyModel, p: HireModel, actor: Text)
    requires
        c.finite(),
        numbered(c),
        countable(c.hired(p, actor)),
    ensures
        numbered(c.hired(p, actor)),
{
    let line = hire_line(p.person_id, p.department_id);
    let there = c.seeded(p.person_id, p.department_id, p.seed, line, p.at);
    assert(there.finite());
    lemma_number_people(there, there.people_order(), p.at);
    lemma_people_refreshed(there, p.at);
    lemma_units_kept(c, c.hired(p, actor));
}

proof fn lemma_reparented(c: CompanyModel, department: Text, parent: Text, at: Text, actor: Text)
    requires
        c.finite(),
        countable(c),
        c.departments.dom().contains(department),
    ensures
        numbered(c.reparented(department, parent, at, actor)),
{
    let hung = c.set_parent(department, parent, at);
    assert(hung.departments.dom() =~= c.departments.dom());
    lemma_units_refreshed(hung, at);
    let ordered = hung.refresh_department_order(at);
    lemma_number_departments(hung, hung.department_order(), at);
    lemma_people_refreshed(ordered, at);
    lemma_units_kept(ordered, c.reparented(department, parent, at, actor));
}

/// What changes no place keeps the numbering.
proof fn lemma_in_place(c: CompanyModel, r: CompanyModel)
    requires
        numbered(c),
        in_place(c, r),
    ensures
        numbered(r),
{
    lemma_units_kept(c, r);
    lemma_people_kept(c, r);
}

/// Whether a decision puts units or people in order.
pub open spec fn reorders(d: Decision) -> bool {
    d is Create || d is Hire || d is Reparent || d is Transfer || d is MoveMembers || d
        is RemoveTree
}

/// Whether units and people have kept their numbers.
pub open spec fn in_place(a: CompanyModel, b: CompanyModel) -> bool {
    units_in_place(a, b) && people_in_place(a, b)
}

proof fn lemma_appointed_still(
    c: CompanyModel,
    department: Text,
    successor: Text,
    demote_to: Option<Text>,
    at: Text,
    actor: Text,
)
    requires
        c.departments.dom().contains(department),
    ensures
        in_place(c, c.appointed(department, successor, demote_to, at, actor)),
{
    let r = c.appointed(department, successor, demote_to, at, actor);
    assert(r.departments.dom() =~= c.departments.dom());
    assert(r.people.dom() =~= c.people.dom());
}

proof fn lemma_offboarded_still(c: CompanyModel, person: Text, at: Text, actor: Text)
    ensures
        in_place(c, c.offboarded(person, at, actor)),
{
    let r = c.offboarded(person, at, actor);
    assert(r.people.dom() =~= c.people.dom());
}

proof fn lemma_head_replaced_still(
    c: CompanyModel,
    head: Text,
    successor: Text,
    at: Text,
    actor: Text,
)
    ensures
        in_place(c, c.head_replaced(head, successor, at, actor)),
{
    let r = c.head_replaced(head, successor, at, actor);
    assert(r.departments.dom() =~= c.departments.dom());
    assert(r.people.dom() =~= c.people.dom());
}

proof fn lemma_benched_still(c: CompanyModel, person: Text, at: Text, actor: Text)
    ensures
        in_place(c, c.benched(person, at, actor)),
        in_place(c, c.park_prepared(person, at, actor)),
{
    assert(c.benched(person, at, actor).people.dom() =~= c.people.dom());
}

proof fn lemma_started_still(c: CompanyModel, person: Text, at: Text, actor: Text)
    ensures
        in_place(c, c.started(person, at, actor)),
{
    assert(c.started(person, at, actor).people.dom() =~= c.people.dom());
}

proof fn lemma_woken_still(c: CompanyModel, person: Text, at: Text, actor: Text)
    ensures
        in_place(c, c.woken(person, at, actor)),
        in_place(c, c.recalled(person, at, actor)),
{
    assert(c.woken(person, at, actor).people.dom() =~= c.people.dom());
    assert(c.recalled(person, at, actor).people.dom() =~= c.people.dom());
}

proof fn lemma_paused_still(c: CompanyModel, department: Text, at: Text, actor: Text)
    ensures
        in_place(c, c.paused(department, at, actor)),
        in_place(c, c.resumed(department, at, actor)),
{
    let flipped = c.set_department_state(department, UnitState::Paused, at);
    lemma_swept_all(
        flipped,
        flipped.subtree_members(department),
        flipped.root_head(),
        department,
        at,
    );
    assert(c.paused(department, at, actor).departments.dom() =~= c.departments.dom());
    assert(c.resumed(department, at, actor).departments.dom() =~= c.departments.dom());
}

proof fn lemma_attached_still(c: CompanyModel, at: Text, actor: Text)
    ensures
        in_place(c, c.ceo_only(at, actor)),
{
    let chief = c.root_head()->0;
    lemma_retract_in(c, listing(c.activity.dom()), chief, at);
    let quiet = c.retract_non_kept(chief, at);
    lemma_clear_fences_in(quiet, listing(quiet.fences.dom()), chief);
}

proof fn lemma_reactivated_still(c: CompanyModel, at: Text, actor: Text)
    ensures
        in_place(c, c.reactivated(at, actor)),
{
    assert(c.reactivated(at, actor).departments.dom() =~= c.departments.dom());
}

/// A decision by which nothing moves leaves every place as it was.
pub proof fn lemma_still(c: CompanyModel, d: Decision, at: Text, actor: Text)
    requires
        c.allows(d, actor),
        !reorders(d),
    ensures
        in_place(c, c.decided(d, at, actor)),
{
    match d {
        Decision::Appoint { department, successor, demote_to } => {
            lemma_appointed_still(c, department, successor, demote_to, at, actor);
        },
        Decision::Offboard { person } => {
            lemma_offboarded_still(c, person, at, actor);
        },
        Decision::ReplaceHead { head, successor } => {
            lemma_head_replaced_still(c, head, successor, at, actor);
        },
        Decision::Pause { department } => {
            lemma_paused_still(c, department, at, actor);
        },
        Decision::Resume { department } => {
            lemma_paused_still(c, department, at, actor);
        },
        Decision::ResumeMany { departments, skip_active } => {
            lemma_resume_all(c, departments, at);
        },
        Decision::Shutdown { person, kind } => {},
        Decision::Bench { person } => {
            lemma_benched_still(c, person, at, actor);
        },
        Decision::BenchLifecycle { person } => {
            lemma_benched_still(c, person, at, actor);
            lemma_benched_still(c.park_prepared(person, at, actor), person, at, actor);
        },
        Decision::Start { person } => {
            lemma_started_still(c, person, at, actor);
        },
        Decision::Wake { person } => {
            lemma_woken_still(c, person, at, actor);
        },
        Decision::Recall { person } => {
            lemma_woken_still(c, person, at, actor);
        },
        Decision::ReactivateRoot => {
            lemma_reactivated_still(c, at, actor);
        },
        Decision::CeoOnly => {
            lemma_attached_still(c, at, actor);
        },
        Decision::PublishLauncherRoot { launcher_root } => {},
        _ => {},
    }
}

/// Every decision keeps units and people numbered from nothing without a gap.
pub proof fn law_places_stay_gapless(c: CompanyModel, d: Decision, at: Text, actor: Text)
    requires
        c.finite(),
        numbered(c),
        c.allows(d, actor),
        countable(c),
        countable(c.decided(d, at, actor)),
    ensures
        numbered(c.decided(d, at, actor)),
{
    let r = c.decided(d, at, actor);
    match d {
        Decision::Create { proposal } => {
            lemma_created(c, proposal, actor);
        },
        Decision::Hire { newcomer } => {
            lemma_hired(c, newcomer, actor);
        },
        Decision::Reparent { department, parent } => {
            lemma_reparented(c, department, parent, at, actor);
        },
        Decision::Transfer { person, destination, intent, vacates } => {
            lemma_transferred(c, person, destination, intent, at, actor, vacates);
        },
        Decision::MoveMembers { from, destination, named, intent } => {
            law_nothing_is_lost(c, d, at, actor);
            lemma_members_moved(c, c.batch(from, named), destination, intent, at, actor);
        },
        Decision::RemoveTree { department } => {
            lemma_removed(c, department, at, actor);
        },
        _ => {
            lemma_still(c, d, at, actor);
            lemma_in_place(c, r);
        },
    }
}

} // verus!
