//! What the staffing history records: whoever's standing changes.

use vstd::prelude::*;

use crate::company::{CompanyModel, StaffingModel};
use crate::laws::decision::Decision;
use crate::laws::frames::{
    begins, lemma_clear_fences_in, lemma_delete_departments, lemma_number_departments,
    lemma_number_people, lemma_resume_all, lemma_retract_in, lemma_swept_all,
};
use crate::org_ops::create::hire_line;
use crate::org_ops::decisions::{HeadDecisionModel, HeadVacancyModel, StaffModel};
use crate::org_ops::guards::ledger_line;
use crate::org_ops::seeds::SeedModel;
use crate::org_projection::{CreateModel, HireModel};
use crate::organization::UnitState;
use crate::rows::chart::member_of_row;
use crate::table::listing;
use crate::text::Text;

verus! {

/// Whether an entry from `from` on is about somebody.
pub open spec fn told(staffing: Seq<StaffingModel>, from: int, p: Text) -> bool {
    exists|i: int| from <= i < staffing.len() && #[trigger] staffing[i].person_id == p
}

/// Whether somebody's standing in `b` is another than in `a`: their home, their
/// role, whether they are staffed, or whether they are there at all.
pub open spec fn changed(a: CompanyModel, b: CompanyModel, p: Text) -> bool {
    b.people.dom().contains(p) && (!a.people.dom().contains(p) || member_of_row(a.people[p])
        != member_of_row(b.people[p]))
}

/// Whether an entry was added about everybody whose standing changed.
pub open spec fn recorded(a: CompanyModel, b: CompanyModel) -> bool {
    &&& begins(a.staffing, b.staffing)
    &&& forall|p: Text| #[trigger] changed(a, b, p) ==> told(b.staffing, a.staffing.len() as int, p)
}

/// As [`recorded`], but of one person nothing is said.
spec fn recorded_but(a: CompanyModel, b: CompanyModel, x: Text) -> bool {
    &&& begins(a.staffing, b.staffing)
    &&& forall|p: Text| #[trigger]
        changed(a, b, p) ==> p == x || told(b.staffing, a.staffing.len() as int, p)
}

/// What was recorded on the way was recorded.
proof fn lemma_recorded_through(a: CompanyModel, b: CompanyModel, c: CompanyModel)
    requires
        recorded(a, b),
        recorded(b, c),
    ensures
        recorded(a, c),
{
    assert forall|p: Text| #[trigger] changed(a, c, p) implies told(
        c.staffing,
        a.staffing.len() as int,
        p,
    ) by {
        lemma_told_later(a, b, c, p);
    }
}

proof fn lemma_told_later(a: CompanyModel, b: CompanyModel, c: CompanyModel, p: Text)
    requires
        begins(a.staffing, b.staffing),
        begins(b.staffing, c.staffing),
        changed(a, c, p),
        changed(a, b, p) ==> told(b.staffing, a.staffing.len() as int, p),
        changed(b, c, p) ==> told(c.staffing, b.staffing.len() as int, p),
    ensures
        told(c.staffing, a.staffing.len() as int, p),
{
    if changed(a, b, p) {
        let i = choose|i: int|
            a.staffing.len() <= i < b.staffing.len() && #[trigger] b.staffing[i].person_id == p;
        assert(c.staffing[i].person_id == p);
    } else {
        assert(changed(b, c, p));
        let i = choose|i: int|
            b.staffing.len() <= i < c.staffing.len() && #[trigger] c.staffing[i].person_id == p;
        assert(c.staffing[i].person_id == p);
    }
}

/// As [`lemma_recorded_through`], where one person is left open on the way and
/// told of at the end.
proof fn lemma_recorded_but(a: CompanyModel, b: CompanyModel, c: CompanyModel, x: Text)
    requires
        recorded_but(a, b, x),
        recorded_but(b, c, x),
        told(c.staffing, a.staffing.len() as int, x),
    ensures
        recorded(a, c),
{
    assert forall|p: Text| #[trigger] changed(a, c, p) implies told(
        c.staffing,
        a.staffing.len() as int,
        p,
    ) by {
        if p != x {
            lemma_told_later(a, b, c, p);
        }
    }
}

/// Where nobody's standing changes there is nothing to record.
proof fn lemma_same_people(a: CompanyModel, b: CompanyModel)
    requires
        a.staffing == b.staffing,
        a.org().people == b.org().people,
    ensures
        recorded(a, b),
{
    assert forall|p: Text| !#[trigger] changed(a, b, p) by {
        assert(a.org().people.dom() =~= a.people.dom());
        assert(b.org().people.dom() =~= b.people.dom());
        if b.people.dom().contains(p) {
            assert(b.org().people.dom().contains(p));
            assert(a.org().people.dom().contains(p));
            assert(a.org().people[p] == member_of_row(a.people[p]));
            assert(b.org().people[p] == member_of_row(b.people[p]));
        }
    }
}

proof fn lemma_refreshed(c: CompanyModel, at: Text)
    ensures
        recorded(c, c.refresh_department_order(at)),
        recorded(c, c.refresh_people_order(at)),
{
    lemma_number_departments(c, c.department_order(), at);
    lemma_number_people(c, c.people_order(), at);
    lemma_same_people(c, c.refresh_department_order(at));
    lemma_same_people(c, c.refresh_people_order(at));
}

/// One person's standing changes, and the last entry says so.
proof fn lemma_last_tells(a: CompanyModel, b: CompanyModel, x: Text)
    requires
        begins(a.staffing, b.staffing),
        b.staffing.len() > a.staffing.len(),
        b.staffing.last().person_id == x,
        forall|p: Text| #[trigger] changed(a, b, p) ==> p == x,
    ensures
        recorded(a, b),
        told(b.staffing, a.staffing.len() as int, x),
{
    assert(b.staffing[b.staffing.len() - 1].person_id == x);
}

proof fn lemma_rehome_recorded(
    c: CompanyModel,
    residents: Seq<Text>,
    leaver: Text,
    from: Text,
    to: Text,
    reason: Text,
    at: Text,
)
    ensures
        recorded(c, c.rehome(residents, leaver, from, to, reason, at)),
    decreases residents.len(),
{
    if residents.len() > 0 {
        let before = c.rehome(residents.drop_last(), leaver, from, to, reason, at);
        let after = c.rehome(residents, leaver, from, to, reason, at);
        lemma_rehome_recorded(c, residents.drop_last(), leaver, from, to, reason, at);
        if residents.last() != leaver {
            lemma_last_tells(before, after, residents.last());
            lemma_recorded_through(c, before, after);
        }
    }
}

proof fn lemma_move_all_recorded(
    c: CompanyModel,
    people: Seq<Text>,
    destination: Text,
    intent: Text,
    reason: Text,
    adopt: bool,
    at: Text,
)
    ensures
        recorded(c, c.move_all(people, destination, intent, reason, adopt, at)),
        people.len() > 0 ==> told(
            c.move_all(people, destination, intent, reason, adopt, at).staffing,
            c.staffing.len() as int,
            people.last(),
        ),
    decreases people.len(),
{
    if people.len() > 0 {
        let before = c.move_all(people.drop_last(), destination, intent, reason, adopt, at);
        let after = c.move_all(people, destination, intent, reason, adopt, at);
        lemma_move_all_recorded(c, people.drop_last(), destination, intent, reason, adopt, at);
        lemma_last_tells(before, after, people.last());
        lemma_recorded_through(c, before, after);
        assert(after.staffing[after.staffing.len() - 1].person_id == people.last());
    }
}

proof fn lemma_seeded_recorded(
    c: CompanyModel,
    id: Text,
    department: Text,
    seed: SeedModel,
    reason: Text,
    at: Text,
)
    ensures
        recorded(c, c.seeded(id, department, seed, reason, at)),
        told(c.seeded(id, department, seed, reason, at).staffing, c.staffing.len() as int, id),
{
    lemma_last_tells(c, c.seeded(id, department, seed, reason, at), id);
}

proof fn lemma_seeded_all_recorded(
    c: CompanyModel,
    staff: Seq<StaffModel>,
    department: Text,
    reason: Text,
    at: Text,
)
    ensures
        recorded(c, c.seeded_all(staff, department, reason, at)),
    decreases staff.len(),
{
    if staff.len() > 0 {
        let before = c.seeded_all(staff.drop_last(), department, reason, at);
        lemma_seeded_all_recorded(c, staff.drop_last(), department, reason, at);
        lemma_seeded_recorded(
            before,
            staff.last().person_id,
            department,
            staff.last().seed,
            reason,
            at,
        );
        lemma_recorded_through(c, before, c.seeded_all(staff, department, reason, at));
    }
}

proof fn lemma_left_behind_all_recorded(
    c: CompanyModel,
    people: Seq<Text>,
    rests: Text,
    reason: Text,
    at: Text,
)
    ensures
        recorded(c, c.left_behind_all(people, rests, reason, at)),
    decreases people.len(),
{
    if people.len() > 0 {
        let before = c.left_behind_all(people.drop_last(), rests, reason, at);
        let after = c.left_behind_all(people, rests, reason, at);
        lemma_left_behind_all_recorded(c, people.drop_last(), rests, reason, at);
        lemma_last_tells(before, after, people.last());
        lemma_recorded_through(c, before, after);
    }
}

proof fn lemma_vacated_recorded(
    c: CompanyModel,
    person: Text,
    decision: HeadVacancyModel,
    reason: Text,
    at: Text,
)
    ensures
        recorded(c, c.vacated(person, decision, reason, at)),
{
    let r = c.vacated(person, decision, reason, at);
    match c.headed_by(person) {
        Some(unit) => {
            match decision {
                HeadVacancyModel::HandOver { successor_person_id } => {
                    assert(r.staffing[r.staffing.len() - 2].person_id == successor_person_id);
                    assert forall|p: Text| #[trigger] changed(c, r, p) implies told(
                        r.staffing,
                        c.staffing.len() as int,
                        p,
                    ) by {
                        assert(p == successor_person_id);
                    }
                },
                HeadVacancyModel::Dissolve => {
                    let left = match c.departments[unit].parent_id {
                        Some(parent) => {
                            lemma_rehome_recorded(
                                c,
                                c.people_in(seq![unit]),
                                person,
                                unit,
                                parent,
                                reason,
                                at,
                            );
                            c.rehome(c.people_in(seq![unit]), person, unit, parent, reason, at)
                        },
                        None => c,
                    };
                    assert(recorded(c, left));
                    let cut = left.delete_department(unit);
                    assert(cut.org().people =~= left.org().people);
                    lemma_same_people(left, cut);
                    lemma_recorded_through(c, left, cut);
                    lemma_refreshed(cut, at);
                    let numbered = cut.refresh_department_order(at);
                    lemma_recorded_through(c, cut, numbered);
                    lemma_last_tells(numbered, r, person);
                    lemma_recorded_through(c, numbered, r);
                },
            }
        },
        None => {},
    }
}

proof fn lemma_created_recorded(c: CompanyModel, p: CreateModel, actor: Text)
    ensures
        recorded(c, c.department_created(p, actor)),
{
    let head = p.head.person_id();
    let there = match p.vacates {
        Some(HeadVacancyModel::Dissolve) => c.move_person(head, p.parent_id, p.at),
        _ => c,
    };
    assert(recorded_but(c, there, head));
    let freed = c.head_freed(p);
    if let Some(decision) = p.vacates {
        lemma_vacated_recorded(there, head, decision, p.audit_reason, p.at);
    }
    assert(recorded(there, freed));
    assert forall|x: Text| #[trigger] changed(c, freed, x) implies x == head || told(
        freed.staffing,
        c.staffing.len() as int,
        x,
    ) by {
        if x != head {
            lemma_told_later(c, there, freed, x);
        }
    }
    let unit = freed.insert_department(
        p.department_id,
        p.parent_id,
        p.name,
        p.purpose,
        p.unit,
        head,
        p.at,
    );
    let headed = match p.head {
        HeadDecisionModel::AppointExisting { person_id } => {
            let from = if c.people.dom().contains(person_id) {
                Some(c.people[person_id].department_id)
            } else {
                None
            };
            lemma_last_tells(unit, unit.head_appointed(person_id, from, p), head);
            unit.head_appointed(person_id, from, p)
        },
        HeadDecisionModel::HireNew { person_id, seed } => {
            lemma_seeded_recorded(unit, person_id, p.department_id, seed, p.audit_reason, p.at);
            unit.seeded(person_id, p.department_id, seed, p.audit_reason, p.at)
        },
    };
    assert forall|x: Text| #[trigger] changed(freed, headed, x) implies x == head || told(
        headed.staffing,
        freed.staffing.len() as int,
        x,
    ) by {
        assert(changed(unit, headed, x));
    }
    let i = choose|i: int|
        unit.staffing.len() <= i < headed.staffing.len() && #[trigger] headed.staffing[i].person_id
            == head;
    assert(headed.staffing[i].person_id == head);
    lemma_recorded_but(c, freed, headed, head);
    lemma_seeded_all_recorded(headed, p.staff, p.department_id, p.audit_reason, p.at);
    let staffed = headed.seeded_all(p.staff, p.department_id, p.audit_reason, p.at);
    lemma_recorded_through(c, headed, staffed);
    lemma_refreshed(staffed, p.at);
    let ordered = staffed.refresh_department_order(p.at);
    lemma_recorded_through(c, staffed, ordered);
    lemma_refreshed(ordered, p.at);
    lemma_recorded_through(c, ordered, ordered.refresh_people_order(p.at));
    let all = ordered.refresh_people_order(p.at);
    lemma_same_people(all, all.deduped().emitted(p.at, actor));
    lemma_recorded_through(c, all, c.department_created(p, actor));
}

proof fn lemma_hired_recorded(c: CompanyModel, p: HireModel, actor: Text)
    ensures
        recorded(c, c.hired(p, actor)),
{
    let line = hire_line(p.person_id, p.department_id);
    let there = c.seeded(p.person_id, p.department_id, p.seed, line, p.at);
    lemma_seeded_recorded(c, p.person_id, p.department_id, p.seed, line, p.at);
    lemma_refreshed(there, p.at);
    let ordered = there.refresh_people_order(p.at);
    lemma_recorded_through(c, there, ordered);
    lemma_same_people(ordered, c.hired(p, actor));
    lemma_recorded_through(c, ordered, c.hired(p, actor));
}

proof fn lemma_reparented_recorded(
    c: CompanyModel,
    department: Text,
    parent: Text,
    at: Text,
    actor: Text,
)
    ensures
        recorded(c, c.reparented(department, parent, at, actor)),
{
    let hung = c.set_parent(department, parent, at);
    lemma_same_people(c, hung);
    lemma_refreshed(hung, at);
    let ordered = hung.refresh_department_order(at);
    lemma_recorded_through(c, hung, ordered);
    lemma_refreshed(ordered, at);
    let all = ordered.refresh_people_order(at);
    lemma_recorded_through(c, ordered, all);
    lemma_same_people(all, all.emitted(at, actor));
    lemma_recorded_through(c, all, all.emitted(at, actor));
}

proof fn lemma_transferred_recorded(
    c: CompanyModel,
    person: Text,
    destination: Text,
    intent: Text,
    at: Text,
    actor: Text,
    vacates: Option<HeadVacancyModel>,
)
    ensures
        recorded(c, c.transferred(person, destination, intent, at, actor, vacates)),
{
    let reason = ledger_line("transferred"@, actor);
    lemma_move_all_recorded(c, seq![person], destination, intent, reason, true, at);
    let there = c.move_all(seq![person], destination, intent, reason, true, at);
    assert(seq![person].last() == person);
    lemma_refreshed(there, at);
    let ordered = there.refresh_people_order(at);
    lemma_recorded_through(c, there, ordered);
    let r = c.transferred(person, destination, intent, at, actor, vacates);
    match vacates {
        Some(decision) => {
            lemma_vacated_recorded(ordered, person, decision, reason, at);
            let freed = ordered.vacated(person, decision, reason, at);
            lemma_recorded_through(c, ordered, freed);
            let i = choose|i: int|
                c.staffing.len() <= i < there.staffing.len()
                    && #[trigger] there.staffing[i].person_id == person;
            lemma_number_people(there, there.people_order(), at);
            assert(ordered.staffing[i].person_id == person);
            assert(freed.staffing[i].person_id == person);
            assert(r.staffing == freed.staffing);
            assert(r.staffing[i].person_id == person);
            lemma_recorded_but(c, freed, r, person);
        },
        None => {
            lemma_same_people(ordered, r);
            lemma_recorded_through(c, ordered, r);
        },
    }
}

proof fn lemma_members_moved_recorded(
    c: CompanyModel,
    people: Seq<Text>,
    destination: Text,
    intent: Text,
    at: Text,
    actor: Text,
)
    ensures
        recorded(c, c.members_moved(people, destination, intent, at, actor)),
{
    lemma_move_all_recorded(c, people, destination, intent, intent, false, at);
    let there = c.move_all(people, destination, intent, intent, false, at);
    lemma_refreshed(there, at);
    let ordered = there.refresh_people_order(at);
    lemma_recorded_through(c, there, ordered);
    lemma_same_people(ordered, ordered.emitted(at, actor));
    lemma_recorded_through(c, ordered, ordered.emitted(at, actor));
}

proof fn lemma_removed_recorded(c: CompanyModel, department: Text, at: Text, actor: Text)
    ensures
        recorded(c, c.department_removed(department, at, actor)),
{
    let units = c.subtree_descending(department);
    let people = c.people_in(units);
    let rests = c.departments[department].parent_id->0;
    let reason = "department "@ + department + " removed"@;
    lemma_left_behind_all_recorded(c, people, rests, reason, at);
    let left = c.left_behind_all(people, rests, reason, at);
    lemma_delete_departments(left, units);
    let cut = left.delete_departments(units);
    lemma_same_people(left, cut);
    lemma_recorded_through(c, left, cut);
    lemma_refreshed(cut, at);
    let ordered = cut.refresh_department_order(at);
    lemma_recorded_through(c, cut, ordered);
    lemma_refreshed(ordered, at);
    let all = ordered.refresh_people_order(at);
    lemma_recorded_through(c, ordered, all);
    lemma_same_people(all, c.department_removed(department, at, actor));
    lemma_recorded_through(c, all, c.department_removed(department, at, actor));
}

proof fn lemma_appointed_recorded(
    c: CompanyModel,
    department: Text,
    successor: Text,
    demote_to: Option<Text>,
    at: Text,
    actor: Text,
)
    ensures
        recorded(c, c.appointed(department, successor, demote_to, at, actor)),
{
    let r = c.appointed(department, successor, demote_to, at, actor);
    let n = c.staffing.len() as int;
    assert(r.staffing[n].person_id == successor);
    assert(r.staffing[n + 1].person_id == c.departments[department].head_person_id);
    assert forall|p: Text| #[trigger] changed(c, r, p) implies told(r.staffing, n, p) by {
        assert(p == successor || p == c.departments[department].head_person_id);
    }
}

proof fn lemma_offboarded_recorded(c: CompanyModel, person: Text, at: Text, actor: Text)
    ensures
        recorded(c, c.offboarded(person, at, actor)),
{
    lemma_last_tells(c, c.offboarded(person, at, actor), person);
}

proof fn lemma_head_replaced_recorded(
    c: CompanyModel,
    head: Text,
    successor: Text,
    at: Text,
    actor: Text,
)
    ensures
        recorded(c, c.head_replaced(head, successor, at, actor)),
{
    let r = c.head_replaced(head, successor, at, actor);
    let n = c.staffing.len() as int;
    assert(r.staffing[n].person_id == successor);
    assert(r.staffing[n + 1].person_id == head);
    assert forall|p: Text| #[trigger] changed(c, r, p) implies told(r.staffing, n, p) by {
        assert(p == successor || p == head);
    }
}

proof fn lemma_benched_recorded(c: CompanyModel, person: Text, at: Text, actor: Text)
    ensures
        recorded(c, c.benched(person, at, actor)),
{
    lemma_last_tells(c, c.benched(person, at, actor), person);
}

proof fn lemma_started_recorded(c: CompanyModel, person: Text, at: Text, actor: Text)
    ensures
        recorded(c, c.started(person, at, actor)),
        recorded(c, c.woken(person, at, actor)),
        recorded(c, c.recalled(person, at, actor)),
{
    let r = c.started(person, at, actor);
    if r.staffing.len() > c.staffing.len() {
        lemma_last_tells(c, r, person);
    } else {
        lemma_same_people(c, r);
    }
    let w = c.woken(person, at, actor);
    if w.staffing.len() > c.staffing.len() {
        lemma_last_tells(c, w, person);
    } else {
        lemma_same_people(c, w);
    }
    lemma_last_tells(c, c.recalled(person, at, actor), person);
}

proof fn lemma_ceo_only_people(c: CompanyModel, at: Text, actor: Text)
    ensures
        c.ceo_only(at, actor).people == c.people,
        c.ceo_only(at, actor).departments == c.departments,
        c.ceo_only(at, actor).staffing == c.staffing,
{
    let chief = c.root_head()->0;
    lemma_retract_in(c, listing(c.activity.dom()), chief, at);
    let quiet = c.retract_non_kept(chief, at);
    lemma_clear_fences_in(quiet, listing(quiet.fences.dom()), chief);
}

proof fn lemma_paused_people(c: CompanyModel, department: Text, at: Text, actor: Text)
    ensures
        c.paused(department, at, actor).people == c.people,
        c.paused(department, at, actor).staffing == c.staffing,
{
    let flipped = c.set_department_state(department, UnitState::Paused, at);
    lemma_swept_all(
        flipped,
        flipped.subtree_members(department),
        flipped.root_head(),
        department,
        at,
    );
}

/// Every decision writes the staffing history: whoever is new, moves, changes
/// role, or comes or goes by it is named by an entry that it adds.
pub proof fn law_every_change_is_recorded(c: CompanyModel, d: Decision, at: Text, actor: Text)
    ensures
        recorded(c, c.decided(d, at, actor)),
{
    match d {
        Decision::Create { proposal } => {
            lemma_created_recorded(c, proposal, actor);
        },
        Decision::Hire { newcomer } => {
            lemma_hired_recorded(c, newcomer, actor);
        },
        Decision::Appoint { department, successor, demote_to } => {
            lemma_appointed_recorded(c, department, successor, demote_to, at, actor);
        },
        Decision::Reparent { department, parent } => {
            lemma_reparented_recorded(c, department, parent, at, actor);
        },
        Decision::Transfer { person, destination, intent, vacates } => {
            lemma_transferred_recorded(c, person, destination, intent, at, actor, vacates);
        },
        Decision::MoveMembers { from, destination, named, intent } => {
            lemma_members_moved_recorded(c, c.batch(from, named), destination, intent, at, actor);
        },
        Decision::Offboard { person } => {
            lemma_offboarded_recorded(c, person, at, actor);
        },
        Decision::ReplaceHead { head, successor } => {
            lemma_head_replaced_recorded(c, head, successor, at, actor);
        },
        Decision::RemoveTree { department } => {
            lemma_removed_recorded(c, department, at, actor);
        },
        Decision::Pause { department } => {
            lemma_paused_people(c, department, at, actor);
            lemma_same_people(c, c.paused(department, at, actor));
        },
        Decision::Resume { department } => {
            lemma_same_people(c, c.resumed(department, at, actor));
        },
        Decision::ResumeMany { departments, skip_active } => {
            lemma_resume_all(c, departments, at);
            lemma_same_people(c, c.resume_all(departments, at).emitted(at, actor));
        },
        Decision::Shutdown { person, kind } => {
            lemma_same_people(c, c.shut_down(person, kind, at, actor));
        },
        Decision::Bench { person } => {
            lemma_benched_recorded(c, person, at, actor);
        },
        Decision::BenchLifecycle { person } => {
            let ready = c.park_prepared(person, at, actor);
            lemma_same_people(c, ready);
            lemma_benched_recorded(ready, person, at, actor);
            lemma_recorded_through(c, ready, ready.benched(person, at, actor));
        },
        Decision::Start { person } => {
            lemma_started_recorded(c, person, at, actor);
        },
        Decision::Wake { person } => {
            lemma_started_recorded(c, person, at, actor);
        },
        Decision::Recall { person } => {
            lemma_started_recorded(c, person, at, actor);
        },
        Decision::ReactivateRoot => {
            lemma_same_people(c, c.reactivated(at, actor));
        },
        Decision::CeoOnly => {
            lemma_ceo_only_people(c, at, actor);
            lemma_same_people(c, c.ceo_only(at, actor));
        },
        Decision::PublishLauncherRoot { launcher_root } => {
            lemma_same_people(c, c.launcher_root_published(at, launcher_root));
        },
    }
}

} // verus!
