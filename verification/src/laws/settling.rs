//! What the rows say once somebody has left a headship, a unit has been created,
//! swept or removed.

use vstd::prelude::*;

use crate::company::{
    ActivityModel, CompanyModel, DepartmentModel, PersonModel, StaffingAction, StaffingModel,
    TransitionAction, TransitionModel, TransitionStatus,
};
use crate::laws::chart::{lemma_residents, lemma_subtree};
use crate::laws::frames::{
    lemma_delete_departments, lemma_left_behind_all, lemma_number_departments, lemma_number_people,
    lemma_rehome, lemma_with_last, left_row,
};
use crate::laws::ledger::lemma_open_transition;
use crate::laws::moves::{
    law_what_a_move_writes, lemma_one_moves, lemma_people_shift, lemma_units_shift, let_go,
    other_units_kept, others_kept, shifted, shifted_unit,
};
use crate::laws::outcomes::{gave_way, known_of, lifecycle_kept, line, rest_kept};
use crate::laws::removal::lemma_goes;
use crate::order::{key_lt, lemma_sorted};
use crate::org_ops::decisions::{HeadVacancyModel, StaffModel};
use crate::org_ops::guards::ledger_line;
use crate::org_ops::seeds::SeedModel;
use crate::org_view::{beneath, lemma_those_where, those_where};
use crate::organization::{EmploymentState, PersonKind};
use crate::rows::ledger::transition_id;
use crate::table::{lemma_finite_listing, listing};
use crate::text::Text;

verus! {

// ---------------------------------------------------------------------------
// Leaving a headship
// ---------------------------------------------------------------------------

/// Handing a unit over names the successor its head and makes them one, and says
/// so in the history, with who stepped down. The unit and everybody else stay as
/// they were.
pub proof fn law_what_handing_over_writes(
    c: CompanyModel,
    person: Text,
    unit: Text,
    successor: Text,
    reason: Text,
    at: Text,
)
    requires
        c.headed_by(person) == Some(unit),
        c.departments.dom().contains(unit),
        c.people.dom().contains(successor),
    ensures
        ({
            let decision = HeadVacancyModel::HandOver { successor_person_id: successor };
            let r = c.vacated(person, decision, reason, at);
            &&& r.departments == c.departments.insert(
                unit,
                DepartmentModel {
                    head_person_id: successor,
                    updated_at: at,
                    ..c.departments[unit]
                },
            )
            &&& r.people == c.people.insert(
                successor,
                PersonModel { kind: PersonKind::Head, updated_at: at, ..c.people[successor] },
            )
            &&& r.staffing == c.staffing.push(
                line(
                    successor,
                    StaffingAction::AppointedHead,
                    Some(unit),
                    Some(unit),
                    reason,
                    at,
                ),
            ).push(line(person, StaffingAction::SteppedDown, Some(unit), None, reason, at))
            &&& lifecycle_kept(c, r)
            &&& rest_kept(c, r)
        }),
{
}

/// Whether a line says that somebody came from one unit to another.
pub open spec fn says_moved(
    l: StaffingModel,
    from: Text,
    to: Text,
    reason: Text,
    at: Text,
) -> bool {
    l == line(l.person_id, StaffingAction::Transferred, Some(from), Some(to), reason, at)
}

proof fn lemma_rehome_lines(
    c: CompanyModel,
    residents: Seq<Text>,
    leaver: Text,
    from: Text,
    to: Text,
    reason: Text,
    at: Text,
)
    ensures
        ({
            let r = c.rehome(residents, leaver, from, to, reason, at);
            &&& c.staffing.len() <= r.staffing.len() <= c.staffing.len() + residents.len()
            &&& forall|i: int|
                c.staffing.len() <= i < r.staffing.len() ==> says_moved(
                    #[trigger] r.staffing[i],
                    from,
                    to,
                    reason,
                    at,
                ) && residents.contains(r.staffing[i].person_id) && r.staffing[i].person_id
                    != leaver
        }),
    decreases residents.len(),
{
    if residents.len() > 0 {
        let front = residents.drop_last();
        lemma_rehome_lines(c, front, leaver, from, to, reason, at);
        lemma_rehome(c, front, leaver, from, to, reason, at);
        lemma_with_last(residents);
        let b = c.rehome(front, leaver, from, to, reason, at);
        let r = c.rehome(residents, leaver, from, to, reason, at);
        assert forall|i: int| c.staffing.len() <= i < r.staffing.len() implies says_moved(
            #[trigger] r.staffing[i],
            from,
            to,
            reason,
            at,
        ) && residents.contains(r.staffing[i].person_id) && r.staffing[i].person_id != leaver by {
            if i < b.staffing.len() {
                assert(b.staffing[i] == r.staffing[i]);
            }
        }
    }
}

/// Dissolving a unit deletes it and no other. Whoever is still written in it, but
/// the one who leaves it, comes to its parent; everybody else stays as they were.
/// The history ends with who stepped down.
pub proof fn law_what_dissolving_writes(
    c: CompanyModel,
    person: Text,
    unit: Text,
    parent: Text,
    reason: Text,
    at: Text,
)
    requires
        c.finite(),
        c.headed_by(person) == Some(unit),
        c.departments.dom().contains(unit),
        c.departments[unit].parent_id == Some(parent),
    ensures
        ({
            let r = c.vacated(person, HeadVacancyModel::Dissolve, reason, at);
            &&& r.departments.dom() == c.departments.dom().remove(unit)
            &&& other_units_kept(c, r, set![unit], at)
            &&& r.people.dom() == c.people.dom()
            &&& forall|p: Text| #[trigger]
                c.people.dom().contains(p) ==> r.people[p] == if p != person
                    && c.people[p].department_id == unit {
                    PersonModel {
                        department_id: parent,
                        updated_at: r.people[p].updated_at,
                        ..c.people[p]
                    }
                } else {
                    c.people[p]
                }
            &&& r.staffing.len() > c.staffing.len()
            &&& r.staffing.take(c.staffing.len() as int) == c.staffing
            &&& forall|i: int|
                c.staffing.len() <= i < r.staffing.len() - 1 ==> says_moved(
                    #[trigger] r.staffing[i],
                    unit,
                    parent,
                    reason,
                    at,
                ) && r.staffing[i].person_id != person && c.people.dom().contains(
                    r.staffing[i].person_id,
                ) && c.people[r.staffing[i].person_id].department_id == unit
            &&& r.staffing.last() == line(
                person,
                StaffingAction::SteppedDown,
                Some(unit),
                None,
                reason,
                at,
            )
            &&& lifecycle_kept(c, r)
            &&& rest_kept(c, r)
        }),
{
    let r = c.vacated(person, HeadVacancyModel::Dissolve, reason, at);
    let residents = c.people_in(seq![unit]);
    lemma_residents(c, seq![unit]);
    lemma_rehome(c, residents, person, unit, parent, reason, at);
    let left = c.rehome(residents, person, unit, parent, reason, at);
    let cut = left.delete_department(unit);
    lemma_number_departments(cut, cut.department_order(), at);
    lemma_units_shift(cut, cut.department_order(), at);
    assert(cut.departments.dom() =~= c.departments.dom().remove(unit));
    assert forall|d: Text| #[trigger] c.departments.dom().contains(d) && d != unit implies
        r.departments.dom().contains(d) && shifted_unit(
        c.departments[d],
        r.departments[d],
        at,
    ) by {
        assert(cut.departments.dom().contains(d));
    }
    assert forall|p: Text| #[trigger] c.people.dom().contains(p) implies r.people[p] == if p
        != person && c.people[p].department_id == unit {
        PersonModel { department_id: parent, updated_at: r.people[p].updated_at, ..c.people[p] }
    } else {
        c.people[p]
    } by {
        assert(seq![unit].contains(c.people[p].department_id) <==> c.people[p].department_id
            == unit) by {
            assert(seq![unit][0] == unit);
        }
        assert(residents.contains(p) <==> c.people[p].department_id == unit);
        assert(r.people[p] == left.people[p]);
    }
    assert(r.staffing.take(c.staffing.len() as int) =~= c.staffing);
    lemma_rehome_lines(c, residents, person, unit, parent, reason, at);
    assert forall|i: int| c.staffing.len() <= i < r.staffing.len() - 1 implies says_moved(
        #[trigger] r.staffing[i],
        unit,
        parent,
        reason,
        at,
    ) && r.staffing[i].person_id != person && c.people.dom().contains(r.staffing[i].person_id)
        && c.people[r.staffing[i].person_id].department_id == unit by {
        assert(left.staffing[i] == r.staffing[i]);
        assert(seq![unit].contains(c.people[r.staffing[i].person_id].department_id));
    }
}

/// Whether a transfer of somebody that was released waits for them.
pub open spec fn adopts(c: CompanyModel, person: Text) -> bool {
    c.ready_transition(person, TransitionAction::Transfer) is Some
}

/// A transfer of a head who hands their unit over: they are a worker where they
/// land, the successor heads the unit, and the history says all three.
pub proof fn law_what_a_transfer_that_hands_over_writes(
    c: CompanyModel,
    person: Text,
    destination: Text,
    intent: Text,
    at: Text,
    actor: Text,
    unit: Text,
    successor: Text,
)
    requires
        c.finite(),
        c.people.dom().contains(person),
        c.people.dom().contains(successor),
        successor != person,
        c.headed_by(person) == Some(unit),
        c.departments.dom().contains(unit),
    ensures
        ({
            let decision = HeadVacancyModel::HandOver { successor_person_id: successor };
            let r = c.transferred(person, destination, intent, at, actor, Some(decision));
            let reason = ledger_line("transferred"@, actor);
            &&& r.departments == c.departments.insert(
                unit,
                DepartmentModel {
                    head_person_id: successor,
                    updated_at: at,
                    ..c.departments[unit]
                },
            )
            &&& r.people.dom() == c.people.dom()
            &&& r.people[person] == PersonModel {
                kind: PersonKind::Worker,
                department_id: destination,
                ordinal: r.people[person].ordinal,
                updated_at: at,
                ..c.people[person]
            }
            &&& r.people[successor] == PersonModel {
                kind: PersonKind::Head,
                ordinal: r.people[successor].ordinal,
                updated_at: at,
                ..c.people[successor]
            }
            &&& others_kept(c, r, set![person, successor], at)
            &&& r.staffing == c.staffing.push(
                line(
                    person,
                    StaffingAction::Transferred,
                    Some(c.people[person].department_id),
                    Some(destination),
                    reason,
                    at,
                ),
            ).push(
                line(
                    successor,
                    StaffingAction::AppointedHead,
                    Some(unit),
                    Some(unit),
                    reason,
                    at,
                ),
            ).push(line(person, StaffingAction::SteppedDown, Some(unit), None, reason, at))
            &&& adopts(c, person) ==> r.transitions == c.transitions && r.activity == c.activity
            &&& !adopts(c, person) ==> r.transitions.dom() == c.transitions.dom() && gave_way(
                c,
                r,
                person,
                "superseded-by-transfer:"@ + intent,
                at,
            ) && let_go(c, r, person, at)
            &&& r.fences.dom() == c.fences.dom()
            &&& r.transition_seq == c.transition_seq
            &&& rest_kept(c, r)
        }),
{
    let decision = HeadVacancyModel::HandOver { successor_person_id: successor };
    let r = c.transferred(person, destination, intent, at, actor, Some(decision));
    let moved = lemma_moved_first(c, person, destination, intent, at, actor);
    law_what_handing_over_writes(
        moved,
        person,
        unit,
        successor,
        ledger_line("transferred"@, actor),
        at,
    );
    assert(r.people.dom() =~= c.people.dom());
    assert forall|p: Text| #[trigger]
        c.people.dom().contains(p) && !set![person, successor].contains(
            p,
        ) implies r.people.dom().contains(p) && shifted(c.people[p], r.people[p], at) by {
        assert(moved.people.dom().contains(p));
    }
}

/// What a transfer has made of the rows before the headship is settled.
proof fn lemma_moved_first(
    c: CompanyModel,
    person: Text,
    destination: Text,
    intent: Text,
    at: Text,
    actor: Text,
) -> (moved: CompanyModel)
    requires
        c.finite(),
        c.people.dom().contains(person),
    ensures
        moved == c.move_all(
            seq![person],
            destination,
            intent,
            ledger_line("transferred"@, actor),
            true,
            at,
        ).refresh_people_order(at),
        moved.finite(),
        moved.departments == c.departments,
        moved.headed_by(person) == c.headed_by(person),
        moved.people.dom() == c.people.dom(),
        moved.people[person] == (PersonModel {
            department_id: destination,
            ordinal: moved.people[person].ordinal,
            updated_at: at,
            ..c.people[person]
        }),
        forall|p: Text| #[trigger]
            c.people.dom().contains(p) && p != person ==> shifted(
                c.people[p],
                moved.people[p],
                at,
            ),
        moved.staffing == c.staffing.push(
            line(
                person,
                StaffingAction::Transferred,
                Some(c.people[person].department_id),
                Some(destination),
                ledger_line("transferred"@, actor),
                at,
            ),
        ),
        adopts(c, person) ==> moved.transitions == c.transitions && moved.activity == c.activity,
        !adopts(c, person) ==> moved.transitions.dom() == c.transitions.dom() && gave_way(
            c,
            moved,
            person,
            "superseded-by-transfer:"@ + intent,
            at,
        ) && let_go(c, moved, person, at),
        moved.fences == c.fences,
        moved.transition_seq == c.transition_seq,
        moved.quiesce_since == c.quiesce_since,
        rest_kept(c, moved),
{
    let reason = ledger_line("transferred"@, actor);
    law_what_a_move_writes(c, person, destination, intent, reason, true, at);
    lemma_one_moves(c, person, destination, intent, reason, true, at);
    let there = c.move_one(person, destination, intent, reason, true, at);
    lemma_number_people(there, there.people_order(), at);
    lemma_people_shift(there, there.people_order(), at);
    let moved = there.refresh_people_order(at);
    assert(there.people.dom() =~= c.people.dom());
    assert(there.people.dom().contains(person));
    assert forall|p: Text| #[trigger] c.people.dom().contains(p) && p != person implies shifted(
        c.people[p],
        moved.people[p],
        at,
    ) by {
        assert(there.people.dom().contains(p));
    }
    assert(moved.org().departments =~= c.org().departments);
    moved
}

/// A transfer of a head whose unit is dissolved: they are a worker where they
/// land, the unit is gone and no other, and whoever rested in it is written in its
/// parent.
pub proof fn law_what_a_transfer_that_dissolves_writes(
    c: CompanyModel,
    person: Text,
    destination: Text,
    intent: Text,
    at: Text,
    actor: Text,
    unit: Text,
    parent: Text,
)
    requires
        c.finite(),
        c.people.dom().contains(person),
        c.headed_by(person) == Some(unit),
        c.departments.dom().contains(unit),
        c.departments[unit].parent_id == Some(parent),
    ensures
        ({
            let r = c.transferred(
                person,
                destination,
                intent,
                at,
                actor,
                Some(HeadVacancyModel::Dissolve),
            );
            &&& r.departments.dom() == c.departments.dom().remove(unit)
            &&& other_units_kept(c, r, set![unit], at)
            &&& r.people.dom() == c.people.dom()
            &&& r.people[person] == PersonModel {
                kind: PersonKind::Worker,
                department_id: destination,
                ordinal: r.people[person].ordinal,
                updated_at: at,
                ..c.people[person]
            }
            &&& forall|p: Text| #[trigger]
                c.people.dom().contains(p) && p != person ==> r.people[p] == PersonModel {
                    department_id: if c.people[p].department_id == unit {
                        parent
                    } else {
                        c.people[p].department_id
                    },
                    ordinal: r.people[p].ordinal,
                    updated_at: r.people[p].updated_at,
                    ..c.people[p]
                }
            &&& r.staffing.take(c.staffing.len() as int) == c.staffing
            &&& r.staffing[c.staffing.len() as int] == line(
                person,
                StaffingAction::Transferred,
                Some(c.people[person].department_id),
                Some(destination),
                ledger_line("transferred"@, actor),
                at,
            )
            &&& r.staffing.last() == line(
                person,
                StaffingAction::SteppedDown,
                Some(unit),
                None,
                ledger_line("transferred"@, actor),
                at,
            )
            &&& adopts(c, person) ==> r.transitions == c.transitions && r.activity == c.activity
            &&& !adopts(c, person) ==> r.transitions.dom() == c.transitions.dom() && gave_way(
                c,
                r,
                person,
                "superseded-by-transfer:"@ + intent,
                at,
            ) && let_go(c, r, person, at)
            &&& r.fences.dom() == c.fences.dom()
            &&& r.transition_seq == c.transition_seq
            &&& rest_kept(c, r)
        }),
{
    let reason = ledger_line("transferred"@, actor);
    let r = c.transferred(
        person,
        destination,
        intent,
        at,
        actor,
        Some(HeadVacancyModel::Dissolve),
    );
    let moved = lemma_moved_first(c, person, destination, intent, at, actor);
    law_what_dissolving_writes(moved, person, unit, parent, reason, at);
    let gone = moved.vacated(person, HeadVacancyModel::Dissolve, reason, at);
    assert(r.people.dom() =~= c.people.dom());
    assert(moved.people.dom().contains(person));
    assert forall|p: Text| #[trigger] c.people.dom().contains(p) && p != person implies r.people[p]
        == (PersonModel {
        department_id: if c.people[p].department_id == unit {
            parent
        } else {
            c.people[p].department_id
        },
        ordinal: r.people[p].ordinal,
        updated_at: r.people[p].updated_at,
        ..c.people[p]
    }) by {
        assert(moved.people.dom().contains(p));
    }
    let n = c.staffing.len() as int;
    assert(gone.staffing.take(n + 1) == moved.staffing);
    assert(r.staffing.take(n) =~= c.staffing) by {
        assert forall|i: int| 0 <= i < n implies r.staffing[i] == c.staffing[i] by {
            assert(gone.staffing.take(n + 1)[i] == moved.staffing[i]);
        }
    }
    assert(gone.staffing.take(n + 1)[n] == moved.staffing[n]);
    assert forall|d: Text| #[trigger] c.departments.dom().contains(d) && !set![unit].contains(
        d,
    ) implies r.departments.dom().contains(d) && shifted_unit(
        c.departments[d],
        r.departments[d],
        at,
    ) by {
        assert(moved.departments.dom().contains(d));
    }
}

// ---------------------------------------------------------------------------
// Coming to a new unit
// ---------------------------------------------------------------------------

/// The row a seed makes of somebody.
pub open spec fn row_of(seed: SeedModel, home: Text, ordinal: u64, at: Text) -> PersonModel {
    PersonModel {
        name: seed.name,
        title: seed.title,
        mandate: seed.mandate,
        kind: seed.kind,
        employment_state: seed.employment_state,
        department_id: home,
        activation: seed.activation,
        tools: seed.tools,
        prompts: seed.prompts,
        ordinal,
        created_at: at,
        updated_at: at,
    }
}

/// Whether somebody on a roster comes at work.
pub open spec fn comes_up(staff: Seq<StaffModel>, p: Text) -> bool {
    exists|k: int|
        0 <= k < staff.len() && (#[trigger] staff[k]).person_id == p
            && staff[k].seed.employment_state == EmploymentState::Active
}

/// Whether a roster names nobody twice.
pub open spec fn distinct(staff: Seq<StaffModel>) -> bool {
    forall|i: int, j: int|
        0 <= i < j < staff.len() ==> (#[trigger] staff[i]).person_id != (
        #[trigger] staff[j]).person_id
}

/// Whether somebody is on a roster.
pub open spec fn on_roster(staff: Seq<StaffModel>, q: Text) -> bool {
    exists|k: int| 0 <= k < staff.len() && (#[trigger] staff[k]).person_id == q
}

/// Seeding a roster writes a row, an activity and a line of history for each on
/// it, and for those who come at work that they are to be started, unless the
/// company is stood down.
pub proof fn law_what_a_roster_writes(
    c: CompanyModel,
    staff: Seq<StaffModel>,
    department: Text,
    reason: Text,
    at: Text,
)
    requires
        distinct(staff),
    ensures
        ({
            let r = c.seeded_all(staff, department, reason, at);
            &&& r.departments == c.departments
            &&& forall|k: int|
                0 <= k < staff.len() ==> r.people.dom().contains((#[trigger] staff[k]).person_id)
                    && r.people[staff[k].person_id] == row_of(
                    staff[k].seed,
                    department,
                    r.people[staff[k].person_id].ordinal,
                    at,
                ) && r.activity.dom().contains(staff[k].person_id)
                    && !r.activity[staff[k].person_id].last_desired_active
                    && r.activity[staff[k].person_id].active_transition_id is None
            &&& forall|p: Text|
                !on_roster(staff, p) ==> (#[trigger] r.people.dom().contains(p) <==> c.people.dom().contains(
                    p,
                )) && r.people[p] == c.people[p]
            &&& r.staffing.len() == c.staffing.len() + staff.len()
            &&& forall|i: int|
                0 <= i < c.staffing.len() ==> #[trigger] r.staffing[i] == c.staffing[i]
            &&& forall|k: int|
                0 <= k < staff.len() ==> #[trigger] r.staffing[c.staffing.len() + k] == line(
                    staff[k].person_id,
                    StaffingAction::Hired,
                    None,
                    Some(department),
                    reason,
                    at,
                )
            &&& forall|p: Text| #[trigger]
                r.fences.dom().contains(p) <==> c.fences.dom().contains(p) || (!c.stood_down
                    && comes_up(staff, p))
            &&& r.transitions == c.transitions
            &&& r.transition_seq == c.transition_seq
            &&& r.quiesce_since == c.quiesce_since
            &&& rest_kept(c, r)
        }),
    decreases staff.len(),
{
    let r = c.seeded_all(staff, department, reason, at);
    if staff.len() > 0 {
        let front = staff.drop_last();
        let x = staff.last();
        let b = c.seeded_all(front, department, reason, at);
        assert(distinct(front)) by {
            assert forall|i: int, j: int| 0 <= i < j < front.len() implies (
            #[trigger] front[i]).person_id != (#[trigger] front[j]).person_id by {
                assert(staff[i].person_id != staff[j].person_id);
            }
        }
        law_what_a_roster_writes(c, front, department, reason, at);
        let n = staff.len() - 1;
        assert forall|k: int| 0 <= k < staff.len() implies r.people.dom().contains(
            (#[trigger] staff[k]).person_id,
        ) && r.people[staff[k].person_id] == row_of(
            staff[k].seed,
            department,
            r.people[staff[k].person_id].ordinal,
            at,
        ) && r.activity.dom().contains(staff[k].person_id)
            && !r.activity[staff[k].person_id].last_desired_active
            && r.activity[staff[k].person_id].active_transition_id is None by {
            if k < n {
                assert(front[k] == staff[k]);
                assert(staff[k].person_id != staff[n].person_id);
                assert(b.people.dom().contains(front[k].person_id));
            }
        }
        assert forall|p: Text| !on_roster(staff, p) implies (
        #[trigger] r.people.dom().contains(p) <==> c.people.dom().contains(p)) && r.people[p]
            == c.people[p] by {
            assert(staff[n].person_id != p);
            assert(!on_roster(front, p)) by {
                if on_roster(front, p) {
                    let k = choose|k: int|
                        0 <= k < front.len() && (#[trigger] front[k]).person_id == p;
                    assert(staff[k].person_id == p);
                }
            }
            assert(b.people.dom().contains(p) <==> c.people.dom().contains(p));
        }
        assert forall|k: int| 0 <= k < staff.len() implies #[trigger] r.staffing[c.staffing.len()
            + k] == line(
            staff[k].person_id,
            StaffingAction::Hired,
            None,
            Some(department),
            reason,
            at,
        ) by {
            if k < n {
                assert(front[k] == staff[k]);
                assert(b.staffing[c.staffing.len() + k] == r.staffing[c.staffing.len() + k]);
            }
        }
        assert forall|i: int| 0 <= i < c.staffing.len() implies #[trigger] r.staffing[i]
            == c.staffing[i] by {
            assert(b.staffing[i] == c.staffing[i]);
        }
        assert forall|p: Text| #[trigger] r.fences.dom().contains(p) <==> c.fences.dom().contains(p)
            || (!c.stood_down && comes_up(staff, p)) by {
            assert(b.fences.dom().contains(p) <==> c.fences.dom().contains(p) || (!c.stood_down
                && comes_up(front, p)));
            if comes_up(front, p) {
                let k = choose|k: int|
                    0 <= k < front.len() && (#[trigger] front[k]).person_id == p
                        && front[k].seed.employment_state == EmploymentState::Active;
                assert(staff[k].person_id == p);
                assert(comes_up(staff, p));
            }
            if comes_up(staff, p) {
                let k = choose|k: int|
                    0 <= k < staff.len() && (#[trigger] staff[k]).person_id == p
                        && staff[k].seed.employment_state == EmploymentState::Active;
                if k < n {
                    assert(front[k].person_id == p);
                    assert(comes_up(front, p));
                }
            }
            if p == x.person_id && x.seed.employment_state == EmploymentState::Active {
                assert(staff[n].person_id == p);
                assert(comes_up(staff, p));
            }
        }
    } else {
        assert forall|p: Text| !comes_up(staff, p) by {}
    }
}

// ---------------------------------------------------------------------------
// Sweeping and removing
// ---------------------------------------------------------------------------

/// Stopping a unit under somebody who is employed: their open transition gives way
/// and they are not to be started. Who was wanted up or had something open has a
/// park written that says the unit was stopped; who was only to be started, one
/// that nobody released. Of whom nothing was known or decided nothing is written.
pub proof fn law_what_a_sweep_writes(
    c: CompanyModel,
    member: Text,
    department: Text,
    at: Text,
)
    requires
        c.finite(),
        c.people.dom().contains(member),
        c.transition_seq < u64::MAX,
        !c.transitions.dom().contains(
            transition_id((c.transition_seq + 1) as nat, member, TransitionAction::Park),
        ),
    ensures
        ({
            let r = c.swept(member, department, at);
            let row = c.people[member];
            let employed = row.employment_state == EmploymentState::Active || row.employment_state
                == EmploymentState::Benched;
            let id = transition_id((c.transition_seq + 1) as nat, member, TransitionAction::Park);
            let up = (c.activity.dom().contains(member) && c.activity[member].last_desired_active)
                || c.open_transition(member) is Some;
            let waits = !up && c.fences.dom().contains(member);
            let marker = "superseded-by-pause:"@ + department;
            &&& r.departments == c.departments
            &&& r.people == c.people
            &&& r.staffing == c.staffing
            &&& r.fences.dom() == c.fences.dom().remove(member)
            &&& gave_way(c, r, member, marker, at)
            &&& employed && (up || waits) ==> r.transitions.dom() == c.transitions.dom().insert(id)
                && r.transition_seq == c.transition_seq + 1 && r.transitions[id]
                == TransitionModel {
                person_id: member,
                action: TransitionAction::Park,
                status: TransitionStatus::Cancelled,
                intent_id: if up {
                    Some("unit-stop:"@ + department + ":"@ + id)
                } else {
                    None
                },
                reason: if up {
                    marker
                } else {
                    "paused "@ + member + " with department "@ + department
                },
                placement_department_id: Some(row.department_id),
                requested_at: at,
                handoff_deadline_at: Some(at),
                applied_at: None,
                cancelled_at: Some(at),
                abandoned_at: if up {
                    None
                } else {
                    Some(at)
                },
            }
            &&& !employed || !(up || waits) ==> r.transitions.dom() == c.transitions.dom()
                && r.transition_seq == c.transition_seq
            &&& employed && (c.activity.dom().contains(member) || up || waits) ==> r.activity
                == c.activity.insert(
                member,
                ActivityModel {
                    last_desired_active: false,
                    last_operational: false,
                    last_department_id: Some(row.department_id),
                    last_employment_state: Some(row.employment_state),
                    active_transition_id: None,
                    updated_at: at,
                    ..known_of(c, member)
                },
            )
            &&& !employed ==> let_go(c, r, member, at)
            &&& employed && !c.activity.dom().contains(member) && !up && !waits ==> r.activity
                == c.activity
            &&& r.quiesce_since == c.quiesce_since
            &&& rest_kept(c, r)
        }),
{
    let r = c.swept(member, department, at);
    let id = transition_id((c.transition_seq + 1) as nat, member, TransitionAction::Park);
    lemma_open_transition(c, member);
    let quiet = c.supersede_open_transition(
        member,
        "superseded-by-pause:"@ + department,
        at,
    ).delete_fence(member);
    assert(quiet.transitions.dom() =~= c.transitions.dom());
    assert(quiet.activity.dom() =~= c.activity.dom());
    assert(quiet.fences.dom() =~= c.fences.dom().remove(member));
    assert(r.activity =~= c.activity.insert(member, r.activity[member])
        || r.activity =~= quiet.activity);
}

/// Leaving with a unit that is removed writes somebody departed and at rest in
/// another, a head among them a worker, with one line of history that names the
/// unit they were in. They are neither to be started nor wanted up, and what they
/// had open gives way.
pub proof fn law_what_leaving_with_a_unit_writes(
    c: CompanyModel,
    person: Text,
    rests: Text,
    reason: Text,
    at: Text,
)
    requires
        c.finite(),
        c.people.dom().contains(person),
    ensures
        ({
            let r = c.left_behind(person, rests, reason, at);
            let row = c.people[person];
            &&& r.departments == c.departments
            &&& r.people == c.people.insert(
                person,
                PersonModel {
                    kind: if row.kind == PersonKind::Head {
                        PersonKind::Worker
                    } else {
                        row.kind
                    },
                    employment_state: EmploymentState::Departed,
                    department_id: rests,
                    updated_at: at,
                    ..row
                },
            )
            &&& r.staffing == c.staffing.push(
                line(
                    person,
                    StaffingAction::Offboarded,
                    Some(row.department_id),
                    None,
                    reason,
                    at,
                ),
            )
            &&& r.fences.dom() == c.fences.dom().remove(person)
            &&& r.transitions.dom() == c.transitions.dom()
            &&& gave_way(
                c,
                r,
                person,
                "superseded-by-department-removal:"@ + row.department_id,
                at,
            )
            &&& r.activity == c.activity.insert(
                person,
                ActivityModel {
                    last_desired_active: false,
                    active_transition_id: None,
                    updated_at: at,
                    ..known_of(c, person)
                },
            )
            &&& r.transition_seq == c.transition_seq
            &&& r.quiesce_since == c.quiesce_since
            &&& rest_kept(c, r)
        }),
{
    let r = c.left_behind(person, rests, reason, at);
    let free = c.delete_fence(person);
    lemma_open_transition(c, person);
    assert(free.open_transition(person) == c.open_transition(person));
    assert(r.transitions.dom() =~= c.transitions.dom());
    assert(r.people =~= c.people.insert(person, r.people[person]));
    assert(r.activity =~= c.activity.insert(person, r.activity[person]));
    assert(r.fences.dom() =~= c.fences.dom().remove(person));
}

/// Removing a unit leaves everybody's row as it was but for what leaving writes of
/// those who were in it or beneath it, and places; and every unit that stays.
pub proof fn law_what_removing_writes(c: CompanyModel, department: Text, at: Text, actor: Text)
    requires
        c.finite(),
        c.departments.dom().contains(department),
        c.departments[department].parent_id is Some,
    ensures
        ({
            let r = c.department_removed(department, at, actor);
            let m = c.org().departments;
            let rests = c.departments[department].parent_id->0;
            &&& forall|d: Text| #[trigger]
                r.departments.dom().contains(d) <==> c.departments.dom().contains(d) && !beneath(
                    m,
                    d,
                    department,
                )
            &&& forall|d: Text| #[trigger]
                r.departments.dom().contains(d) ==> shifted_unit(
                    c.departments[d],
                    r.departments[d],
                    at,
                )
            &&& r.people.dom() == c.people.dom()
            &&& forall|p: Text| #[trigger]
                c.people.dom().contains(p) ==> if beneath(
                    m,
                    c.people[p].department_id,
                    department,
                ) {
                    r.people[p] == PersonModel {
                        kind: if c.people[p].kind == PersonKind::Head {
                            PersonKind::Worker
                        } else {
                            c.people[p].kind
                        },
                        employment_state: EmploymentState::Departed,
                        department_id: rests,
                        ordinal: r.people[p].ordinal,
                        updated_at: r.people[p].updated_at,
                        ..c.people[p]
                    }
                } else {
                    shifted(c.people[p], r.people[p], at)
                }
            &&& r.transition_seq == c.transition_seq
            &&& rest_kept(c, r)
        }),
{
    let units = c.subtree_descending(department);
    let people = c.people_in(units);
    let rests = c.departments[department].parent_id->0;
    let reason = "department "@ + department + " removed"@;
    let r = c.department_removed(department, at, actor);
    lemma_subtree(c, department);
    lemma_residents(c, units);
    lemma_left_behind_all(c, people, rests, reason, at);
    let left = c.left_behind_all(people, rests, reason, at);
    lemma_delete_departments(left, units);
    let cut = left.delete_departments(units);
    lemma_number_departments(cut, cut.department_order(), at);
    lemma_units_shift(cut, cut.department_order(), at);
    let ordered = cut.refresh_department_order(at);
    lemma_number_people(ordered, ordered.people_order(), at);
    lemma_people_shift(ordered, ordered.people_order(), at);
    assert forall|d: Text| #[trigger] r.departments.dom().contains(d) implies shifted_unit(
        c.departments[d],
        r.departments[d],
        at,
    ) by {
        assert(cut.departments.dom().contains(d));
        assert(cut.departments[d] == left.departments[d]);
    }
    assert forall|p: Text| #[trigger] c.people.dom().contains(p) implies if beneath(
        c.org().departments,
        c.people[p].department_id,
        department,
    ) {
        r.people[p] == (PersonModel {
            kind: if c.people[p].kind == PersonKind::Head {
                PersonKind::Worker
            } else {
                c.people[p].kind
            },
            employment_state: EmploymentState::Departed,
            department_id: rests,
            ordinal: r.people[p].ordinal,
            updated_at: r.people[p].updated_at,
            ..c.people[p]
        })
    } else {
        shifted(c.people[p], r.people[p], at)
    } by {
        assert(ordered.people.dom().contains(p));
        if beneath(c.org().departments, c.people[p].department_id, department) {
            lemma_goes(c, department, p);
            assert(left_row(c.people[p], left.people[p], rests));
        } else {
            assert(!units.contains(c.people[p].department_id));
            assert(!people.contains(p));
        }
    }
}

proof fn lemma_left_lines(
    c: CompanyModel,
    people: Seq<Text>,
    rests: Text,
    reason: Text,
    at: Text,
)
    requires
        people.no_duplicates(),
        forall|i: int| 0 <= i < people.len() ==> c.people.dom().contains(#[trigger] people[i]),
    ensures
        ({
            let r = c.left_behind_all(people, rests, reason, at);
            &&& r.staffing.len() == c.staffing.len() + people.len()
            &&& forall|i: int|
                0 <= i < c.staffing.len() ==> #[trigger] r.staffing[i] == c.staffing[i]
            &&& forall|i: int|
                0 <= i < people.len() ==> #[trigger] r.staffing[c.staffing.len() + i] == line(
                    people[i],
                    StaffingAction::Offboarded,
                    Some(c.people[people[i]].department_id),
                    None,
                    reason,
                    at,
                )
        }),
    decreases people.len(),
{
    if people.len() > 0 {
        let front = people.drop_last();
        let who = people.last();
        let b = c.left_behind_all(front, rests, reason, at);
        let r = c.left_behind_all(people, rests, reason, at);
        assert forall|i: int| 0 <= i < front.len() implies c.people.dom().contains(
            #[trigger] front[i],
        ) by {
            assert(front[i] == people[i]);
        }
        lemma_left_lines(c, front, rests, reason, at);
        lemma_left_behind_all(c, front, rests, reason, at);
        assert(people[people.len() - 1] == who);
        assert(c.people.dom().contains(who));
        assert(!front.contains(who)) by {
            if front.contains(who) {
                let i = choose|i: int| 0 <= i < front.len() && front[i] == who;
                assert(people[i] == people[people.len() - 1]);
            }
        }
        assert(b.people[who] == c.people[who]);
        assert(r.staffing == b.staffing.push(
            line(
                who,
                StaffingAction::Offboarded,
                Some(c.people[who].department_id),
                None,
                reason,
                at,
            ),
        )) by {
            let f = b.delete_fence(who);
            let marker = "superseded-by-department-removal:"@ + b.people[who].department_id;
            assert(f.supersede_open_transition(who, marker, at).staffing == b.staffing);
        }
        assert forall|i: int| 0 <= i < people.len() implies #[trigger] r.staffing[c.staffing.len()
            + i] == line(
            people[i],
            StaffingAction::Offboarded,
            Some(c.people[people[i]].department_id),
            None,
            reason,
            at,
        ) by {
            if i < front.len() {
                assert(front[i] == people[i]);
                assert(b.staffing[c.staffing.len() + i] == r.staffing[c.staffing.len() + i]);
            }
        }
        assert forall|i: int| 0 <= i < c.staffing.len() implies #[trigger] r.staffing[i]
            == c.staffing[i] by {
            assert(b.staffing[i] == c.staffing[i]);
        }
    }
}

/// Removing a unit adds one line of history for each who leaves with it, in the
/// order of their places, that says which unit they were in and why they left.
pub proof fn law_what_removing_tells_the_history(
    c: CompanyModel,
    department: Text,
    at: Text,
    actor: Text,
)
    requires
        c.finite(),
    ensures
        ({
            let r = c.department_removed(department, at, actor);
            let people = c.people_in(c.subtree_descending(department));
            &&& people.no_duplicates()
            &&& r.staffing.len() == c.staffing.len() + people.len()
            &&& r.staffing.take(c.staffing.len() as int) == c.staffing
            &&& forall|i: int|
                0 <= i < people.len() ==> #[trigger] r.staffing[c.staffing.len() + i] == line(
                    people[i],
                    StaffingAction::Offboarded,
                    Some(c.people[people[i]].department_id),
                    None,
                    "department "@ + department + " removed"@,
                    at,
                )
            &&& forall|i: int, j: int|
                0 <= i < j < people.len() ==> c.people[#[trigger] people[i]].ordinal
                    <= c.people[#[trigger] people[j]].ordinal
        }),
{
    let units = c.subtree_descending(department);
    let people = c.people_in(units);
    let rests = c.departments[department].parent_id->0;
    let reason = "department "@ + department + " removed"@;
    let r = c.department_removed(department, at, actor);
    lemma_roster_order(c, units);
    lemma_residents(c, units);
    assert forall|i: int| 0 <= i < people.len() implies c.people.dom().contains(
        #[trigger] people[i],
    ) by {
        assert(people.contains(people[i]));
    }
    lemma_left_lines(c, people, rests, reason, at);
    let left = c.left_behind_all(people, rests, reason, at);
    lemma_delete_departments(left, units);
    let cut = left.delete_departments(units);
    lemma_number_departments(cut, cut.department_order(), at);
    let ordered = cut.refresh_department_order(at);
    lemma_number_people(ordered, ordered.people_order(), at);
    assert(r.staffing == left.staffing);
    assert(r.staffing.take(c.staffing.len() as int) =~= c.staffing);
}

/// Those of a list keep the list's order.
proof fn lemma_kept_in_order(c: CompanyModel, q: Seq<Text>, p: spec_fn(Text) -> bool)
    requires
        forall|i: int, j: int|
            0 <= i < j < q.len() ==> c.people[#[trigger] q[i]].ordinal
                <= c.people[#[trigger] q[j]].ordinal,
    ensures
        ({
            let r = those_where(q, p);
            forall|i: int, j: int|
                0 <= i < j < r.len() ==> c.people[#[trigger] r[i]].ordinal
                    <= c.people[#[trigger] r[j]].ordinal
        }),
    decreases q.len(),
{
    if q.len() > 0 {
        let front = q.drop_last();
        assert forall|i: int, j: int| 0 <= i < j < front.len() implies c.people[
        #[trigger] front[i]].ordinal <= c.people[#[trigger] front[j]].ordinal by {
            assert(front[i] == q[i] && front[j] == q[j]);
        }
        lemma_kept_in_order(c, front, p);
        lemma_those_where(front, p);
        let a = those_where(front, p);
        let r = those_where(q, p);
        assert forall|i: int, j: int| 0 <= i < j < r.len() implies c.people[#[trigger] r[i]].ordinal
            <= c.people[#[trigger] r[j]].ordinal by {
            assert(a[i] == r[i]);
            if p(q.last()) && j == r.len() - 1 {
                assert(a.contains(a[i]));
                let k = choose|k: int| 0 <= k < front.len() && front[k] == a[i];
                assert(q[k] == a[i]);
                assert(q[q.len() - 1] == r[j]);
            } else {
                assert(a[j] == r[j]);
            }
        }
    }
}

proof fn lemma_roster_order(c: CompanyModel, units: Seq<Text>)
    requires
        c.finite(),
    ensures
        c.people_in(units).no_duplicates(),
        forall|i: int, j: int|
            0 <= i < j < c.people_in(units).len() ==> c.people[
            #[trigger] c.people_in(units)[i]].ordinal <= c.people[
            #[trigger] c.people_in(units)[j]].ordinal,
{
    let key = |p: Text| seq![c.people[p].ordinal];
    let q = c.roster();
    lemma_finite_listing(c.people.dom());
    lemma_sorted(listing(c.people.dom()), key);
    assert forall|i: int, j: int| 0 <= i < j < q.len() implies c.people[#[trigger] q[i]].ordinal
        <= c.people[#[trigger] q[j]].ordinal by {
        assert(!key_lt(key(q[j]), key(q[i])));
        let a = key(q[i]);
        let b = key(q[j]);
        assert(a[0] == c.people[q[i]].ordinal && b[0] == c.people[q[j]].ordinal);
        reveal_with_fuel(key_lt, 2);
    }
    let f = |p: Text| units.contains(c.people[p].department_id);
    lemma_those_where(q, f);
    lemma_kept_in_order(c, q, f);
    assert(c.people_in(units) == those_where(q, f));
}

// ---------------------------------------------------------------------------
// Who is in a list
// ---------------------------------------------------------------------------

/// Who is swept with a unit is everybody in it or beneath it, whoever they are;
/// who is moved where nobody is named is everybody employed in it, on the bench or
/// not, but its head; who is in a set of units is everybody there; and what goes
/// with a unit is every unit beneath it.
pub proof fn law_who_is_listed(c: CompanyModel, department: Text, units: Seq<Text>, p: Text)
    requires
        c.finite(),
    ensures
        c.subtree_members(department).contains(p) <==> c.people.dom().contains(p) && beneath(
            c.org().departments,
            c.people[p].department_id,
            department,
        ),
        c.ordinary_members(department).contains(p) <==> c.people.dom().contains(p)
            && c.people[p].department_id == department && (c.people[p].employment_state
            == EmploymentState::Active || c.people[p].employment_state == EmploymentState::Benched)
            && !(c.departments.dom().contains(department)
            && c.departments[department].head_person_id == p),
        c.people_in(units).contains(p) <==> c.people.dom().contains(p) && units.contains(
            c.people[p].department_id,
        ),
        c.subtree_descending(department).contains(p) <==> c.departments.dom().contains(p)
            && beneath(c.org().departments, p, department),
        c.subtree_descending(department).no_duplicates(),
        c.batch(department, Seq::empty()) == c.ordinary_members(department),
        units.len() > 0 ==> c.batch(department, units) == units,
{
    lemma_subtree(c, department);
    lemma_finite_listing(c.people.dom());
    lemma_sorted(listing(c.people.dom()), |p: Text| seq![c.people[p].ordinal]);
    lemma_those_where(
        c.roster(),
        |p: Text| beneath(c.org().departments, c.people[p].department_id, department),
    );
    lemma_those_where(
        c.roster(),
        |p: Text|
            c.people[p].department_id == department && c.people[p].employment_state
                != EmploymentState::Departed && !(c.departments.dom().contains(department)
                && c.departments[department].head_person_id == p),
    );
    lemma_those_where(c.roster(), |p: Text| units.contains(c.people[p].department_id));
}

// ---------------------------------------------------------------------------
// Readying a park
// ---------------------------------------------------------------------------

/// A bench by way of the lifecycle readies a park that nobody waits for, under the
/// next number, where the person last was; or keeps the one that stands ready.
/// Whether they are wanted up is left for the bench to say. It fails only where
/// another transition is open, its id is taken, or there is nothing to read.
pub proof fn law_what_readying_a_park_writes(
    c: CompanyModel,
    person: Text,
    at: Text,
    actor: Text,
)
    requires
        c.transition_seq < u64::MAX,
    ensures
        ({
            let r = c.park_prepared(person, at, actor);
            let ready = c.ready_transition(person, TransitionAction::Park);
            let id = transition_id((c.transition_seq + 1) as nat, person, TransitionAction::Park);
            let known = c.activity.dom().contains(person);
            &&& r.departments == c.departments
            &&& r.people == c.people
            &&& r.staffing == c.staffing
            &&& r.fences == c.fences
            &&& ready is Some ==> lifecycle_kept(c, r) && c.bench_park(person) == ready->0
            &&& ready is None ==> c.bench_park(person) == id && r.transitions
                == c.transitions.insert(
                id,
                TransitionModel {
                    person_id: person,
                    action: TransitionAction::Park,
                    status: TransitionStatus::Ready,
                    intent_id: None,
                    reason: "Bench '"@ + person + "' after a bounded handoff."@,
                    placement_department_id: if known && c.activity[person].last_department_id
                        is Some {
                        c.activity[person].last_department_id
                    } else {
                        Some(c.people[person].department_id)
                    },
                    requested_at: at,
                    handoff_deadline_at: Some(at),
                    applied_at: None,
                    cancelled_at: None,
                    abandoned_at: None,
                },
            ) && r.activity == c.activity.insert(
                person,
                ActivityModel {
                    last_desired_active: known && c.activity[person].last_desired_active,
                    active_transition_id: Some(id),
                    updated_at: at,
                    ..known_of(c, person)
                },
            ) && r.transition_seq == c.transition_seq + 1
            &&& rest_kept(c, r)
            &&& c.park_breaks(person) <==> ready is None && (c.open_transition(person) is Some
                || c.transitions.dom().contains(id))
            &&& c.park_unreadable() <==> c.settings is None || c.company_root() is None
                || !c.activity_ledger
            &&& c.readable() <==> c.settings is Some && c.company_root() is Some
            &&& c.offboard_breaks(person) <==> c.ready_transition(
                person,
                TransitionAction::Offboard,
            ) is None && c.transitions.dom().contains(
                transition_id(
                    (c.transition_seq + 1) as nat,
                    person,
                    TransitionAction::Offboard,
                ),
            )
        }),
{
    let r = c.park_prepared(person, at, actor);
    assert(r.activity =~= c.activity || r.activity =~= c.activity.insert(
        person,
        r.activity[person],
    ));
}

} // verus!
