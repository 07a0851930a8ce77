//! What the rows, and the manifest, say once a unit has been created.

use vstd::prelude::*;

use crate::company::{CompanyModel, DepartmentModel, PersonModel, StaffingAction};
use crate::laws::frames::{lemma_number_departments, lemma_number_people};
use crate::laws::moves::{
    lemma_people_shift, lemma_units_shift, other_units_kept, shifted, shifted_unit,
};
use crate::laws::outcomes::{lifecycle_kept, line, rest_kept};
use crate::laws::settling::{
    comes_up, distinct, law_what_a_roster_writes, law_what_dissolving_writes,
    law_what_handing_over_writes, on_roster, row_of,
};
use crate::org_ops::decisions::{
    CreateUnitModel, HeadDecisionModel, HeadVacancyModel, StaffModel,
};
use crate::org_ops::seeds::SeedModel;
use crate::org_projection::{
    other_than, with_department, with_head, with_person, with_roster, with_vacancy, CreateModel,
};
use crate::org_view::{headed_by, lemma_those_where, shape_of, those_where};
use crate::organization::{
    DepartmentRecordModel, EmploymentState, ManifestModel, PersonKind, PersonRecordModel, UnitKind,
    UnitState,
};
use crate::text::Text;

verus! {

// ---------------------------------------------------------------------------
// The rows
// ---------------------------------------------------------------------------

/// What a create makes of who leaves a unit to head the new one: nothing, where
/// they head none; the unit handed over, or gone, where they do. Whoever leaves a
/// unit that goes waits in the new one's parent.
pub proof fn law_what_freeing_a_head_writes(c: CompanyModel, p: CreateModel, unit: Text)
    requires
        c.finite(),
        p.vacates is Some ==> c.headed_by(p.head.person_id()) == Some(unit)
            && c.departments.dom().contains(unit) && c.people.dom().contains(p.head.person_id()),
        p.vacates matches Some(HeadVacancyModel::HandOver { successor_person_id })
            ==> c.people.dom().contains(successor_person_id),
        p.vacates == Some(HeadVacancyModel::Dissolve) ==> c.departments[unit].parent_id is Some,
    ensures
        ({
            let f = c.head_freed(p);
            let head = p.head.person_id();
            &&& p.vacates is None ==> f == c
            &&& p.vacates matches Some(HeadVacancyModel::HandOver { successor_person_id }) ==> {
                &&& f.departments == c.departments.insert(
                    unit,
                    DepartmentModel {
                        head_person_id: successor_person_id,
                        updated_at: p.at,
                        ..c.departments[unit]
                    },
                )
                &&& f.people == c.people.insert(
                    successor_person_id,
                    PersonModel {
                        kind: PersonKind::Head,
                        updated_at: p.at,
                        ..c.people[successor_person_id]
                    },
                )
                &&& f.staffing == c.staffing.push(
                    line(
                        successor_person_id,
                        StaffingAction::AppointedHead,
                        Some(unit),
                        Some(unit),
                        p.audit_reason,
                        p.at,
                    ),
                ).push(
                    line(
                        head,
                        StaffingAction::SteppedDown,
                        Some(unit),
                        None,
                        p.audit_reason,
                        p.at,
                    ),
                )
            }
            &&& p.vacates == Some(HeadVacancyModel::Dissolve) ==> {
                &&& f.departments.dom() == c.departments.dom().remove(unit)
                &&& other_units_kept(c, f, set![unit], p.at)
                &&& f.people.dom() == c.people.dom()
                &&& f.people[head] == PersonModel {
                    department_id: f.people[head].department_id,
                    updated_at: f.people[head].updated_at,
                    ..c.people[head]
                }
                &&& forall|q: Text| #[trigger]
                    c.people.dom().contains(q) && q != head ==> f.people[q]
                        == if c.people[q].department_id == unit {
                        PersonModel {
                            department_id: c.departments[unit].parent_id->0,
                            updated_at: f.people[q].updated_at,
                            ..c.people[q]
                        }
                    } else {
                        c.people[q]
                    }
                &&& f.staffing.take(c.staffing.len() as int) == c.staffing
                &&& f.staffing.last() == line(
                    head,
                    StaffingAction::SteppedDown,
                    Some(unit),
                    None,
                    p.audit_reason,
                    p.at,
                )
            }
            &&& lifecycle_kept(c, f)
            &&& rest_kept(c, f)
        }),
{
    let head = p.head.person_id();
    match p.vacates {
        None => {},
        Some(HeadVacancyModel::HandOver { successor_person_id }) => {
            law_what_handing_over_writes(
                c,
                head,
                unit,
                successor_person_id,
                p.audit_reason,
                p.at,
            );
        },
        Some(HeadVacancyModel::Dissolve) => {
            let there = c.move_person(head, p.parent_id, p.at);
            assert(there.people.dom() =~= c.people.dom());
            assert(there.org().departments =~= c.org().departments);
            law_what_dissolving_writes(
                there,
                head,
                unit,
                c.departments[unit].parent_id->0,
                p.audit_reason,
                p.at,
            );
            let f = c.head_freed(p);
            assert(there.people.dom().contains(head));
            assert forall|q: Text| #[trigger]
                c.people.dom().contains(q) && q != head implies f.people[q]
                == if c.people[q].department_id == unit {
                PersonModel {
                    department_id: c.departments[unit].parent_id->0,
                    updated_at: f.people[q].updated_at,
                    ..c.people[q]
                }
            } else {
                c.people[q]
            } by {
                assert(there.people.dom().contains(q));
            }
            assert forall|d: Text| #[trigger]
                c.departments.dom().contains(d) && !set![unit].contains(
                    d,
                ) implies f.departments.dom().contains(d) && shifted_unit(
                c.departments[d],
                f.departments[d],
                p.at,
            ) by {
                assert(there.departments.dom().contains(d));
            }
        },
    }
}

/// The row of a new unit: what was asked for, running, with the head it was given.
pub open spec fn founded(p: CreateModel, ordinal: u64) -> DepartmentModel {
    DepartmentModel {
        parent_id: Some(p.parent_id),
        name: p.name,
        purpose: p.purpose,
        kind: match p.unit {
            CreateUnitModel::Department => UnitKind::Department,
            CreateUnitModel::Contract(_) => UnitKind::Contract,
        },
        transient: match p.unit {
            CreateUnitModel::Department => None,
            CreateUnitModel::Contract(x) => Some(x),
        },
        state: UnitState::Active,
        head_person_id: match p.head {
            HeadDecisionModel::AppointExisting { person_id } => person_id,
            HeadDecisionModel::HireNew { person_id, .. } => person_id,
        },
        ordinal,
        created_at: p.at,
        updated_at: p.at,
    }
}

/// What a roster and the new places make of the rows of a unit that is headed.
proof fn lemma_staffed(
    headed: CompanyModel,
    staff: Seq<StaffModel>,
    department: Text,
    reason: Text,
    at: Text,
    actor: Text,
)
    requires
        distinct(staff),
    ensures
        ({
            let r = headed.seeded_all(staff, department, reason, at).refresh_department_order(
                at,
            ).refresh_people_order(at).deduped().emitted(at, actor);
            &&& r.departments.dom() == headed.departments.dom()
            &&& forall|d: Text| #[trigger]
                headed.departments.dom().contains(d) ==> shifted_unit(
                    headed.departments[d],
                    r.departments[d],
                    at,
                )
            &&& forall|q: Text| #[trigger]
                r.people.dom().contains(q) <==> headed.people.dom().contains(q) || on_roster(
                    staff,
                    q,
                )
            &&& forall|q: Text| #[trigger]
                headed.people.dom().contains(q) && !on_roster(staff, q) ==> shifted(
                    headed.people[q],
                    r.people[q],
                    at,
                )
            &&& forall|k: int|
                0 <= k < staff.len() ==> r.people[(#[trigger] staff[k]).person_id] == row_of(
                    staff[k].seed,
                    department,
                    r.people[staff[k].person_id].ordinal,
                    at,
                )
            &&& r.staffing.len() == headed.staffing.len() + staff.len()
            &&& r.staffing.take(headed.staffing.len() as int) == headed.staffing
            &&& forall|k: int|
                0 <= k < staff.len() ==> #[trigger] r.staffing[headed.staffing.len() + k] == line(
                    staff[k].person_id,
                    StaffingAction::Hired,
                    None,
                    Some(department),
                    reason,
                    at,
                )
            &&& forall|q: Text| #[trigger]
                r.fences.dom().contains(q) <==> headed.fences.dom().contains(q) || (
                !headed.stood_down && comes_up(staff, q))
            &&& r.transitions == headed.transitions
            &&& r.transition_seq == headed.transition_seq
            &&& r.quiesce_since == headed.quiesce_since
            &&& rest_kept(headed, r)
        }),
{
    law_what_a_roster_writes(headed, staff, department, reason, at);
    let staffed = headed.seeded_all(staff, department, reason, at);
    lemma_number_departments(staffed, staffed.department_order(), at);
    lemma_units_shift(staffed, staffed.department_order(), at);
    let ordered = staffed.refresh_department_order(at);
    lemma_number_people(ordered, ordered.people_order(), at);
    lemma_people_shift(ordered, ordered.people_order(), at);
    let r = ordered.refresh_people_order(at).deduped().emitted(at, actor);
    assert forall|q: Text| #[trigger] r.people.dom().contains(q) <==> headed.people.dom().contains(
        q,
    ) || on_roster(staff, q) by {
        if on_roster(staff, q) {
            let k = choose|k: int| 0 <= k < staff.len() && (#[trigger] staff[k]).person_id == q;
            assert(staffed.people.dom().contains(staff[k].person_id));
        } else {
            assert(staffed.people.dom().contains(q) <==> headed.people.dom().contains(q));
        }
    }
    assert forall|q: Text| #[trigger]
        headed.people.dom().contains(q) && !on_roster(staff, q) implies shifted(
        headed.people[q],
        r.people[q],
        at,
    ) by {
        assert(staffed.people.dom().contains(q) <==> headed.people.dom().contains(q));
        assert(ordered.people.dom().contains(q));
    }
    assert forall|k: int| 0 <= k < staff.len() implies r.people[(#[trigger] staff[k]).person_id]
        == row_of(
        staff[k].seed,
        department,
        r.people[staff[k].person_id].ordinal,
        at,
    ) by {
        assert(staffed.people.dom().contains(staff[k].person_id));
        assert(ordered.people.dom().contains(staff[k].person_id));
    }
    assert(r.staffing.take(headed.staffing.len() as int) =~= headed.staffing);
}

/// Creating a unit with a head from the company writes the unit as it was asked
/// for, and its head at home in it and a head, in whatever employment they were;
/// its roster as the seeds say; and a line of history for each step. Who comes at
/// work is to be started, unless the company is stood down. Everything else is
/// as freeing the head left it, but for places.
pub proof fn law_what_creating_with_an_existing_head_writes(
    c: CompanyModel,
    p: CreateModel,
    actor: Text,
    head: Text,
)
    requires
        p.head == (HeadDecisionModel::AppointExisting { person_id: head }),
        c.people.dom().contains(head),
        c.head_freed(p).people.dom() == c.people.dom(),
        distinct(p.staff),
        !on_roster(p.staff, head),
    ensures
        ({
            let r = c.department_created(p, actor);
            let f = c.head_freed(p);
            let id = p.department_id;
            let n = f.staffing.len() as int;
            &&& r.departments.dom() == f.departments.dom().insert(id)
            &&& r.departments[id] == founded(p, r.departments[id].ordinal)
            &&& other_units_kept(f, r, set![id], p.at)
            &&& forall|q: Text| #[trigger]
                r.people.dom().contains(q) <==> c.people.dom().contains(q) || on_roster(
                    p.staff,
                    q,
                )
            &&& r.people[head] == PersonModel {
                kind: PersonKind::Head,
                department_id: id,
                ordinal: r.people[head].ordinal,
                updated_at: p.at,
                ..f.people[head]
            }
            &&& forall|k: int|
                0 <= k < p.staff.len() ==> r.people[(#[trigger] p.staff[k]).person_id] == row_of(
                    p.staff[k].seed,
                    id,
                    r.people[p.staff[k].person_id].ordinal,
                    p.at,
                )
            &&& forall|q: Text| #[trigger]
                c.people.dom().contains(q) && q != head && !on_roster(p.staff, q) ==> shifted(
                    f.people[q],
                    r.people[q],
                    p.at,
                )
            &&& r.staffing.len() == n + 2 + p.staff.len()
            &&& r.staffing.take(n) == f.staffing
            &&& r.staffing[n] == line(
                head,
                StaffingAction::Transferred,
                Some(c.people[head].department_id),
                Some(id),
                p.audit_reason,
                p.at,
            )
            &&& r.staffing[n + 1] == line(
                head,
                StaffingAction::AppointedHead,
                None,
                Some(id),
                p.audit_reason,
                p.at,
            )
            &&& forall|k: int|
                0 <= k < p.staff.len() ==> #[trigger] r.staffing[n + 2 + k] == line(
                    p.staff[k].person_id,
                    StaffingAction::Hired,
                    None,
                    Some(id),
                    p.audit_reason,
                    p.at,
                )
            &&& forall|q: Text| #[trigger]
                r.fences.dom().contains(q) <==> f.fences.dom().contains(q) || (!f.stood_down && (
                q == head && f.people[head].employment_state == EmploymentState::Active
                    || comes_up(p.staff, q)))
            &&& r.transitions == f.transitions
            &&& r.transition_seq == f.transition_seq
            &&& r.quiesce_since == f.quiesce_since
            &&& rest_kept(f, r)
        }),
{
    let f = c.head_freed(p);
    let r = c.department_created(p, actor);
    let id = p.department_id;
    let unit = f.insert_department(id, p.parent_id, p.name, p.purpose, p.unit, head, p.at);
    let headed = unit.head_appointed(head, Some(c.people[head].department_id), p);
    lemma_staffed(headed, p.staff, id, p.audit_reason, p.at, actor);
    let n = f.staffing.len() as int;
    assert(headed.departments.dom() =~= f.departments.dom().insert(id));
    assert(headed.departments.dom().contains(id));
    assert(headed.people.dom() =~= c.people.dom());
    assert(headed.people.dom().contains(head));
    assert forall|d: Text| #[trigger] f.departments.dom().contains(d) && !set![id].contains(
        d,
    ) implies r.departments.dom().contains(d) && shifted_unit(
        f.departments[d],
        r.departments[d],
        p.at,
    ) by {
        assert(headed.departments.dom().contains(d));
    }
    assert forall|q: Text| #[trigger]
        c.people.dom().contains(q) && q != head && !on_roster(p.staff, q) implies shifted(
        f.people[q],
        r.people[q],
        p.at,
    ) by {
        assert(headed.people.dom().contains(q));
    }
    assert(r.staffing.take(n + 2) == headed.staffing);
    assert(r.staffing.take(n + 2)[n] == headed.staffing[n]);
    assert(r.staffing.take(n + 2)[n + 1] == headed.staffing[n + 1]);
    assert(r.staffing.take(n) =~= f.staffing) by {
        assert forall|i: int| 0 <= i < n implies r.staffing[i] == f.staffing[i] by {
            assert(r.staffing.take(n + 2)[i] == headed.staffing[i]);
        }
    }
    assert forall|k: int| 0 <= k < p.staff.len() implies #[trigger] r.staffing[n + 2 + k] == line(
        p.staff[k].person_id,
        StaffingAction::Hired,
        None,
        Some(id),
        p.audit_reason,
        p.at,
    ) by {
        assert(headed.staffing.len() + k == n + 2 + k);
        assert(r.staffing[headed.staffing.len() + k] == line(
            p.staff[k].person_id,
            StaffingAction::Hired,
            None,
            Some(id),
            p.audit_reason,
            p.at,
        ));
    }
}

/// Creating a unit with a head who is hired for it writes the unit as it was asked
/// for, and its head and its roster as the seeds say, at home in it; and a line of
/// history for each. Who comes at work is to be started, unless the company is
/// stood down. Nobody else's row changes, but for places.
pub proof fn law_what_creating_with_a_new_head_writes(
    c: CompanyModel,
    p: CreateModel,
    actor: Text,
    head: Text,
    seed: SeedModel,
)
    requires
        p.head == (HeadDecisionModel::HireNew { person_id: head, seed }),
        p.vacates is None || c.headed_by(head) is None && !c.people.dom().contains(head),
        distinct(p.staff),
        !on_roster(p.staff, head),
    ensures
        ({
            let r = c.department_created(p, actor);
            let id = p.department_id;
            let n = c.staffing.len() as int;
            &&& r.departments.dom() == c.departments.dom().insert(id)
            &&& r.departments[id] == founded(p, r.departments[id].ordinal)
            &&& other_units_kept(c, r, set![id], p.at)
            &&& forall|q: Text| #[trigger]
                r.people.dom().contains(q) <==> c.people.dom().contains(q) || q == head
                    || on_roster(p.staff, q)
            &&& r.people[head] == row_of(seed, id, r.people[head].ordinal, p.at)
            &&& forall|k: int|
                0 <= k < p.staff.len() ==> r.people[(#[trigger] p.staff[k]).person_id] == row_of(
                    p.staff[k].seed,
                    id,
                    r.people[p.staff[k].person_id].ordinal,
                    p.at,
                )
            &&& forall|q: Text| #[trigger]
                c.people.dom().contains(q) && q != head && !on_roster(p.staff, q) ==> shifted(
                    c.people[q],
                    r.people[q],
                    p.at,
                )
            &&& r.staffing.len() == n + 1 + p.staff.len()
            &&& r.staffing.take(n) == c.staffing
            &&& r.staffing[n] == line(
                head,
                StaffingAction::Hired,
                None,
                Some(id),
                p.audit_reason,
                p.at,
            )
            &&& forall|k: int|
                0 <= k < p.staff.len() ==> #[trigger] r.staffing[n + 1 + k] == line(
                    p.staff[k].person_id,
                    StaffingAction::Hired,
                    None,
                    Some(id),
                    p.audit_reason,
                    p.at,
                )
            &&& forall|q: Text| #[trigger]
                r.fences.dom().contains(q) <==> c.fences.dom().contains(q) || (!c.stood_down && (q
                    == head && seed.employment_state == EmploymentState::Active || comes_up(
                    p.staff,
                    q,
                )))
            &&& r.transitions == c.transitions
            &&& r.transition_seq == c.transition_seq
            &&& r.quiesce_since == c.quiesce_since
            &&& rest_kept(c, r)
        }),
{
    let r = c.department_created(p, actor);
    let id = p.department_id;
    let f = c.head_freed(p);
    assert(f.departments == c.departments && f.people == c.people && f.staffing == c.staffing
        && f.fences == c.fences && f.transitions == c.transitions && f.transition_seq
        == c.transition_seq && f.quiesce_since == c.quiesce_since && rest_kept(c, f)) by {
        if let Some(decision) = p.vacates {
            let there = c.move_person(head, p.parent_id, p.at);
            assert(there.people == c.people);
            assert(there.org().departments =~= c.org().departments);
            assert(there.headed_by(head) == c.headed_by(head));
        }
    }
    let unit = f.insert_department(id, p.parent_id, p.name, p.purpose, p.unit, head, p.at);
    let headed = unit.seeded(head, id, seed, p.audit_reason, p.at);
    lemma_staffed(headed, p.staff, id, p.audit_reason, p.at, actor);
    let n = c.staffing.len() as int;
    assert(headed.departments.dom() =~= c.departments.dom().insert(id));
    assert(headed.departments.dom().contains(id));
    assert(headed.people.dom() =~= c.people.dom().insert(head));
    assert(headed.people.dom().contains(head));
    assert forall|d: Text| #[trigger] c.departments.dom().contains(d) && !set![id].contains(
        d,
    ) implies r.departments.dom().contains(d) && shifted_unit(
        c.departments[d],
        r.departments[d],
        p.at,
    ) by {
        assert(headed.departments.dom().contains(d));
    }
    assert forall|q: Text| #[trigger]
        c.people.dom().contains(q) && q != head && !on_roster(p.staff, q) implies shifted(
        c.people[q],
        r.people[q],
        p.at,
    ) by {
        assert(headed.people.dom().contains(q));
    }
    assert(r.staffing.take(n + 1) == headed.staffing);
    assert(r.staffing.take(n + 1)[n] == headed.staffing[n]);
    assert(r.staffing.take(n) =~= c.staffing) by {
        assert forall|i: int| 0 <= i < n implies r.staffing[i] == c.staffing[i] by {
            assert(r.staffing.take(n + 1)[i] == headed.staffing[i]);
        }
    }
    assert forall|k: int| 0 <= k < p.staff.len() implies #[trigger] r.staffing[n + 1 + k] == line(
        p.staff[k].person_id,
        StaffingAction::Hired,
        None,
        Some(id),
        p.audit_reason,
        p.at,
    ) by {
        assert(headed.staffing.len() + k == n + 1 + k);
        assert(r.staffing[headed.staffing.len() + k] == line(
            p.staff[k].person_id,
            StaffingAction::Hired,
            None,
            Some(id),
            p.audit_reason,
            p.at,
        ));
    }
}

// ---------------------------------------------------------------------------
// The manifest
// ---------------------------------------------------------------------------

/// The record a seed makes of somebody in a manifest.
pub open spec fn record_of(person: Text, seed: SeedModel, home: Text, at: Text) -> PersonRecordModel {
    PersonRecordModel {
        id: person,
        name: seed.name,
        title: seed.title,
        mandate: seed.mandate,
        kind: seed.kind,
        department_id: home,
        employment_state: seed.employment_state,
        activation: seed.activation,
        tools: seed.tools,
        prompts: seed.prompts,
        created_at: at,
        staffing_history: None,
        extra: Map::empty(),
    }
}

/// A projected hire adds the record the seed makes, last in the order of people,
/// and changes nothing else.
pub proof fn law_what_a_projected_hire_adds(
    m: ManifestModel,
    person: Text,
    department: Text,
    seed: SeedModel,
    at: Text,
)
    ensures
        with_person(m, person, department, seed, at) == (ManifestModel {
            people: m.people.insert(person, record_of(person, seed, department, at)),
            people_order: m.people_order.push(person),
            ..m
        }),
{
}

/// Ending a headship in a manifest names the successor the unit's head and makes
/// them one, or takes the unit out, of the order too, which stays as it was for the
/// others. Whom or what the manifest has not is passed over.
pub proof fn law_what_a_projected_vacancy_is(
    m: ManifestModel,
    unit: Text,
    decision: HeadVacancyModel,
)
    ensures
        ({
            let r = with_vacancy(m, unit, decision);
            match decision {
                HeadVacancyModel::Dissolve => r == (ManifestModel {
                    departments: m.departments.remove(unit),
                    department_order: m.department_order.filter(|d: Text| d != unit),
                    ..m
                }),
                HeadVacancyModel::HandOver { successor_person_id } => {
                    &&& r == ManifestModel { departments: r.departments, people: r.people, ..m }
                    &&& r.departments.dom() == m.departments.dom()
                    &&& r.people.dom() == m.people.dom()
                    &&& m.departments.dom().contains(unit) ==> r.departments[unit]
                        == DepartmentRecordModel {
                        head_person_id: successor_person_id,
                        ..m.departments[unit]
                    }
                    &&& m.people.dom().contains(successor_person_id)
                        ==> r.people[successor_person_id] == PersonRecordModel {
                        kind: PersonKind::Head,
                        ..m.people[successor_person_id]
                    }
                    &&& forall|d: Text|
                        d != unit ==> #[trigger] r.departments[d] == m.departments[d]
                    &&& forall|p: Text|
                        p != successor_person_id ==> #[trigger] r.people[p] == m.people[p]
                },
            }
        }),
{
    let r = with_vacancy(m, unit, decision);
    match decision {
        HeadVacancyModel::Dissolve => {
            lemma_choice_is_filter(m.department_order, other_than(unit), |d: Text| d != unit);
        },
        HeadVacancyModel::HandOver { successor_person_id } => {
            assert(r.departments.dom() =~= m.departments.dom());
            assert(r.people.dom() =~= m.people.dom());
        },
    }
}

proof fn lemma_choice_is_filter(q: Seq<Text>, f: spec_fn(Text) -> bool, g: spec_fn(Text) -> bool)
    requires
        forall|x: Text| #[trigger] f(x) == g(x),
    ensures
        those_where(q, f) == q.filter(g),
    decreases q.len(),
{
    reveal(Seq::filter);
    if q.len() > 0 {
        lemma_choice_is_filter(q.drop_last(), f, g);
        assert(f(q.last()) == g(q.last()));
    } else {
        assert(q =~= Seq::empty());
    }
}

/// What a projected create makes of the head: somebody new as their seed says, or
/// somebody of the manifest who heads the unit from now on and is a head in it;
/// the unit they leave is handed over, or gone with its place in the order.
pub proof fn law_what_a_projected_head_is(m: ManifestModel, p: CreateModel)
    ensures
        ({
            let r = with_head(m, p);
            let left = headed_by(shape_of(m).departments, p.head.person_id());
            match p.head {
                HeadDecisionModel::HireNew { person_id, seed } => r == (ManifestModel {
                    people: m.people.insert(
                        person_id,
                        record_of(person_id, seed, p.department_id, p.at),
                    ),
                    people_order: m.people_order.push(person_id),
                    ..m
                }),
                HeadDecisionModel::AppointExisting { person_id } => {
                    &&& r.people_order == m.people_order
                    &&& m.people.dom().contains(person_id) && (p.vacates
                        != Some(HeadVacancyModel::HandOver { successor_person_id: person_id }))
                        ==> r.people[person_id] == PersonRecordModel {
                        kind: PersonKind::Head,
                        department_id: p.department_id,
                        ..m.people[person_id]
                    }
                    &&& left is None || p.vacates is None ==> r.departments == m.departments
                        && r.department_order == m.department_order && r.people
                        == m.people.insert(person_id, r.people[person_id])
                    &&& left is Some && p.vacates == Some(HeadVacancyModel::Dissolve)
                        ==> r.departments == m.departments.remove(left->0) && (forall|d: Text|
                        #[trigger]
                        r.department_order.contains(d) <==> m.department_order.contains(d) && d
                            != left->0) && r.people == m.people.insert(
                        person_id,
                        r.people[person_id],
                    )
                    &&& p.vacates matches Some(HeadVacancyModel::HandOver { successor_person_id })
                        ==> (left is Some && successor_person_id != person_id
                        && m.people.dom().contains(successor_person_id)
                        && m.departments.dom().contains(left->0) ==> r.department_order
                        == m.department_order && r.departments == m.departments.insert(
                        left->0,
                        DepartmentRecordModel {
                            head_person_id: successor_person_id,
                            ..m.departments[left->0]
                        },
                    ) && r.people == m.people.insert(
                        successor_person_id,
                        PersonRecordModel {
                            kind: PersonKind::Head,
                            ..m.people[successor_person_id]
                        },
                    ).insert(person_id, r.people[person_id]))
                },
            }
        }),
{
    let left = headed_by(shape_of(m).departments, p.head.person_id());
    if let Some(unit) = left {
        lemma_order_without(m, unit);
    }
}

proof fn lemma_order_without(m: ManifestModel, unit: Text)
    ensures
        forall|d: Text| #[trigger]
            with_vacancy(m, unit, HeadVacancyModel::Dissolve).department_order.contains(d)
                <==> m.department_order.contains(d) && d != unit,
{
    lemma_those_where(m.department_order, other_than(unit));
}

/// The ids of the first of a roster.
pub open spec fn ids_of(staff: Seq<StaffModel>, n: nat) -> Seq<Text> {
    Seq::new(n, |k: int| staff[k].person_id)
}

proof fn lemma_projected_roster(
    m: ManifestModel,
    staff: Seq<StaffModel>,
    department: Text,
    at: Text,
    n: nat,
)
    requires
        n <= staff.len(),
        distinct(staff),
    ensures
        ({
            let r = with_roster(m, staff, department, at, n);
            &&& r == ManifestModel { people: r.people, people_order: r.people_order, ..m }
            &&& r.people_order == m.people_order + ids_of(staff, n)
            &&& forall|k: int|
                0 <= k < n ==> r.people.dom().contains((#[trigger] staff[k]).person_id)
                    && r.people[staff[k].person_id] == record_of(
                    staff[k].person_id,
                    staff[k].seed,
                    department,
                    at,
                )
            &&& forall|q: Text|
                !on_roster(staff, q) ==> (#[trigger] r.people.dom().contains(q)
                    <==> m.people.dom().contains(q)) && r.people[q] == m.people[q]
        }),
    decreases n,
{
    let r = with_roster(m, staff, department, at, n);
    if n > 0 {
        lemma_projected_roster(m, staff, department, at, (n - 1) as nat);
        let b = with_roster(m, staff, department, at, (n - 1) as nat);
        assert forall|k: int| 0 <= k < n implies r.people.dom().contains(
            (#[trigger] staff[k]).person_id,
        ) && r.people[staff[k].person_id] == record_of(
            staff[k].person_id,
            staff[k].seed,
            department,
            at,
        ) by {
            if k < n - 1 {
                assert(staff[k].person_id != staff[n - 1].person_id);
            }
        }
        assert(r.people_order =~= m.people_order + ids_of(staff, n));
        assert forall|q: Text| !on_roster(staff, q) implies (#[trigger] r.people.dom().contains(q)
            <==> m.people.dom().contains(q)) && r.people[q] == m.people[q] by {
            assert(staff[n - 1].person_id != q);
            assert(b.people.dom().contains(q) <==> m.people.dom().contains(q));
        }
    } else {
        assert(r.people_order =~= m.people_order + ids_of(staff, n));
    }
}

/// A projected create adds the unit as it was asked for, last in the order of
/// units, and its roster as the seeds say, last in the order of people, to what
/// became of the head; and carries the clock it was asked by.
pub proof fn law_what_a_projected_create_adds(m: ManifestModel, p: CreateModel)
    requires
        distinct(p.staff),
    ensures
        ({
            let r = with_department(m, p);
            let h = with_head(m, p);
            let id = p.department_id;
            let row = founded(p, 0);
            &&& r == ManifestModel {
                departments: r.departments,
                department_order: r.department_order,
                people: r.people,
                people_order: r.people_order,
                updated_at: p.at,
                ..m
            }
            &&& r.departments == h.departments.insert(
                id,
                DepartmentRecordModel {
                    id,
                    name: row.name,
                    purpose: row.purpose,
                    kind: Some(row.kind),
                    transient: row.transient,
                    parent_department_id: row.parent_id,
                    head_person_id: row.head_person_id,
                    state: UnitState::Active,
                    created_at: p.at,
                    extra: Map::empty(),
                },
            )
            &&& r.department_order == h.department_order.push(id)
            &&& r.people_order == h.people_order + ids_of(p.staff, p.staff.len())
            &&& forall|k: int|
                0 <= k < p.staff.len() ==> r.people.dom().contains(
                    (#[trigger] p.staff[k]).person_id,
                ) && r.people[p.staff[k].person_id] == record_of(
                    p.staff[k].person_id,
                    p.staff[k].seed,
                    id,
                    p.at,
                )
            &&& forall|q: Text|
                !on_roster(p.staff, q) ==> (#[trigger] r.people.dom().contains(q)
                    <==> h.people.dom().contains(q)) && r.people[q] == h.people[q]
        }),
{
    let h = with_head(m, p);
    let placed = ManifestModel {
        departments: h.departments.insert(
            p.department_id,
            DepartmentRecordModel {
                id: p.department_id,
                name: p.name,
                purpose: p.purpose,
                kind: Some(p.unit.kind()),
                transient: p.unit.transient(),
                parent_department_id: Some(p.parent_id),
                head_person_id: p.head.person_id(),
                state: UnitState::Active,
                created_at: p.at,
                extra: Map::empty(),
            },
        ),
        department_order: h.department_order.push(p.department_id),
        ..h
    };
    lemma_projected_roster(placed, p.staff, p.department_id, p.at, p.staff.len());
}

} // verus!
