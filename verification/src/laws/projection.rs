//! What is projected is what happens.

use vstd::prelude::*;

use crate::company::CompanyModel;
use crate::laws::chart::{
    charted, lemma_headed_by_none, lemma_heads, lemma_org, lemma_residents, unit_sound,
};
use crate::laws::chart_kept::lemma_vacancy_answered;
use crate::laws::frames::{lemma_number_departments, lemma_number_people, lemma_rehome};
use crate::org_ops::create::hire_line;
use crate::org_ops::decisions::{HeadDecisionModel, HeadVacancyModel, StaffModel};
use crate::org_ops::refusals::{CreateRefusalModel, HireRefusalModel};
use crate::org_ops::seeds::SeedModel;
use crate::org_projection::{
    create_refusal, hire_refusal, named_before, roster_refusal, vacancy_refusal, with_department,
    with_head, with_person, with_roster, CreateModel, HireModel,
};
use crate::org_view::{
    above, children, headed_by, lemma_first_where, lemma_members_but, lemma_those_where, manages,
    member_of, running, shape_of, unit_of, MemberModel, OrgModel, UnitModel,
};
use crate::organization::{DepartmentRecordModel, ManifestModel, PersonKind, UnitState};
use crate::table::{lemma_finite_listing, listing};
use crate::text::Text;

verus! {

/// Whether a manifest and the rows say the same of the chart.
pub open spec fn agree(m: ManifestModel, c: CompanyModel) -> bool {
    shape_of(m) == c.org()
}

proof fn lemma_shape(m: ManifestModel)
    ensures
        shape_of(m).departments.dom() == m.departments.dom(),
        shape_of(m).people.dom() == m.people.dom(),
        forall|d: Text| #[trigger]
            m.departments.dom().contains(d) ==> shape_of(m).departments[d] == unit_of(
                m.departments[d],
            ),
        forall|p: Text| #[trigger]
            m.people.dom().contains(p) ==> shape_of(m).people[p] == member_of(m.people[p]),
{
    assert(shape_of(m).departments.dom() =~= m.departments.dom());
    assert(shape_of(m).people.dom() =~= m.people.dom());
}

/// Where the manifest and the rows agree, asking before and asking while
/// writing give the same answer.
pub proof fn law_asking_first_gives_the_same_answer(
    m: ManifestModel,
    c: CompanyModel,
    create: CreateModel,
    hire: HireModel,
)
    requires
        agree(m, c),
    ensures
        create_refusal(shape_of(m), create) == create_refusal(c.org(), create),
        hire_refusal(shape_of(m), hire) == hire_refusal(c.org(), hire),
{
}

/// One more person, on either side.
proof fn lemma_one_more(
    m: ManifestModel,
    b: CompanyModel,
    id: Text,
    department: Text,
    seed: SeedModel,
    reason: Text,
    at: Text,
)
    requires
        agree(m, b),
    ensures
        agree(
            with_person(m, id, department, seed, at),
            b.seeded(id, department, seed, reason, at),
        ),
{
    let n = with_person(m, id, department, seed, at);
    let e = b.seeded(id, department, seed, reason, at);
    lemma_shape(m);
    lemma_org(b);
    assert(shape_of(n).departments =~= e.org().departments) by {
        assert(n.departments == m.departments);
        assert(e.departments == b.departments);
    }
    assert(shape_of(n).people =~= e.org().people) by {
        lemma_shape(n);
        lemma_org(e);
        assert(n.people.dom() =~= m.people.dom().insert(id));
        assert(e.people.dom() =~= b.people.dom().insert(id));
        assert forall|p: Text| #[trigger] n.people.dom().contains(p) implies shape_of(n).people[p]
            == e.org().people[p] by {
            assert(e.people.dom().contains(p));
            if p != id {
                assert(m.people.dom().contains(p));
                assert(b.people.dom().contains(p));
            }
        }
    }
}

/// A projected hire has the chart the hire makes.
pub proof fn law_projected_hire_is_the_hire(
    m: ManifestModel,
    c: CompanyModel,
    p: HireModel,
    actor: Text,
)
    requires
        agree(m, c),
    ensures
        agree(
            with_person(m, p.person_id, p.department_id, p.seed, p.at),
            c.hired(p, actor),
        ),
{
    let line = hire_line(p.person_id, p.department_id);
    let there = c.seeded(p.person_id, p.department_id, p.seed, line, p.at);
    lemma_one_more(m, c, p.person_id, p.department_id, p.seed, line, p.at);
    lemma_number_people(there, there.people_order(), p.at);
    let r = c.hired(p, actor);
    let ordered = there.refresh_people_order(p.at);
    assert(r.org().departments =~= ordered.org().departments);
    assert(r.org().people =~= ordered.org().people);
}

proof fn lemma_roster(
    m: ManifestModel,
    b: CompanyModel,
    staff: Seq<StaffModel>,
    department: Text,
    reason: Text,
    at: Text,
    n: nat,
)
    requires
        agree(m, b),
        n <= staff.len(),
    ensures
        agree(
            with_roster(m, staff, department, at, n),
            b.seeded_all(staff.take(n as int), department, reason, at),
        ),
    decreases n,
{
    if n > 0 {
        let k = (n - 1) as nat;
        lemma_roster(m, b, staff, department, reason, at, k);
        let s = staff.take(n as int);
        assert(s.drop_last() =~= staff.take(k as int));
        assert(s.last() == staff[n - 1]);
        lemma_one_more(
            with_roster(m, staff, department, at, k),
            b.seeded_all(staff.take(k as int), department, reason, at),
            staff[n - 1].person_id,
            department,
            staff[n - 1].seed,
            reason,
            at,
        );
    }
}

/// What settling a vacancy makes of the chart, where nobody else rests in the
/// unit.
spec fn settled(o: OrgModel, unit: Text, decision: HeadVacancyModel) -> OrgModel {
    match decision {
        HeadVacancyModel::HandOver { successor_person_id } => OrgModel {
            departments: o.departments.insert(
                unit,
                UnitModel { head: successor_person_id, ..o.departments[unit] },
            ),
            people: o.people.insert(
                successor_person_id,
                MemberModel { kind: PersonKind::Head, ..o.people[successor_person_id] },
            ),
        },
        HeadVacancyModel::Dissolve => OrgModel {
            departments: o.departments.remove(unit),
            people: o.people,
        },
    }
}

/// A company's chart with somebody at the head of a new unit.
spec fn crowned(o: OrgModel, p: CreateModel, row: MemberModel) -> OrgModel {
    OrgModel {
        departments: o.departments.insert(
            p.department_id,
            UnitModel {
                parent: Some(p.parent_id),
                head: p.head.person_id(),
                state: UnitState::Active,
            },
        ),
        people: o.people.insert(p.head.person_id(), row),
    }
}

proof fn lemma_rows_settled(
    c: CompanyModel,
    head: Text,
    unit: Text,
    decision: HeadVacancyModel,
    reason: Text,
    at: Text,
)
    requires
        c.finite(),
        c.headed_by(head) == Some(unit),
        c.departments.dom().contains(unit),
        match decision {
            HeadVacancyModel::HandOver { successor_person_id } => c.people.dom().contains(
                successor_person_id,
            ),
            HeadVacancyModel::Dissolve => !c.has_resident_but(unit, head),
        },
    ensures
        c.vacated(head, decision, reason, at).org().departments == settled(
            c.org(),
            unit,
            decision,
        ).departments,
        c.vacated(head, decision, reason, at).org().people == settled(
            c.org(),
            unit,
            decision,
        ).people,
{
    let r = c.vacated(head, decision, reason, at);
    let o = settled(c.org(), unit, decision);
    lemma_org(c);
    lemma_org(r);
    match decision {
        HeadVacancyModel::HandOver { successor_person_id } => {
            assert(r.org().departments =~= o.departments);
            assert(r.org().people =~= o.people);
        },
        HeadVacancyModel::Dissolve => {
            let residents = c.people_in(seq![unit]);
            lemma_residents(c, seq![unit]);
            assert forall|t: Text| seq![unit].contains(t) <==> t == unit by {
                assert(seq![unit][0] == unit);
            }
            let left = match c.departments[unit].parent_id {
                Some(parent) => {
                    lemma_rehome(c, residents, head, unit, parent, reason, at);
                    c.rehome(residents, head, unit, parent, reason, at)
                },
                None => c,
            };
            assert forall|p: Text| #[trigger] c.people.dom().contains(p) implies left.people[p]
                == c.people[p] by {
                if residents.contains(p) && p != head {
                    assert(c.people[p].department_id == unit);
                    assert(c.has_resident_but(unit, head));
                }
            }
            let cut = left.delete_department(unit);
            lemma_number_departments(cut, cut.department_order(), at);
            assert(cut.org().departments =~= o.departments);
            assert(r.org().departments =~= cut.org().departments);
            assert(r.org().people =~= o.people);
        },
    }
}

proof fn lemma_manifest_headed(m: ManifestModel, p: CreateModel, left: OrgModel, row: MemberModel)
    requires
        match p.head {
            HeadDecisionModel::AppointExisting { person_id } => {
                &&& shape_of(m).people.dom().contains(person_id)
                &&& row.department == p.department_id
                &&& row.kind == PersonKind::Head
                &&& row.employment == shape_of(m).people[person_id].employment
                &&& match headed_by(shape_of(m).departments, person_id) {
                    Some(unit) => {
                        &&& p.vacates matches Some(decision) && left == settled(
                            shape_of(m),
                            unit,
                            decision,
                        )
                        &&& shape_of(m).departments.dom().contains(unit)
                        &&& p.vacates matches Some(HeadVacancyModel::HandOver {
                            successor_person_id,
                        }) ==> shape_of(m).people.dom().contains(successor_person_id)
                            && successor_person_id != person_id
                    },
                    None => p.vacates is None && left == shape_of(m),
                }
            },
            HeadDecisionModel::HireNew { person_id, seed } => left == shape_of(m) && row == (
            MemberModel {
                kind: seed.kind,
                employment: seed.employment_state,
                department: p.department_id,
            }),
        },
    ensures
        shape_of(with_head(m, p)).departments == left.departments,
        shape_of(with_head(m, p)).people == left.people.insert(p.head.person_id(), row),
{
    let h = with_head(m, p);
    lemma_shape(m);
    lemma_shape(h);
    assert(shape_of(h).departments =~= left.departments);
    assert(shape_of(h).people =~= left.people.insert(p.head.person_id(), row));
}

/// A projected unit has the chart that creating it makes. Where the head leaves
/// a unit that is dissolved, whoever rests in it after departing is moved by the
/// create and not by the projection: there the two part.
pub proof fn law_projected_create_is_the_create(
    m: ManifestModel,
    c: CompanyModel,
    root: Text,
    p: CreateModel,
    actor: Text,
)
    requires
        c.finite(),
        charted(c, root),
        agree(m, c),
        create_refusal(c.org(), p) is None,
        !c.create_breaks(p),
        p.vacates == Some(HeadVacancyModel::Dissolve) ==> (c.headed_by(p.head.person_id())
            matches Some(unit) ==> !c.has_resident_but(unit, p.head.person_id())),
    ensures
        agree(with_department(m, p), c.department_created(p, actor)),
{
    let head = p.head.person_id();
    lemma_org(c);
    lemma_heads(c, root);
    // The rows, once the head is free.
    let there = match p.vacates {
        Some(HeadVacancyModel::Dissolve) => c.move_person(head, p.parent_id, p.at),
        _ => c,
    };
    let freed = c.head_freed(p);
    assert(there.org().departments =~= c.org().departments);
    assert(there.people.dom() =~= c.people.dom());
    assert(there.headed_by(head) == c.headed_by(head));
    let row = match p.head {
        HeadDecisionModel::AppointExisting { person_id } => MemberModel {
            kind: PersonKind::Head,
            employment: c.people[person_id].employment_state,
            department: p.department_id,
        },
        HeadDecisionModel::HireNew { person_id, seed } => MemberModel {
            kind: seed.kind,
            employment: seed.employment_state,
            department: p.department_id,
        },
    };
    let left = match (p.head, c.headed_by(head)) {
        (HeadDecisionModel::AppointExisting { .. }, Some(unit)) => settled(
            c.org(),
            unit,
            p.vacates->0,
        ),
        _ => c.org(),
    };
    lemma_freed_shape(c, root, p, left);
    // The rows, with the unit and its head.
    let unit = freed.insert_department(
        p.department_id,
        p.parent_id,
        p.name,
        p.purpose,
        p.unit,
        head,
        p.at,
    );
    let headed = match p.head {
        HeadDecisionModel::AppointExisting { person_id } => unit.head_appointed(
            person_id,
            if c.people.dom().contains(person_id) {
                Some(c.people[person_id].department_id)
            } else {
                None
            },
            p,
        ),
        HeadDecisionModel::HireNew { person_id, seed } => unit.seeded(
            person_id,
            p.department_id,
            seed,
            p.audit_reason,
            p.at,
        ),
    };
    let o = crowned(left, p, row);
    lemma_headed_shape(c, p, freed, headed, left, row);
    // The manifest, with the unit and its head.
    match p.head {
        HeadDecisionModel::AppointExisting { person_id } => {
            if let Some(u) = c.headed_by(head) {
                lemma_vacancy_answered(c, head, u, p.vacates->0);
            }
        },
        _ => {},
    }
    lemma_manifest_headed(m, p, left, row);
    let h = with_head(m, p);
    let placed = ManifestModel {
        departments: h.departments.insert(
            p.department_id,
            DepartmentRecordModel {
                id: p.department_id,
                name: p.name,
                purpose: p.purpose,
                kind: Some(p.unit.kind()),
                transient: p.unit.transient(),
                parent_department_id: Some(p.parent_id),
                head_person_id: p.head.person_id(),
                state: UnitState::Active,
                created_at: p.at,
                extra: Map::empty(),
            },
        ),
        department_order: h.department_order.push(p.department_id),
        ..h
    };
    lemma_shape(h);
    lemma_shape(placed);
    assert(shape_of(placed).departments =~= o.departments);
    assert(shape_of(placed).people =~= o.people);
    assert(agree(placed, headed));
    // Both, with the roster.
    lemma_roster(placed, headed, p.staff, p.department_id, p.audit_reason, p.at, p.staff.len());
    assert(p.staff.take(p.staff.len() as int) =~= p.staff);
    let staffed = headed.seeded_all(p.staff, p.department_id, p.audit_reason, p.at);
    lemma_number_departments(staffed, staffed.department_order(), p.at);
    let ordered = staffed.refresh_department_order(p.at);
    lemma_number_people(ordered, ordered.people_order(), p.at);
    let r = c.department_created(p, actor);
    let all = ordered.refresh_people_order(p.at);
    assert(r.org().departments =~= all.org().departments);
    assert(r.org().people =~= all.org().people);
    let w = with_department(m, p);
    let n = with_roster(placed, p.staff, p.department_id, p.at, p.staff.len());
    assert(shape_of(w).departments =~= shape_of(n).departments);
    assert(shape_of(w).people =~= shape_of(n).people);
}

proof fn lemma_freed_shape(c: CompanyModel, root: Text, p: CreateModel, left: OrgModel)
    requires
        c.finite(),
        charted(c, root),
        create_refusal(c.org(), p) is None,
        p.vacates == Some(HeadVacancyModel::Dissolve) ==> (c.headed_by(p.head.person_id())
            matches Some(unit) ==> !c.has_resident_but(unit, p.head.person_id())),
        left == (match (p.head, c.headed_by(p.head.person_id())) {
            (HeadDecisionModel::AppointExisting { .. }, Some(unit)) => settled(
                c.org(),
                unit,
                p.vacates->0,
            ),
            _ => c.org(),
        }),
    ensures
        c.head_freed(p).org().departments == left.departments,
        c.head_freed(p).org().people.remove(p.head.person_id()) == left.people.remove(
            p.head.person_id(),
        ),
        p.head is AppointExisting ==> c.head_freed(p).people.dom().contains(p.head.person_id())
            && c.head_freed(p).people[p.head.person_id()].employment_state
            == c.people[p.head.person_id()].employment_state,
{
    let head = p.head.person_id();
    lemma_org(c);
    lemma_heads(c, root);
    let there = match p.vacates {
        Some(HeadVacancyModel::Dissolve) => c.move_person(head, p.parent_id, p.at),
        _ => c,
    };
    let f = c.head_freed(p);
    assert(there.org().departments =~= c.org().departments);
    assert(there.people.dom() =~= c.people.dom());
    assert(there.headed_by(head) == c.headed_by(head));
    lemma_org(there);
    assert(there.org().people.remove(head) =~= c.org().people.remove(head));
    match p.head {
        HeadDecisionModel::HireNew { person_id, seed } => {
            assert forall|d: Text| #[trigger] c.departments.dom().contains(d) implies
                c.departments[d].head_person_id != head by {
                assert(unit_sound(c, root, d));
            }
            lemma_headed_by_none(c, head);
            assert(f.org().departments =~= c.org().departments);
            assert(f.org().people =~= c.org().people);
        },
        HeadDecisionModel::AppointExisting { person_id } => {
            match c.headed_by(head) {
                None => {
                    assert(p.vacates is None);
                },
                Some(unit) => {
                    let decision = p.vacates->0;
                    lemma_vacancy_answered(c, head, unit, decision);
                    if decision is Dissolve {
                        assert(!there.has_resident_but(unit, head)) by {
                            if there.has_resident_but(unit, head) {
                                let q = choose|q: Text| #[trigger]
                                    there.people.dom().contains(q) && q != head
                                        && there.people[q].department_id == unit;
                                assert(c.people.dom().contains(q));
                                assert(c.has_resident_but(unit, head));
                            }
                        }
                    }
                    lemma_rows_settled(there, head, unit, decision, p.audit_reason, p.at);
                    lemma_org(f);
                    assert(settled(there.org(), unit, decision).people.remove(head)
                        =~= left.people.remove(head));
                    assert(f.org().people.dom().contains(head));
                    assert(f.people.dom().contains(head));
                    assert(f.org().people[head].employment == there.org().people[head].employment);
                },
            }
        },
    }
}

proof fn lemma_headed_shape(
    c: CompanyModel,
    p: CreateModel,
    freed: CompanyModel,
    headed: CompanyModel,
    left: OrgModel,
    row: MemberModel,
)
    requires
        freed.org().departments == left.departments,
        freed.org().people.remove(p.head.person_id()) == left.people.remove(p.head.person_id()),
        p.head is AppointExisting ==> freed.people.dom().contains(p.head.person_id())
            && freed.people[p.head.person_id()].employment_state == row.employment,
        row.department == p.department_id,
        p.head is AppointExisting ==> row.kind == PersonKind::Head,
        p.head matches HeadDecisionModel::HireNew { seed, .. } ==> row.kind == seed.kind
            && row.employment == seed.employment_state,
        ({
            let unit = freed.insert_department(
                p.department_id,
                p.parent_id,
                p.name,
                p.purpose,
                p.unit,
                p.head.person_id(),
                p.at,
            );
            headed == (match p.head {
                HeadDecisionModel::AppointExisting { person_id } => unit.head_appointed(
                    person_id,
                    if c.people.dom().contains(person_id) {
                        Some(c.people[person_id].department_id)
                    } else {
                        None
                    },
                    p,
                ),
                HeadDecisionModel::HireNew { person_id, seed } => unit.seeded(
                    person_id,
                    p.department_id,
                    seed,
                    p.audit_reason,
                    p.at,
                ),
            })
        }),
    ensures
        headed.org() == crowned(left, p, row),
{
    let head = p.head.person_id();
    let o = crowned(left, p, row);
    lemma_org(freed);
    lemma_org(headed);
    assert(headed.org().departments =~= o.departments);
    assert forall|q: Text| #[trigger] headed.org().people.dom().contains(q) <==> o.people.dom().contains(
        q,
    ) by {
        if q != head {
            assert(freed.org().people.remove(head).dom().contains(q) <==> left.people.remove(
                head,
            ).dom().contains(q));
        }
    }
    assert forall|q: Text| #[trigger] headed.org().people.dom().contains(q) implies
        headed.org().people[q] == o.people[q] by {
        if q != head {
            assert(freed.people.dom().contains(q));
            assert(freed.org().people.remove(head)[q] == left.people.remove(head)[q]);
        }
    }
    assert(headed.org().people =~= o.people);
}

// ---------------------------------------------------------------------------
// One head to a unit
// ---------------------------------------------------------------------------

/// Whether who heads a unit belongs to it and is more than a worker.
pub open spec fn seated(o: OrgModel, d: Text) -> bool {
    let head = o.departments[d].head;
    &&& o.people.dom().contains(head)
    &&& o.people[head].department == d
    &&& o.people[head].kind != PersonKind::Worker
}

/// Whether somebody is a worker, or heads the unit they belong to.
pub open spec fn placed(o: OrgModel, p: Text) -> bool {
    o.people[p].kind != PersonKind::Worker ==> o.departments.dom().contains(
        o.people[p].department,
    ) && o.departments[o.people[p].department].head == p
}

/// Whether every unit has a head who belongs to it and is more than a worker.
pub open spec fn led(o: OrgModel) -> bool {
    forall|d: Text| #[trigger] o.departments.dom().contains(d) ==> seated(o, d)
}

/// Whether every unit has exactly one member who leads it: its head belongs to
/// it, and everybody else in it is a worker.
pub open spec fn well_led(o: OrgModel) -> bool {
    &&& led(o)
    &&& forall|p: Text| #[trigger] o.people.dom().contains(p) ==> placed(o, p)
}

/// One more worker changes nothing of who leads what.
proof fn lemma_worker_joins(
    m: ManifestModel,
    id: Text,
    department: Text,
    seed: SeedModel,
    at: Text,
)
    requires
        led(shape_of(m)),
        !m.people.dom().contains(id),
        seed.kind == PersonKind::Worker,
    ensures
        led(shape_of(with_person(m, id, department, seed, at))),
        well_led(shape_of(m)) ==> well_led(shape_of(with_person(m, id, department, seed, at))),
{
    let n = with_person(m, id, department, seed, at);
    let o = shape_of(m);
    let r = shape_of(n);
    lemma_shape(m);
    lemma_shape(n);
    assert(n.departments == m.departments);
    assert(r.departments =~= o.departments);
    assert forall|d: Text| #[trigger] r.departments.dom().contains(d) implies seated(r, d) by {
        assert(o.departments.dom().contains(d));
        assert(seated(o, d));
        assert(n.people.dom().contains(o.departments[d].head));
        assert(m.people.dom().contains(o.departments[d].head));
    }
    if well_led(o) {
        assert forall|p: Text| #[trigger] r.people.dom().contains(p) implies placed(r, p) by {
            assert(n.people.dom().contains(p));
            if p != id {
                assert(m.people.dom().contains(p));
                assert(o.people.dom().contains(p));
                assert(placed(o, p));
            }
        }
    }
}

proof fn lemma_roster_joins(
    m: ManifestModel,
    staff: Seq<StaffModel>,
    department: Text,
    at: Text,
    n: nat,
)
    requires
        led(shape_of(m)),
        n <= staff.len(),
        forall|j: int|
            0 <= j < staff.len() ==> !m.people.dom().contains((#[trigger] staff[j]).person_id)
                && staff[j].seed.kind == PersonKind::Worker,
        forall|i: int, j: int|
            0 <= i < j < staff.len() ==> (#[trigger] staff[i]).person_id != (
            #[trigger] staff[j]).person_id,
    ensures
        led(shape_of(with_roster(m, staff, department, at, n))),
        well_led(shape_of(m)) ==> well_led(shape_of(with_roster(m, staff, department, at, n))),
        with_roster(m, staff, department, at, n).departments == m.departments,
        forall|p: Text| #[trigger]
            with_roster(m, staff, department, at, n).people.dom().contains(p) ==>
                m.people.dom().contains(p) || exists|j: int|
                0 <= j < n && (#[trigger] staff[j]).person_id == p,
    decreases n,
{
    if n > 0 {
        let k = (n - 1) as nat;
        lemma_roster_joins(m, staff, department, at, k);
        let before = with_roster(m, staff, department, at, k);
        let one = staff[n - 1];
        assert(!before.people.dom().contains(one.person_id));
        lemma_worker_joins(before, one.person_id, department, one.seed, at);
        let after = with_roster(m, staff, department, at, n);
        assert forall|p: Text| #[trigger] after.people.dom().contains(p) implies
            m.people.dom().contains(p) || exists|j: int|
            0 <= j < n && (#[trigger] staff[j]).person_id == p by {
            if p == one.person_id {
                assert(staff[n - 1].person_id == p);
            } else {
                assert(before.people.dom().contains(p));
            }
        }
    }
}

/// Who an accepted roster brings is new, a worker, and named once.
proof fn lemma_roster_is_new(o: OrgModel, head: Text, staff: Seq<StaffModel>, i: int)
    requires
        roster_refusal(o, head, staff, i) is None,
        0 <= i,
    ensures
        forall|j: int|
            i <= j < staff.len() ==> !o.people.dom().contains((#[trigger] staff[j]).person_id)
                && staff[j].person_id != head && staff[j].seed.kind == PersonKind::Worker,
        forall|k: int, j: int|
            0 <= k < j && i <= j < staff.len() ==> (#[trigger] staff[k]).person_id != (
            #[trigger] staff[j]).person_id,
    decreases staff.len() - i,
{
    if i < staff.len() {
        lemma_roster_is_new(o, head, staff, i + 1);
        assert(!named_before(head, staff, i));
    }
}

/// The head decision leaves every unit that stays well led, and its head the
/// head of the new unit to be.
proof fn lemma_head_settles(m: ManifestModel, p: CreateModel, placed_at: ManifestModel)
    requires
        m.departments.dom().finite(),
        m.people.dom().finite(),
        led(shape_of(m)),
        create_refusal(shape_of(m), p) is None,
        placed_at.people == with_head(m, p).people,
        placed_at.departments.dom() == with_head(m, p).departments.dom().insert(p.department_id),
        placed_at.departments[p.department_id].head_person_id == p.head.person_id(),
        forall|d: Text| #[trigger]
            with_head(m, p).departments.dom().contains(d) && d != p.department_id
                ==> placed_at.departments[d] == with_head(m, p).departments[d],
    ensures
        led(shape_of(placed_at)),
        well_led(shape_of(m)) ==> well_led(shape_of(placed_at)),
{
    let o = shape_of(m);
    let h = with_head(m, p);
    let r = shape_of(placed_at);
    let head = p.head.person_id();
    lemma_shape(m);
    lemma_shape(h);
    lemma_shape(placed_at);
    lemma_finite_listing(o.departments.dom());
    lemma_first_where(listing(o.departments.dom()), |d: Text| o.departments[d].head == head);
    let headed = headed_by(o.departments, head);
    match p.head {
        HeadDecisionModel::AppointExisting { person_id } => {
            if let Some(unit) = headed {
                assert(seated(o, unit));
                lemma_members_but(o, unit, head);
                assert(vacancy_refusal(o, Some(unit), head, p.vacates) is None);
            }
        },
        HeadDecisionModel::HireNew { person_id, seed } => {
            assert(seed.kind == PersonKind::Head);
        },
    }
    assert forall|d: Text| #[trigger] o.departments.dom().contains(d) && headed != Some(d) implies
        o.departments[d].head != head by {
        assert(seated(o, d));
        assert(listing(o.departments.dom()).contains(d));
        if let Some(unit) = headed {
            assert(o.departments.dom().contains(unit));
            assert(seated(o, unit));
        }
    }
    assert(placed_at.people.dom().contains(head));
    assert forall|d: Text| #[trigger] r.departments.dom().contains(d) implies seated(r, d) by {
        assert(placed_at.departments.dom().contains(d));
        if d != p.department_id {
            assert(h.departments.dom().contains(d));
            assert(m.departments.dom().contains(d));
            assert(o.departments.dom().contains(d));
            assert(seated(o, d));
            assert(placed_at.people.dom().contains(r.departments[d].head));
            assert(m.people.dom().contains(r.departments[d].head));
        }
    }
    if well_led(o) {
        assert forall|x: Text| #[trigger] r.people.dom().contains(x) implies placed(r, x) by {
            assert(placed_at.people.dom().contains(x));
            if x != head {
                assert(m.people.dom().contains(x));
                assert(o.people.dom().contains(x));
                assert(placed(o, x));
                let home = o.people[x].department;
                if o.departments.dom().contains(home) {
                    assert(m.departments.dom().contains(home));
                    assert(h.departments.dom().contains(home) ==> placed_at.departments.dom().contains(
                        home,
                    ));
                }
            }
        }
    }
}

/// A projection keeps every unit led, and well led where it was.
proof fn lemma_led_on(m: ManifestModel, create: CreateModel, hire: HireModel)
    requires
        m.departments.dom().finite(),
        m.people.dom().finite(),
        led(shape_of(m)),
    ensures
        create_refusal(shape_of(m), create) is None ==> {
            let r = shape_of(with_department(m, create));
            led(r) && (well_led(shape_of(m)) ==> well_led(r))
        },
        hire_refusal(shape_of(m), hire) is None ==> {
            let r = shape_of(
                with_person(m, hire.person_id, hire.department_id, hire.seed, hire.at),
            );
            led(r) && (well_led(shape_of(m)) ==> well_led(r))
        },
{
    lemma_shape(m);
    if hire_refusal(shape_of(m), hire) is None {
        lemma_worker_joins(m, hire.person_id, hire.department_id, hire.seed, hire.at);
    }
    if create_refusal(shape_of(m), create) is None {
        let h = with_head(m, create);
        let unit = unit_placed(m, create);
        lemma_head_settles(m, create, unit);
        let head = create.head.person_id();
        lemma_roster_is_new(shape_of(m), head, create.staff, 0);
        assert forall|x: Text| #[trigger] unit.people.dom().contains(x) implies
            m.people.dom().contains(x) || x == head by {}
        lemma_roster_joins(
            unit,
            create.staff,
            create.department_id,
            create.at,
            create.staff.len(),
        );
        let all = with_roster(
            unit,
            create.staff,
            create.department_id,
            create.at,
            create.staff.len(),
        );
        let r = with_department(m, create);
        assert(shape_of(r).departments =~= shape_of(all).departments);
        assert(shape_of(r).people =~= shape_of(all).people);
    }
}

/// Where every unit of a manifest has a head who belongs to it and is more than
/// a worker, so has every unit once a unit has been created or somebody hired.
pub proof fn law_projected_units_keep_a_head(
    m: ManifestModel,
    create: CreateModel,
    hire: HireModel,
)
    requires
        m.departments.dom().finite(),
        m.people.dom().finite(),
        led(shape_of(m)),
    ensures
        create_refusal(shape_of(m), create) is None ==> led(shape_of(with_department(m, create))),
        hire_refusal(shape_of(m), hire) is None ==> led(
            shape_of(with_person(m, hire.person_id, hire.department_id, hire.seed, hire.at)),
        ),
{
    lemma_led_on(m, create, hire);
}

/// Where every unit of a manifest has exactly one member who leads it, so has
/// every unit once a unit has been created or somebody hired.
pub proof fn law_projected_units_keep_one_head(
    m: ManifestModel,
    create: CreateModel,
    hire: HireModel,
)
    requires
        m.departments.dom().finite(),
        m.people.dom().finite(),
        well_led(shape_of(m)),
    ensures
        create_refusal(shape_of(m), create) is None ==> well_led(
            shape_of(with_department(m, create)),
        ),
        hire_refusal(shape_of(m), hire) is None ==> well_led(
            shape_of(with_person(m, hire.person_id, hire.department_id, hire.seed, hire.at)),
        ),
{
    lemma_led_on(m, create, hire);
}

/// A manifest with the head decision carried out and the unit there, its
/// roster still to come.
spec fn unit_placed(m: ManifestModel, p: CreateModel) -> ManifestModel {
    let headed = with_head(m, p);
    ManifestModel {
        departments: headed.departments.insert(
            p.department_id,
            DepartmentRecordModel {
                id: p.department_id,
                name: p.name,
                purpose: p.purpose,
                kind: Some(p.unit.kind()),
                transient: p.unit.transient(),
                parent_department_id: Some(p.parent_id),
                head_person_id: p.head.person_id(),
                state: UnitState::Active,
                created_at: p.at,
                extra: Map::empty(),
            },
        ),
        department_order: headed.department_order.push(p.department_id),
        ..headed
    }
}

// ---------------------------------------------------------------------------
// What is carried along
// ---------------------------------------------------------------------------

/// Whether what a manifest holds beside its named fields stands in another as it
/// stood: on the manifest, on every unit that is in both, and on everybody, whose
/// staffing record stands too. Nobody is missing from the other.
pub open spec fn carried(m: ManifestModel, r: ManifestModel) -> bool {
    &&& r.extra == m.extra
    &&& forall|d: Text| #[trigger]
        m.departments.dom().contains(d) && r.departments.dom().contains(d)
            ==> r.departments[d].extra == m.departments[d].extra
    &&& forall|p: Text| #[trigger]
        m.people.dom().contains(p) ==> r.people.dom().contains(p) && r.people[p].extra
            == m.people[p].extra && r.people[p].staffing_history == m.people[p].staffing_history
}

/// Whether whoever a manifest adds to another has nothing beside their named
/// fields and no staffing record yet, and neither has a unit that it adds.
pub open spec fn newcomers_bare(m: ManifestModel, r: ManifestModel) -> bool {
    &&& forall|d: Text| #[trigger]
        r.departments.dom().contains(d) && !m.departments.dom().contains(d)
            ==> r.departments[d].extra == Map::<Text, Text>::empty()
    &&& forall|p: Text| #[trigger]
        r.people.dom().contains(p) && !m.people.dom().contains(p) ==> r.people[p].extra == Map::<
            Text,
            Text,
        >::empty() && r.people[p].staffing_history is None
}

proof fn lemma_roster_carries(
    m: ManifestModel,
    b: ManifestModel,
    staff: Seq<StaffModel>,
    department: Text,
    at: Text,
    n: nat,
)
    requires
        carried(m, b),
        newcomers_bare(m, b),
        n <= staff.len(),
        forall|j: int|
            0 <= j < staff.len() ==> !m.people.dom().contains((#[trigger] staff[j]).person_id),
    ensures
        carried(m, with_roster(b, staff, department, at, n)),
        newcomers_bare(m, with_roster(b, staff, department, at, n)),
    decreases n,
{
    if n > 0 {
        lemma_roster_carries(m, b, staff, department, at, (n - 1) as nat);
        assert(!m.people.dom().contains(staff[n - 1].person_id));
    }
}

/// A projection carries over whatever it does not decide: fields beside the named
/// ones, and staffing records. Whoever and whatever it adds has neither.
pub proof fn law_projections_carry_the_rest(m: ManifestModel, create: CreateModel, hire: HireModel)
    ensures
        create_refusal(shape_of(m), create) is None ==> carried(m, with_department(m, create))
            && newcomers_bare(m, with_department(m, create)),
        hire_refusal(shape_of(m), hire) is None ==> {
            let r = with_person(m, hire.person_id, hire.department_id, hire.seed, hire.at);
            carried(m, r) && newcomers_bare(m, r)
        },
{
    lemma_shape(m);
    if create_refusal(shape_of(m), create) is None {
        let unit = unit_placed(m, create);
        lemma_roster_is_new(shape_of(m), create.head.person_id(), create.staff, 0);
        assert(!m.departments.dom().contains(create.department_id));
        lemma_roster_carries(
            m,
            unit,
            create.staff,
            create.department_id,
            create.at,
            create.staff.len(),
        );
    }
}

// ---------------------------------------------------------------------------
// Asking twice
// ---------------------------------------------------------------------------

/// Whether creating a unit does away with the one it hangs from.
pub open spec fn undercuts(o: OrgModel, p: CreateModel) -> bool {
    p.head is AppointExisting && p.vacates == Some(HeadVacancyModel::Dissolve) && headed_by(
        o.departments,
        p.head.person_id(),
    ) == Some(p.parent_id)
}

/// A way up that meets no changed unit comes out as it did.
proof fn lemma_same_way(m: Map<Text, UnitModel>, n: Map<Text, UnitModel>, id: Text, k: nat)
    requires
        forall|j: nat|
            j < k ==> (#[trigger] above(m, id, j) matches Some(x) && m.dom().contains(x)
                && n.dom().contains(x) && n[x].parent == m[x].parent),
    ensures
        above(n, id, k) == above(m, id, k),
    decreases k,
{
    if k > 0 {
        lemma_same_way(m, n, id, (k - 1) as nat);
        assert(above(m, id, (k - 1) as nat) is Some);
    }
}

/// A unit runs still, if all that goes is a unit nothing hangs from, and not
/// that one.
proof fn lemma_runs_still(m: Map<Text, UnitModel>, n: Map<Text, UnitModel>, id: Text, gone: Text)
    requires
        running(m, id),
        id != gone,
        forall|d: Text| #[trigger] m.dom().contains(d) ==> m[d].parent != Some(gone),
        forall|d: Text| #[trigger]
            m.dom().contains(d) && d != gone ==> n.dom().contains(d) && n[d].parent == m[d].parent
                && n[d].state == m[d].state,
    ensures
        running(n, id),
{
    let k = choose|k: nat| #[trigger]
        above(m, id, k) is None && forall|j: nat|
            j < k ==> (#[trigger] above(m, id, j) matches Some(x) && m.dom().contains(x)
                && m[x].state == UnitState::Active);
    assert forall|j: nat| j < k implies (#[trigger] above(m, id, j) matches Some(x)
        && m.dom().contains(x) && n.dom().contains(x) && n[x].parent == m[x].parent && n[x].state
        == UnitState::Active) by {
        let x = above(m, id, j)->0;
        if j > 0 {
            let y = above(m, id, (j - 1) as nat)->0;
            assert(m.dom().contains(y));
            assert(m[y].parent == Some(x));
        }
        assert(x != gone);
    }
    lemma_same_way(m, n, id, k);
    assert forall|j: nat| j < k implies (#[trigger] above(n, id, j) matches Some(x)
        && n.dom().contains(x) && n[x].state == UnitState::Active) by {
        assert(above(m, id, j) is Some);
        lemma_same_way(m, n, id, j);
    }
    assert(above(n, id, k) is None);
}

/// Asking for the same once more is refused as a duplicate: a create for its
/// unit, a hire for its person. A create that does away with the unit it hangs
/// from is the exception: it is refused for its parent.
pub proof fn law_asking_twice_is_refused(m: ManifestModel, create: CreateModel, hire: HireModel)
    requires
        m.departments.dom().finite(),
    ensures
        create_refusal(shape_of(m), create) is None && !undercuts(shape_of(m), create)
            ==> create_refusal(shape_of(with_department(m, create)), create) == Some(
            CreateRefusalModel::DuplicateDepartmentId,
        ),
        create_refusal(shape_of(m), create) is None && undercuts(shape_of(m), create)
            ==> create_refusal(shape_of(with_department(m, create)), create) == Some(
            CreateRefusalModel::UnknownParent,
        ),
        hire_refusal(shape_of(m), hire) is None ==> hire_refusal(
            shape_of(with_person(m, hire.person_id, hire.department_id, hire.seed, hire.at)),
            hire,
        ) == Some(HireRefusalModel::DuplicatePersonId),
{
    let o = shape_of(m);
    lemma_shape(m);
    if hire_refusal(o, hire) is None {
        let n = with_person(m, hire.person_id, hire.department_id, hire.seed, hire.at);
        let r = shape_of(n);
        lemma_shape(n);
        assert(r.departments =~= o.departments);
        assert(n.people.dom().contains(hire.person_id));
        if let Some(q) = hire.requester {
            assert(manages(o, q, hire.department_id));
            assert(m.people.dom().contains(q) && n.people.dom().contains(q));
            assert(r.people[q] == o.people[q]);
        }
    }
    if create_refusal(o, create) is None {
        lemma_created_twice(m, create);
    }
}

proof fn lemma_roster_units(
    m: ManifestModel,
    staff: Seq<StaffModel>,
    department: Text,
    at: Text,
    n: nat,
)
    ensures
        with_roster(m, staff, department, at, n).departments == m.departments,
    decreases n,
{
    if n > 0 {
        lemma_roster_units(m, staff, department, at, (n - 1) as nat);
    }
}

proof fn lemma_created_twice(m: ManifestModel, p: CreateModel)
    requires
        m.departments.dom().finite(),
        create_refusal(shape_of(m), p) is None,
    ensures
        create_refusal(shape_of(with_department(m, p)), p) == Some(
            if undercuts(shape_of(m), p) {
                CreateRefusalModel::UnknownParent
            } else {
                CreateRefusalModel::DuplicateDepartmentId
            },
        ),
{
    let o = shape_of(m);
    let n = with_department(m, p);
    let r = shape_of(n);
    let head = p.head.person_id();
    lemma_shape(m);
    lemma_shape(n);
    let unit = unit_placed(m, p);
    lemma_roster_units(unit, p.staff, p.department_id, p.at, p.staff.len());
    assert(n.departments == unit.departments);
    assert(r.departments.dom().contains(p.department_id));
    assert(m.departments.dom().contains(p.parent_id));
    let headed = headed_by(o.departments, head);
    lemma_finite_listing(o.departments.dom());
    lemma_first_where(listing(o.departments.dom()), |d: Text| o.departments[d].head == head);
    if p.head is AppointExisting && p.vacates == Some(HeadVacancyModel::Dissolve)
        && headed is Some {
        let gone = headed->0;
        assert(vacancy_refusal(o, Some(gone), head, p.vacates) is None);
        lemma_those_where(
            listing(o.departments.dom()),
            |d: Text| o.departments[d].parent == Some(gone),
        );
        assert forall|d: Text| #[trigger] o.departments.dom().contains(d) implies
            o.departments[d].parent != Some(gone) by {
            if o.departments[d].parent == Some(gone) {
                assert(listing(o.departments.dom()).contains(d));
                assert(children(o.departments, gone).contains(d));
            }
        }
        assert(n.departments =~= m.departments.remove(gone).insert(
            p.department_id,
            n.departments[p.department_id],
        ));
        if gone != p.parent_id {
            assert forall|d: Text| #[trigger] o.departments.dom().contains(d) && d != gone implies
                r.departments.dom().contains(d) && r.departments[d].parent
                == o.departments[d].parent && r.departments[d].state == o.departments[d].state by {
                assert(m.departments.dom().contains(d) && n.departments.dom().contains(d));
            }
            lemma_runs_still(o.departments, r.departments, p.parent_id, gone);
        } else {
            assert(p.department_id != p.parent_id);
            assert(!n.departments.dom().contains(p.parent_id));
        }
    } else {
        assert forall|d: Text| #[trigger] o.departments.dom().contains(d) implies
            r.departments.dom().contains(d) && r.departments[d].parent == o.departments[d].parent
            && r.departments[d].state == o.departments[d].state by {
            assert(m.departments.dom().contains(d) && n.departments.dom().contains(d));
        }
        lemma_runs_kept(o.departments, r.departments, p.parent_id);
    }
}

/// A unit runs still, where no unit goes.
proof fn lemma_runs_kept(m: Map<Text, UnitModel>, n: Map<Text, UnitModel>, id: Text)
    requires
        running(m, id),
        forall|d: Text| #[trigger]
            m.dom().contains(d) ==> n.dom().contains(d) && n[d].parent == m[d].parent && n[d].state
                == m[d].state,
    ensures
        running(n, id),
{
    let k = choose|k: nat| #[trigger]
        above(m, id, k) is None && forall|j: nat|
            j < k ==> (#[trigger] above(m, id, j) matches Some(x) && m.dom().contains(x)
                && m[x].state == UnitState::Active);
    lemma_same_way(m, n, id, k);
    assert forall|j: nat| j < k implies (#[trigger] above(n, id, j) matches Some(x)
        && n.dom().contains(x) && n[x].state == UnitState::Active) by {
        assert(above(m, id, j) is Some);
        lemma_same_way(m, n, id, j);
    }
    assert(above(n, id, k) is None);
}

} // verus!
