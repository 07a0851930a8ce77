//! What the row changes that go through a list of rows leave as it was.

use vstd::prelude::*;

use crate::company::{CompanyModel, DepartmentModel, PersonModel};
use crate::org_ops::decisions::StaffModel;
use crate::org_ops::seeds::SeedModel;
use crate::organization::{EmploymentState, PersonKind};
use crate::text::Text;

verus! {

/// Whether `b` begins with `a`.
pub open spec fn begins<A>(a: Seq<A>, b: Seq<A>) -> bool {
    &&& a.len() <= b.len()
    &&& forall|i: int| 0 <= i < a.len() ==> #[trigger] a[i] == b[i]
}

/// Whether the two hold the same transitions, activity and start decisions.
pub open spec fn same_ledger(a: CompanyModel, b: CompanyModel) -> bool {
    &&& a.transitions == b.transitions
    &&& a.activity == b.activity
    &&& a.fences == b.fences
    &&& a.transition_seq == b.transition_seq
    &&& a.quiesce_since == b.quiesce_since
}

/// Whether the two hold the same history, and the same of everything that no
/// row change touches.
pub open spec fn same_past(a: CompanyModel, b: CompanyModel) -> bool {
    &&& a.staffing == b.staffing
    &&& same_surroundings(a, b)
}

/// Whether the two hold the same of everything that no row change touches.
pub open spec fn same_surroundings(a: CompanyModel, b: CompanyModel) -> bool {
    &&& a.slug == b.slug
    &&& a.settings == b.settings
    &&& a.activity_ledger == b.activity_ledger
    &&& a.stood_down == b.stood_down
    &&& a.event_base == b.event_base
    &&& a.events == b.events
}

/// Whether a unit's row is as it was, but for its place.
pub open spec fn replaced_unit(a: DepartmentModel, b: DepartmentModel) -> bool {
    b == DepartmentModel { ordinal: b.ordinal, updated_at: b.updated_at, ..a }
}

/// Whether somebody's row is as it was, but for their place.
pub open spec fn replaced_person(a: PersonModel, b: PersonModel) -> bool {
    b == PersonModel { ordinal: b.ordinal, updated_at: b.updated_at, ..a }
}

/// Whether somebody's row is as it was, but for their home, which is now
/// `home`.
pub open spec fn rehomed(a: PersonModel, b: PersonModel, home: Text) -> bool {
    b == PersonModel { department_id: home, updated_at: b.updated_at, ..a }
}

/// Numbering units changes their places and nothing else.
pub proof fn lemma_number_departments(c: CompanyModel, order: Seq<Text>, at: Text)
    ensures
        same_past(c, c.number_departments(order, at)),
        same_ledger(c, c.number_departments(order, at)),
        c.number_departments(order, at).people == c.people,
        c.number_departments(order, at).departments.dom() == c.departments.dom(),
        c.number_departments(order, at).org() == c.org(),
        forall|d: Text| #[trigger]
            c.departments.dom().contains(d) ==> replaced_unit(
                c.departments[d],
                c.number_departments(order, at).departments[d],
            ),
        forall|d: Text|
            c.departments.dom().contains(d) && !order.contains(d)
                ==> #[trigger] c.number_departments(order, at).departments[d] == c.departments[d],
        order.no_duplicates() ==> forall|i: int|
            0 <= i < order.len() && c.departments.dom().contains(#[trigger] order[i])
                ==> c.number_departments(order, at).departments[order[i]].ordinal == i as u64,
    decreases order.len(),
{
    let r = c.number_departments(order, at);
    if order.len() > 0 {
        let front = order.drop_last();
        let x = order.last();
        lemma_number_departments(c, front, at);
        assert forall|d: Text| c.departments.dom().contains(d) && !order.contains(d) implies
            #[trigger] r.departments[d] == c.departments[d] by {
            if front.contains(d) {
                let i = choose|i: int| 0 <= i < front.len() && front[i] == d;
                assert(order[i] == d);
            }
            assert(order[order.len() - 1] == x);
        }
        if order.no_duplicates() {
            assert(front.no_duplicates());
            assert forall|i: int|
                0 <= i < order.len() && c.departments.dom().contains(#[trigger] order[i]) implies
                r.departments[order[i]].ordinal == i as u64 by {
                if i < order.len() - 1 {
                    assert(front[i] == order[i]);
                    assert(order[i] != x);
                }
            }
        }
        assert(r.departments.dom() =~= c.departments.dom());
    }
    assert(r.org().departments =~= c.org().departments);
    assert(r.org().people =~= c.org().people);
}

/// Numbering people changes their places and nothing else.
pub proof fn lemma_number_people(c: CompanyModel, order: Seq<Text>, at: Text)
    ensures
        same_past(c, c.number_people(order, at)),
        same_ledger(c, c.number_people(order, at)),
        c.number_people(order, at).departments == c.departments,
        c.number_people(order, at).people.dom() == c.people.dom(),
        c.number_people(order, at).org() == c.org(),
        forall|p: Text| #[trigger]
            c.people.dom().contains(p) ==> replaced_person(
                c.people[p],
                c.number_people(order, at).people[p],
            ),
        forall|p: Text|
            c.people.dom().contains(p) && !order.contains(p)
                ==> #[trigger] c.number_people(order, at).people[p] == c.people[p],
        order.no_duplicates() ==> forall|i: int|
            0 <= i < order.len() && c.people.dom().contains(#[trigger] order[i])
                ==> c.number_people(order, at).people[order[i]].ordinal == i as u64,
    decreases order.len(),
{
    let r = c.number_people(order, at);
    if order.len() > 0 {
        let front = order.drop_last();
        let x = order.last();
        lemma_number_people(c, front, at);
        assert forall|p: Text| c.people.dom().contains(p) && !order.contains(p) implies
            #[trigger] r.people[p] == c.people[p] by {
            if front.contains(p) {
                let i = choose|i: int| 0 <= i < front.len() && front[i] == p;
                assert(order[i] == p);
            }
            assert(order[order.len() - 1] == x);
        }
        if order.no_duplicates() {
            assert(front.no_duplicates());
            assert forall|i: int|
                0 <= i < order.len() && c.people.dom().contains(#[trigger] order[i]) implies
                r.people[order[i]].ordinal == i as u64 by {
                if i < order.len() - 1 {
                    assert(front[i] == order[i]);
                    assert(order[i] != x);
                }
            }
        }
        assert(r.people.dom() =~= c.people.dom());
    }
    assert(r.org().departments =~= c.org().departments);
    assert(r.org().people =~= c.org().people);
}

/// Re-homing moves the residents but the leaver, and nobody else.
pub proof fn lemma_rehome(
    c: CompanyModel,
    residents: Seq<Text>,
    leaver: Text,
    from: Text,
    to: Text,
    reason: Text,
    at: Text,
)
    ensures
        same_surroundings(c, c.rehome(residents, leaver, from, to, reason, at)),
        same_ledger(c, c.rehome(residents, leaver, from, to, reason, at)),
        begins(c.staffing, c.rehome(residents, leaver, from, to, reason, at).staffing),
        c.rehome(residents, leaver, from, to, reason, at).departments == c.departments,
        c.rehome(residents, leaver, from, to, reason, at).people.dom() == c.people.dom(),
        forall|p: Text| #[trigger]
            c.people.dom().contains(p) ==> if residents.contains(p) && p != leaver {
                rehomed(
                    c.people[p],
                    c.rehome(residents, leaver, from, to, reason, at).people[p],
                    to,
                )
            } else {
                c.rehome(residents, leaver, from, to, reason, at).people[p] == c.people[p]
            },
    decreases residents.len(),
{
    let r = c.rehome(residents, leaver, from, to, reason, at);
    if residents.len() > 0 {
        let front = residents.drop_last();
        let x = residents.last();
        lemma_rehome(c, front, leaver, from, to, reason, at);
        assert(r.people.dom() =~= c.people.dom());
        lemma_with_last(residents);
    }
}

/// A list has its last member and those before it.
pub proof fn lemma_with_last<A>(q: Seq<A>)
    requires
        q.len() > 0,
    ensures
        forall|x: A| #[trigger] q.contains(x) <==> q.drop_last().contains(x) || x == q.last(),
{
    assert forall|x: A| #[trigger] q.contains(x) <==> q.drop_last().contains(x) || x
        == q.last() by {
        if q.contains(x) {
            let i = choose|i: int| 0 <= i < q.len() && q[i] == x;
            if i < q.len() - 1 {
                assert(q.drop_last()[i] == x);
            }
        }
        if q.drop_last().contains(x) {
            let i = choose|i: int| 0 <= i < q.drop_last().len() && q.drop_last()[i] == x;
            assert(q[i] == x);
        }
        assert(q[q.len() - 1] == q.last());
    }
}

/// Moving a set of people moves them and nobody else.
pub proof fn lemma_move_all(
    c: CompanyModel,
    people: Seq<Text>,
    destination: Text,
    intent: Text,
    reason: Text,
    adopt: bool,
    at: Text,
)
    ensures
        same_surroundings(c, c.move_all(people, destination, intent, reason, adopt, at)),
        begins(c.staffing, c.move_all(people, destination, intent, reason, adopt, at).staffing),
        c.move_all(people, destination, intent, reason, adopt, at).departments == c.departments,
        c.move_all(people, destination, intent, reason, adopt, at).fences == c.fences,
        c.move_all(people, destination, intent, reason, adopt, at).transition_seq
            == c.transition_seq,
        c.move_all(people, destination, intent, reason, adopt, at).people.dom() == c.people.dom(),
        forall|p: Text| #[trigger]
            c.people.dom().contains(p) ==> if people.contains(p) {
                rehomed(
                    c.people[p],
                    c.move_all(people, destination, intent, reason, adopt, at).people[p],
                    destination,
                )
            } else {
                c.move_all(people, destination, intent, reason, adopt, at).people[p] == c.people[p]
            },
    decreases people.len(),
{
    let r = c.move_all(people, destination, intent, reason, adopt, at);
    if people.len() > 0 {
        lemma_move_all(c, people.drop_last(), destination, intent, reason, adopt, at);
        assert(r.people.dom() =~= c.people.dom());
        lemma_with_last(people);
    }
}

/// The row a seed makes.
pub open spec fn seeded_row(row: PersonModel, seed: SeedModel, home: Text) -> bool {
    &&& row.kind == seed.kind
    &&& row.employment_state == seed.employment_state
    &&& row.department_id == home
}

/// Who the first of a roster with this id is.
pub open spec fn seeds(staff: Seq<StaffModel>, p: Text) -> bool {
    exists|i: int| 0 <= i < staff.len() && #[trigger] staff[i].person_id == p
}

/// Seeding a roster adds its people at home in the unit and changes nobody
/// else.
pub proof fn lemma_seeded_all(
    c: CompanyModel,
    staff: Seq<StaffModel>,
    department: Text,
    reason: Text,
    at: Text,
)
    ensures
        same_surroundings(c, c.seeded_all(staff, department, reason, at)),
        begins(c.staffing, c.seeded_all(staff, department, reason, at).staffing),
        c.seeded_all(staff, department, reason, at).departments == c.departments,
        c.seeded_all(staff, department, reason, at).transitions == c.transitions,
        c.seeded_all(staff, department, reason, at).transition_seq == c.transition_seq,
        forall|p: Text| #[trigger]
            c.seeded_all(staff, department, reason, at).people.dom().contains(p) <==>
                c.people.dom().contains(p) || seeds(staff, p),
        forall|p: Text|
            !seeds(staff, p) ==> #[trigger] c.seeded_all(staff, department, reason, at).people[p]
                == c.people[p],
        forall|p: Text|
            seeds(staff, p) ==> #[trigger] c.seeded_all(
                staff,
                department,
                reason,
                at,
            ).people[p].department_id == department && exists|i: int|
                0 <= i < staff.len() && #[trigger] staff[i].person_id == p && seeded_row(
                    c.seeded_all(staff, department, reason, at).people[p],
                    staff[i].seed,
                    department,
                ),
    decreases staff.len(),
{
    let r = c.seeded_all(staff, department, reason, at);
    if staff.len() > 0 {
        let front = staff.drop_last();
        let x = staff.last();
        lemma_seeded_all(c, front, department, reason, at);
        let before = c.seeded_all(front, department, reason, at);
        assert forall|p: Text| seeds(staff, p) <==> #[trigger] seeds(front, p) || p
            == x.person_id by {
            if seeds(staff, p) {
                let i = choose|i: int| 0 <= i < staff.len() && #[trigger] staff[i].person_id == p;
                if i < staff.len() - 1 {
                    assert(front[i].person_id == p);
                }
            }
            if seeds(front, p) {
                let i = choose|i: int| 0 <= i < front.len() && #[trigger] front[i].person_id == p;
                assert(staff[i].person_id == p);
            }
            assert(staff[staff.len() - 1].person_id == x.person_id);
        }
        assert forall|p: Text| seeds(staff, p) implies #[trigger] r.people[p].department_id
            == department && exists|i: int|
            0 <= i < staff.len() && #[trigger] staff[i].person_id == p && seeded_row(
                r.people[p],
                staff[i].seed,
                department,
            ) by {
            if p == x.person_id {
                assert(staff[staff.len() - 1].person_id == p);
                assert(seeded_row(r.people[p], staff[staff.len() - 1].seed, department));
            } else {
                assert(seeds(front, p));
                assert(before.people[p].department_id == department);
                let i = choose|i: int|
                    0 <= i < front.len() && #[trigger] front[i].person_id == p && seeded_row(
                        before.people[p],
                        front[i].seed,
                        department,
                    );
                assert(staff[i].person_id == p);
            }
        }
        assert forall|p: Text| #[trigger] r.people.dom().contains(p) <==> c.people.dom().contains(p)
            || seeds(staff, p) by {
            assert(before.people.dom().contains(p) <==> c.people.dom().contains(p) || seeds(
                front,
                p,
            ));
        }
        assert forall|p: Text| !seeds(staff, p) implies #[trigger] r.people[p] == c.people[p] by {
            assert(!seeds(front, p));
            assert(before.people[p] == c.people[p]);
        }
    } else {
        assert forall|p: Text| !#[trigger] seeds(staff, p) by {}
    }
}

/// A sweep changes transitions, activity and start decisions, and nothing
/// else.
pub proof fn lemma_swept_all(
    c: CompanyModel,
    members: Seq<Text>,
    ceo: Option<Text>,
    department: Text,
    at: Text,
)
    ensures
        same_past(c, c.swept_all(members, ceo, department, at)),
        c.swept_all(members, ceo, department, at).departments == c.departments,
        c.swept_all(members, ceo, department, at).people == c.people,
    decreases members.len(),
{
    if members.len() > 0 {
        lemma_swept_all(c, members.drop_last(), ceo, department, at);
    }
}

/// Whether a unit's row is as it was, but for its state.
pub open spec fn flipped_unit(a: DepartmentModel, b: DepartmentModel) -> bool {
    b == DepartmentModel { state: b.state, updated_at: b.updated_at, ..a }
}

/// Resuming units changes their state and nothing else.
pub proof fn lemma_resume_all(c: CompanyModel, departments: Seq<Text>, at: Text)
    ensures
        same_past(c, c.resume_all(departments, at)),
        same_ledger(c, c.resume_all(departments, at)),
        c.resume_all(departments, at).people == c.people,
        c.resume_all(departments, at).departments.dom() == c.departments.dom(),
        forall|d: Text| #[trigger]
            c.departments.dom().contains(d) ==> flipped_unit(
                c.departments[d],
                c.resume_all(departments, at).departments[d],
            ),
    decreases departments.len(),
{
    if departments.len() > 0 {
        lemma_resume_all(c, departments.drop_last(), at);
        assert(c.resume_all(departments, at).departments.dom() =~= c.departments.dom());
    }
}

/// Whether somebody's row is that of somebody who left with their unit and
/// rests in another.
pub open spec fn left_row(a: PersonModel, b: PersonModel, rests: Text) -> bool {
    b == PersonModel {
        kind: if a.kind == PersonKind::Head {
            PersonKind::Worker
        } else {
            a.kind
        },
        employment_state: EmploymentState::Departed,
        department_id: rests,
        updated_at: b.updated_at,
        ..a
    }
}

/// Those who leave with their unit depart and rest in another; nobody else
/// does.
pub proof fn lemma_left_behind_all(
    c: CompanyModel,
    people: Seq<Text>,
    rests: Text,
    reason: Text,
    at: Text,
)
    ensures
        same_surroundings(c, c.left_behind_all(people, rests, reason, at)),
        begins(c.staffing, c.left_behind_all(people, rests, reason, at).staffing),
        c.left_behind_all(people, rests, reason, at).departments == c.departments,
        c.left_behind_all(people, rests, reason, at).transition_seq == c.transition_seq,
        c.left_behind_all(people, rests, reason, at).people.dom() == c.people.dom(),
        forall|p: Text| #[trigger]
            c.people.dom().contains(p) ==> if people.contains(p) {
                left_row(
                    c.people[p],
                    c.left_behind_all(people, rests, reason, at).people[p],
                    rests,
                )
            } else {
                c.left_behind_all(people, rests, reason, at).people[p] == c.people[p]
            },
    decreases people.len(),
{
    let r = c.left_behind_all(people, rests, reason, at);
    if people.len() > 0 {
        lemma_left_behind_all(c, people.drop_last(), rests, reason, at);
        lemma_with_last(people);
        assert(r.people.dom() =~= c.people.dom());
    }
}

/// Deleting units deletes them and nothing else.
pub proof fn lemma_delete_departments(c: CompanyModel, departments: Seq<Text>)
    ensures
        same_past(c, c.delete_departments(departments)),
        same_ledger(c, c.delete_departments(departments)),
        c.delete_departments(departments).people == c.people,
        forall|d: Text| #[trigger]
            c.delete_departments(departments).departments.dom().contains(d) <==>
                c.departments.dom().contains(d) && !departments.contains(d),
        forall|d: Text|
            c.departments.dom().contains(d) && !departments.contains(d)
                ==> #[trigger] c.delete_departments(departments).departments[d]
                == c.departments[d],
    decreases departments.len(),
{
    if departments.len() > 0 {
        lemma_delete_departments(c, departments.drop_last());
        lemma_with_last(departments);
    }
}

/// Retracting changes who is wanted up and nothing else.
pub proof fn lemma_retract_in(c: CompanyModel, people: Seq<Text>, keep: Text, at: Text)
    ensures
        same_past(c, c.retract_in(people, keep, at)),
        c.retract_in(people, keep, at).departments == c.departments,
        c.retract_in(people, keep, at).people == c.people,
        c.retract_in(people, keep, at).transitions == c.transitions,
        c.retract_in(people, keep, at).transition_seq == c.transition_seq,
        c.retract_in(people, keep, at).fences == c.fences,
        c.retract_in(people, keep, at).quiesce_since == c.quiesce_since,
        c.retract_in(people, keep, at).activity.dom() == c.activity.dom(),
        forall|p: Text| #[trigger]
            c.activity.dom().contains(p) ==> c.retract_in(
                people,
                keep,
                at,
            ).activity[p].active_transition_id == c.activity[p].active_transition_id,
        forall|p: Text| #[trigger]
            c.activity.dom().contains(p) ==> c.retract_in(
                people,
                keep,
                at,
            ).activity[p].last_desired_active == (c.activity[p].last_desired_active && (p == keep
                || !people.contains(p))),
        c.activity.dom().contains(keep) ==> c.retract_in(people, keep, at).activity[keep]
            == c.activity[keep],
    decreases people.len(),
{
    if people.len() > 0 {
        lemma_retract_in(c, people.drop_last(), keep, at);
        lemma_with_last(people);
        assert(c.retract_in(people, keep, at).activity.dom() =~= c.activity.dom());
    }
}

/// Clearing start decisions takes those of the people named, but for one, and
/// nothing else.
pub proof fn lemma_clear_fences_in(c: CompanyModel, people: Seq<Text>, keep: Text)
    ensures
        same_past(c, c.clear_fences_in(people, keep)),
        c.clear_fences_in(people, keep).departments == c.departments,
        c.clear_fences_in(people, keep).people == c.people,
        c.clear_fences_in(people, keep).transitions == c.transitions,
        c.clear_fences_in(people, keep).transition_seq == c.transition_seq,
        c.clear_fences_in(people, keep).activity == c.activity,
        c.clear_fences_in(people, keep).quiesce_since == c.quiesce_since,
        forall|p: Text| #[trigger]
            c.clear_fences_in(people, keep).fences.dom().contains(p) <==>
                c.fences.dom().contains(p) && (p == keep || !people.contains(p)),
    decreases people.len(),
{
    if people.len() > 0 {
        lemma_clear_fences_in(c, people.drop_last(), keep);
        lemma_with_last(people);
    }
}

} // verus!
