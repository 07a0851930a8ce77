//! What the rows say once people have come or moved, or a unit has.

use vstd::prelude::*;

use crate::company::{
    ActivityModel, CompanyModel, DepartmentModel, PersonModel, StaffingAction, TransitionAction,
};
use crate::laws::frames::{
    lemma_move_all, lemma_number_departments, lemma_number_people, lemma_with_last,
};
use crate::laws::ledger::lemma_open_transition;
use crate::laws::outcomes::{
    gave_way, given_way, known_of, law_what_is_open, lifecycle_kept, line, open_for, rest_kept,
};
use crate::org_ops::guards::ledger_line;
use crate::org_projection::HireModel;
use crate::organization::EmploymentState;
use crate::text::{text_lt, Text};

verus! {

// ---------------------------------------------------------------------------
// Places
// ---------------------------------------------------------------------------

/// Whether somebody's row is as it was, or has another place and the clock of the
/// change.
pub open spec fn shifted(a: PersonModel, b: PersonModel, at: Text) -> bool {
    b == a || b == PersonModel { ordinal: b.ordinal, updated_at: at, ..a }
}

/// Whether a unit's row is as it was, or has another place and the clock of the
/// change.
pub open spec fn shifted_unit(a: DepartmentModel, b: DepartmentModel, at: Text) -> bool {
    b == a || b == DepartmentModel { ordinal: b.ordinal, updated_at: at, ..a }
}

/// Numbering people shifts their rows.
pub proof fn lemma_people_shift(c: CompanyModel, order: Seq<Text>, at: Text)
    ensures
        c.number_people(order, at).people.dom() == c.people.dom(),
        forall|p: Text| #[trigger]
            c.people.dom().contains(p) ==> shifted(
                c.people[p],
                c.number_people(order, at).people[p],
                at,
            ),
    decreases order.len(),
{
    lemma_number_people(c, order, at);
    if order.len() > 0 {
        lemma_people_shift(c, order.drop_last(), at);
    }
}

/// Numbering units shifts their rows.
pub proof fn lemma_units_shift(c: CompanyModel, order: Seq<Text>, at: Text)
    ensures
        c.number_departments(order, at).departments.dom() == c.departments.dom(),
        forall|d: Text| #[trigger]
            c.departments.dom().contains(d) ==> shifted_unit(
                c.departments[d],
                c.number_departments(order, at).departments[d],
                at,
            ),
    decreases order.len(),
{
    lemma_number_departments(c, order, at);
    if order.len() > 0 {
        lemma_units_shift(c, order.drop_last(), at);
    }
}

/// Whether everybody but those of a set is as they were, but for their places.
pub open spec fn others_kept(c: CompanyModel, r: CompanyModel, but: Set<Text>, at: Text) -> bool {
    forall|p: Text| #[trigger]
        c.people.dom().contains(p) && !but.contains(p) ==> r.people.dom().contains(p) && shifted(
            c.people[p],
            r.people[p],
            at,
        )
}

/// Whether every unit but those of a set is as it was, but for its place.
pub open spec fn other_units_kept(
    c: CompanyModel,
    r: CompanyModel,
    but: Set<Text>,
    at: Text,
) -> bool {
    forall|d: Text| #[trigger]
        c.departments.dom().contains(d) && !but.contains(d) ==> r.departments.dom().contains(d)
            && shifted_unit(c.departments[d], r.departments[d], at)
}

// ---------------------------------------------------------------------------
// Coming
// ---------------------------------------------------------------------------

/// Hiring somebody writes a row that says of them all that the seed does, in the
/// unit they land in; an activity that does not want them up; one line of history;
/// and, where they are at work and the company is not stood down, that they are to
/// be started. Everybody else and every unit stay as they were.
pub proof fn law_what_hiring_writes(c: CompanyModel, p: HireModel, actor: Text)
    ensures
        ({
            let r = c.hired(p, actor);
            let id = p.person_id;
            let at = p.at;
            &&& r.departments == c.departments
            &&& r.people.dom() == c.people.dom().insert(id)
            &&& r.people[id] == PersonModel {
                name: p.seed.name,
                title: p.seed.title,
                mandate: p.seed.mandate,
                kind: p.seed.kind,
                employment_state: p.seed.employment_state,
                department_id: p.department_id,
                activation: p.seed.activation,
                tools: p.seed.tools,
                prompts: p.seed.prompts,
                ordinal: r.people[id].ordinal,
                created_at: at,
                updated_at: at,
            }
            &&& others_kept(c, r, set![id], at)
            &&& r.staffing == c.staffing.push(
                line(
                    id,
                    StaffingAction::Hired,
                    None,
                    Some(p.department_id),
                    "hired "@ + id + " into "@ + p.department_id,
                    at,
                ),
            )
            &&& r.fences.dom() == if p.seed.employment_state == EmploymentState::Active
                && !c.stood_down {
                c.fences.dom().insert(id)
            } else {
                c.fences.dom()
            }
            &&& r.activity == c.activity.insert(
                id,
                ActivityModel {
                    last_desired_active: false,
                    last_operational: true,
                    last_department_id: Some(p.department_id),
                    last_employment_state: Some(p.seed.employment_state),
                    active_transition_id: None,
                    updated_at: at,
                    ..known_of(c, id)
                },
            )
            &&& r.transitions == c.transitions
            &&& r.transition_seq == c.transition_seq
            &&& r.quiesce_since == c.quiesce_since
            &&& rest_kept(c, r)
        }),
{
    let there = c.seeded(
        p.person_id,
        p.department_id,
        p.seed,
        "hired "@ + p.person_id + " into "@ + p.department_id,
        p.at,
    );
    let r = c.hired(p, actor);
    lemma_number_people(there, there.people_order(), p.at);
    lemma_people_shift(there, there.people_order(), p.at);
    assert(there.people.dom() =~= c.people.dom().insert(p.person_id));
    assert(there.people.dom().contains(p.person_id));
    assert(r.fences.dom() =~= if p.seed.employment_state == EmploymentState::Active
        && !c.stood_down {
        c.fences.dom().insert(p.person_id)
    } else {
        c.fences.dom()
    });
    assert(r.activity =~= c.activity.insert(p.person_id, r.activity[p.person_id]));
    assert forall|q: Text| #[trigger] c.people.dom().contains(q) && q != p.person_id implies
        r.people.dom().contains(q) && shifted(c.people[q], r.people[q], p.at) by {
        assert(there.people.dom().contains(q));
    }
}

// ---------------------------------------------------------------------------
// Units
// ---------------------------------------------------------------------------

/// Hanging a unit beneath another writes what it hangs from, and places. Nothing
/// of it but that changes, its state and its head among it, and nothing else of
/// the company does.
pub proof fn law_what_hanging_writes(
    c: CompanyModel,
    department: Text,
    parent: Text,
    at: Text,
    actor: Text,
)
    requires
        c.departments.dom().contains(department),
    ensures
        ({
            let r = c.reparented(department, parent, at, actor);
            &&& r.departments.dom() == c.departments.dom()
            &&& r.departments[department] == DepartmentModel {
                parent_id: Some(parent),
                ordinal: r.departments[department].ordinal,
                updated_at: at,
                ..c.departments[department]
            }
            &&& other_units_kept(c, r, set![department], at)
            &&& r.people.dom() == c.people.dom()
            &&& others_kept(c, r, Set::empty(), at)
            &&& r.staffing == c.staffing
            &&& lifecycle_kept(c, r)
            &&& rest_kept(c, r)
        }),
{
    let r = c.reparented(department, parent, at, actor);
    let hung = c.set_parent(department, parent, at);
    lemma_number_departments(hung, hung.department_order(), at);
    lemma_units_shift(hung, hung.department_order(), at);
    let ordered = hung.refresh_department_order(at);
    lemma_number_people(ordered, ordered.people_order(), at);
    lemma_people_shift(ordered, ordered.people_order(), at);
    assert(hung.departments.dom() =~= c.departments.dom());
    assert(hung.departments.dom().contains(department));
    assert forall|d: Text| #[trigger] c.departments.dom().contains(d) && d != department implies
        r.departments.dom().contains(d) && shifted_unit(
        c.departments[d],
        r.departments[d],
        at,
    ) by {
        assert(hung.departments.dom().contains(d));
    }
    assert forall|q: Text| #[trigger] c.people.dom().contains(q) implies r.people.dom().contains(q)
        && shifted(c.people[q], r.people[q], at) by {
        assert(ordered.people.dom().contains(q));
    }
}

// ---------------------------------------------------------------------------
// Moving
// ---------------------------------------------------------------------------

/// Whether somebody's activity let go of their open transition, if it pointed at
/// it, and everybody else's is as it was.
pub open spec fn let_go(c: CompanyModel, r: CompanyModel, person: Text, at: Text) -> bool {
    &&& r.activity.dom() == c.activity.dom()
    &&& forall|p: Text| #[trigger]
        c.activity.dom().contains(p) ==> r.activity[p] == if p == person
            && c.activity[p].active_transition_id is Some
            && c.activity[p].active_transition_id == c.open_transition(person) {
            ActivityModel { active_transition_id: None, updated_at: at, ..c.activity[p] }
        } else {
            c.activity[p]
        }
}

/// A person who comes to a unit, at work or on the bench, has their home written
/// and one line of history; their open transition gives way, unless it is the
/// released one that this very move waits for.
pub proof fn law_what_a_move_writes(
    c: CompanyModel,
    person: Text,
    destination: Text,
    intent: Text,
    reason: Text,
    adopt: bool,
    at: Text,
)
    requires
        c.finite(),
        c.people.dom().contains(person),
    ensures
        ({
            let r = c.move_one(person, destination, intent, reason, adopt, at);
            let row = c.people[person];
            let adopted = adopt && c.ready_transition(person, TransitionAction::Transfer) is Some;
            &&& r.departments == c.departments
            &&& r.people == c.people.insert(
                person,
                PersonModel { department_id: destination, updated_at: at, ..row },
            )
            &&& r.staffing == c.staffing.push(
                line(
                    person,
                    StaffingAction::Transferred,
                    Some(row.department_id),
                    Some(destination),
                    reason,
                    at,
                ),
            )
            &&& adopted ==> r.transitions == c.transitions && r.activity == c.activity
            &&& !adopted ==> r.transitions.dom() == c.transitions.dom() && gave_way(
                c,
                r,
                person,
                "superseded-by-transfer:"@ + intent,
                at,
            ) && let_go(c, r, person, at)
            &&& r.fences == c.fences
            &&& r.transition_seq == c.transition_seq
            &&& r.quiesce_since == c.quiesce_since
            &&& rest_kept(c, r)
        }),
{
    let r = c.move_one(person, destination, intent, reason, adopt, at);
    lemma_open_transition(c, person);
    assert(r.transitions.dom() =~= c.transitions.dom());
    assert(r.activity.dom() =~= c.activity.dom());
}

/// A transfer of somebody who heads nothing writes what a move does, under a line
/// that says who transferred them, and nothing more but places.
pub proof fn law_what_a_transfer_writes(
    c: CompanyModel,
    person: Text,
    destination: Text,
    intent: Text,
    at: Text,
    actor: Text,
)
    requires
        c.finite(),
        c.people.dom().contains(person),
    ensures
        ({
            let r = c.transferred(person, destination, intent, at, actor, None);
            let row = c.people[person];
            let adopted = c.ready_transition(person, TransitionAction::Transfer) is Some;
            &&& r.departments == c.departments
            &&& r.people.dom() == c.people.dom()
            &&& r.people[person] == PersonModel {
                department_id: destination,
                ordinal: r.people[person].ordinal,
                updated_at: at,
                ..row
            }
            &&& others_kept(c, r, set![person], at)
            &&& r.staffing == c.staffing.push(
                line(
                    person,
                    StaffingAction::Transferred,
                    Some(row.department_id),
                    Some(destination),
                    ledger_line("transferred"@, actor),
                    at,
                ),
            )
            &&& adopted ==> r.transitions == c.transitions && r.activity == c.activity
            &&& !adopted ==> r.transitions.dom() == c.transitions.dom() && gave_way(
                c,
                r,
                person,
                "superseded-by-transfer:"@ + intent,
                at,
            ) && let_go(c, r, person, at)
            &&& r.fences == c.fences
            &&& r.transition_seq == c.transition_seq
            &&& r.quiesce_since == c.quiesce_since
            &&& rest_kept(c, r)
        }),
{
    let reason = ledger_line("transferred"@, actor);
    let r = c.transferred(person, destination, intent, at, actor, None);
    law_what_a_move_writes(c, person, destination, intent, reason, true, at);
    lemma_one_moves(c, person, destination, intent, reason, true, at);
    let moved = c.move_one(person, destination, intent, reason, true, at);
    lemma_number_people(moved, moved.people_order(), at);
    lemma_people_shift(moved, moved.people_order(), at);
    assert(moved.people.dom() =~= c.people.dom());
    assert(moved.people.dom().contains(person));
    assert forall|q: Text| #[trigger] c.people.dom().contains(q) && q != person implies
        r.people.dom().contains(q) && shifted(c.people[q], r.people[q], at) by {
        assert(moved.people.dom().contains(q));
    }
}

/// Moving one person is moving a set of one.
pub proof fn lemma_one_moves(
    c: CompanyModel,
    person: Text,
    destination: Text,
    intent: Text,
    reason: Text,
    adopt: bool,
    at: Text,
)
    ensures
        c.move_all(seq![person], destination, intent, reason, adopt, at) == c.move_one(
            person,
            destination,
            intent,
            reason,
            adopt,
            at,
        ),
{
    let q = seq![person];
    assert(q.drop_last() =~= Seq::empty());
    assert(q.last() == person);
    reveal_with_fuel(CompanyModel::move_all, 2);
}

/// What is open for somebody rests on what is theirs alone.
proof fn lemma_same_open(a: CompanyModel, b: CompanyModel, p: Text)
    requires
        a.finite(),
        b.finite(),
        forall|t: Text| open_for(a, p, t) <==> #[trigger] open_for(b, p, t),
    ensures
        a.open_transition(p) == b.open_transition(p),
{
    match a.open_transition(p) {
        Some(t) => {
            law_what_is_open(a, p, TransitionAction::Park, t);
            law_what_is_open(b, p, TransitionAction::Park, t);
            assert(open_for(b, p, t));
            assert forall|s: Text| #[trigger] open_for(b, p, s) && s != t implies text_lt(
                t,
                s,
            ) by {
                assert(open_for(a, p, s));
            }
        },
        None => {
            law_what_is_open(a, p, TransitionAction::Park, p);
            law_what_is_open(b, p, TransitionAction::Park, p);
            assert forall|s: Text| !#[trigger] open_for(b, p, s) by {
                assert(!open_for(a, p, s));
            }
        },
    }
}

/// What moving these people, one after the other, makes of the rows.
spec fn all_moved(
    c: CompanyModel,
    r: CompanyModel,
    people: Seq<Text>,
    from: Text,
    destination: Text,
    intent: Text,
    at: Text,
) -> bool {
    &&& r.finite()
    &&& r.departments == c.departments
    &&& r.people.dom() == c.people.dom()
    &&& forall|p: Text| #[trigger]
        c.people.dom().contains(p) ==> r.people[p] == if people.contains(p) {
            PersonModel { department_id: destination, updated_at: at, ..c.people[p] }
        } else {
            c.people[p]
        }
    &&& r.staffing.len() == c.staffing.len() + people.len()
    &&& forall|i: int| 0 <= i < c.staffing.len() ==> #[trigger] r.staffing[i] == c.staffing[i]
    &&& forall|i: int|
        0 <= i < people.len() ==> #[trigger] r.staffing[c.staffing.len() + i] == line(
            people[i],
            StaffingAction::Transferred,
            Some(from),
            Some(destination),
            intent,
            at,
        )
    &&& r.transitions.dom() == c.transitions.dom()
    &&& forall|t: Text| #[trigger]
        c.transitions.dom().contains(t) ==> r.transitions[t] == if people.contains(
            c.transitions[t].person_id,
        ) && c.open_transition(c.transitions[t].person_id) == Some(t) {
            given_way(c.transitions[t], "superseded-by-transfer:"@ + intent, at)
        } else {
            c.transitions[t]
        }
    &&& r.fences == c.fences
    &&& r.transition_seq == c.transition_seq
    &&& r.quiesce_since == c.quiesce_since
    &&& rest_kept(c, r)
}

proof fn lemma_all_moved(
    c: CompanyModel,
    people: Seq<Text>,
    from: Text,
    destination: Text,
    intent: Text,
    at: Text,
)
    requires
        c.finite(),
        people.no_duplicates(),
        forall|i: int|
            0 <= i < people.len() ==> c.people.dom().contains(#[trigger] people[i])
                && c.people[people[i]].department_id == from,
    ensures
        all_moved(
            c,
            c.move_all(people, destination, intent, intent, false, at),
            people,
            from,
            destination,
            intent,
            at,
        ),
    decreases people.len(),
{
    let r = c.move_all(people, destination, intent, intent, false, at);
    if people.len() > 0 {
        let front = people.drop_last();
        let who = people.last();
        let b = c.move_all(front, destination, intent, intent, false, at);
        assert forall|i: int| 0 <= i < front.len() implies c.people.dom().contains(
            #[trigger] front[i],
        ) && c.people[front[i]].department_id == from by {
            assert(front[i] == people[i]);
        }
        lemma_all_moved(c, front, from, destination, intent, at);
        lemma_with_last(people);
        assert(people[people.len() - 1] == who);
        assert(!front.contains(who)) by {
            if front.contains(who) {
                let i = choose|i: int| 0 <= i < front.len() && front[i] == who;
                assert(people[i] == people[people.len() - 1]);
            }
        }
        assert(b.people.dom().contains(who));
        law_what_a_move_writes(b, who, destination, intent, intent, false, at);
        assert forall|t: Text| open_for(b, who, t) <==> #[trigger] open_for(c, who, t) by {
            if c.transitions.dom().contains(t) {
                assert(b.transitions.dom().contains(t));
                assert(b.transitions[t].person_id == c.transitions[t].person_id);
            }
        }
        lemma_same_open(b, c, who);
        assert(c.people.dom().contains(who) && c.people[who].department_id == from);
        assert forall|p: Text| #[trigger] c.people.dom().contains(p) implies r.people[p] == if people.contains(
            p,
        ) {
            PersonModel { department_id: destination, updated_at: at, ..c.people[p] }
        } else {
            c.people[p]
        } by {
            assert(b.people.dom().contains(p));
        }
        assert forall|t: Text| #[trigger] c.transitions.dom().contains(t) implies r.transitions[t]
            == if people.contains(c.transitions[t].person_id) && c.open_transition(
            c.transitions[t].person_id,
        ) == Some(t) {
            given_way(c.transitions[t], "superseded-by-transfer:"@ + intent, at)
        } else {
            c.transitions[t]
        } by {
            assert(b.transitions.dom().contains(t));
            lemma_open_transition(c, who);
        }
        assert forall|i: int| 0 <= i < people.len() implies #[trigger] r.staffing[c.staffing.len()
            + i] == line(
            people[i],
            StaffingAction::Transferred,
            Some(from),
            Some(destination),
            intent,
            at,
        ) by {
            if i < front.len() {
                assert(front[i] == people[i]);
                assert(b.staffing[c.staffing.len() + i] == r.staffing[c.staffing.len() + i]);
            }
        }
        assert forall|i: int| 0 <= i < c.staffing.len() implies #[trigger] r.staffing[i]
            == c.staffing[i] by {
            assert(b.staffing[i] == c.staffing[i]);
        }
        assert(r.people.dom() =~= c.people.dom());
    } else {
        assert(people =~= Seq::empty());
    }
}

/// Moving members of a unit writes each of them, at work or on the bench, at home
/// in the destination, with one line of history each in the order they were named
/// in; what each had open gives way. Nothing else changes but places.
pub proof fn law_what_moving_members_writes(
    c: CompanyModel,
    people: Seq<Text>,
    from: Text,
    destination: Text,
    intent: Text,
    at: Text,
    actor: Text,
)
    requires
        c.finite(),
        people.no_duplicates(),
        forall|i: int|
            0 <= i < people.len() ==> c.people.dom().contains(#[trigger] people[i])
                && c.people[people[i]].department_id == from,
    ensures
        ({
            let r = c.members_moved(people, destination, intent, at, actor);
            &&& r.departments == c.departments
            &&& r.people.dom() == c.people.dom()
            &&& forall|i: int|
                0 <= i < people.len() ==> r.people[#[trigger] people[i]] == (PersonModel {
                    department_id: destination,
                    ordinal: r.people[people[i]].ordinal,
                    updated_at: at,
                    ..c.people[people[i]]
                })
            &&& others_kept(c, r, people.to_set(), at)
            &&& r.staffing.len() == c.staffing.len() + people.len()
            &&& r.staffing.take(c.staffing.len() as int) == c.staffing
            &&& forall|i: int|
                0 <= i < people.len() ==> #[trigger] r.staffing[c.staffing.len() + i] == line(
                    people[i],
                    StaffingAction::Transferred,
                    Some(from),
                    Some(destination),
                    intent,
                    at,
                )
            &&& r.transitions.dom() == c.transitions.dom()
            &&& forall|t: Text| #[trigger]
                c.transitions.dom().contains(t) ==> r.transitions[t] == if people.contains(
                    c.transitions[t].person_id,
                ) && c.open_transition(c.transitions[t].person_id) == Some(t) {
                    given_way(c.transitions[t], "superseded-by-transfer:"@ + intent, at)
                } else {
                    c.transitions[t]
                }
            &&& r.fences == c.fences
            &&& r.transition_seq == c.transition_seq
            &&& r.quiesce_since == c.quiesce_since
            &&& rest_kept(c, r)
        }),
{
    let r = c.members_moved(people, destination, intent, at, actor);
    let b = c.move_all(people, destination, intent, intent, false, at);
    lemma_all_moved(c, people, from, destination, intent, at);
    lemma_number_people(b, b.people_order(), at);
    lemma_people_shift(b, b.people_order(), at);
    assert forall|i: int| 0 <= i < people.len() implies r.people[#[trigger] people[i]] == (
    PersonModel {
        department_id: destination,
        ordinal: r.people[people[i]].ordinal,
        updated_at: at,
        ..c.people[people[i]]
    }) by {
        assert(b.people.dom().contains(people[i]));
        assert(people.contains(people[i]));
    }
    assert forall|p: Text| #[trigger]
        c.people.dom().contains(p) && !people.to_set().contains(p) implies r.people.dom().contains(
        p,
    ) && shifted(c.people[p], r.people[p], at) by {
        assert(b.people.dom().contains(p));
        assert(!people.contains(p));
    }
    assert(r.staffing.take(c.staffing.len() as int) =~= c.staffing);
}

/// However often somebody is named, moving members writes everybody who is named
/// at home in the destination and nobody else elsewhere, and a line of history for
/// each time.
pub proof fn law_whoever_is_named_moves(
    c: CompanyModel,
    people: Seq<Text>,
    destination: Text,
    intent: Text,
    at: Text,
    actor: Text,
)
    ensures
        ({
            let r = c.members_moved(people, destination, intent, at, actor);
            &&& r.departments == c.departments
            &&& r.people.dom() == c.people.dom()
            &&& forall|p: Text| #[trigger]
                c.people.dom().contains(p) ==> r.people[p] == PersonModel {
                    department_id: if people.contains(p) {
                        destination
                    } else {
                        c.people[p].department_id
                    },
                    ordinal: r.people[p].ordinal,
                    updated_at: r.people[p].updated_at,
                    ..c.people[p]
                }
            &&& r.staffing.len() == c.staffing.len() + people.len()
            &&& r.fences == c.fences
        }),
{
    let b = c.move_all(people, destination, intent, intent, false, at);
    lemma_move_all(c, people, destination, intent, intent, false, at);
    lemma_lines_moved(c, people, destination, intent, at);
    lemma_number_people(b, b.people_order(), at);
    let r = c.members_moved(people, destination, intent, at, actor);
    assert forall|p: Text| #[trigger] c.people.dom().contains(p) implies r.people[p] == (
    PersonModel {
        department_id: if people.contains(p) {
            destination
        } else {
            c.people[p].department_id
        },
        ordinal: r.people[p].ordinal,
        updated_at: r.people[p].updated_at,
        ..c.people[p]
    }) by {
        assert(b.people.dom().contains(p));
    }
}

proof fn lemma_lines_moved(
    c: CompanyModel,
    people: Seq<Text>,
    destination: Text,
    intent: Text,
    at: Text,
)
    ensures
        c.move_all(people, destination, intent, intent, false, at).staffing.len()
            == c.staffing.len() + people.len(),
    decreases people.len(),
{
    if people.len() > 0 {
        lemma_lines_moved(c, people.drop_last(), destination, intent, at);
    }
}

} // verus!
