//! Every row that a decision changes is named by an event that it adds.

use vstd::prelude::*;

use crate::company::{
    ActivityModel, CompanyModel, Entity, EventModel, EventOp, StaffingAction, TouchModel,
    TransitionAction, TransitionModel,
};
use crate::laws::decision::Decision;
use crate::laws::frames::{begins, lemma_clear_fences_in, lemma_retract_in};
use crate::laws::telling::clock;
use crate::org_ops::appoint::appoint_line;
use crate::org_ops::create::hire_line;
use crate::org_ops::decisions::{HeadDecisionModel, HeadVacancyModel, StaffModel};
use crate::org_ops::departures::offboard_marker;
use crate::org_ops::guards::ledger_line;
use crate::org_ops::pause::{pause_line, pause_marker, unit_stop};
use crate::org_ops::seeds::SeedModel;
use crate::org_ops::shutdown::ShutdownKindModel;
use crate::org_ops::transfer::transfer_marker;
use crate::org_projection::{CreateModel, HireModel};
use crate::organization::{EmploymentState, PersonKind, UnitState};
use crate::rows::feed::{event_of, events_of, first_touches, lemma_first_touches, names_entity};
use crate::rows::ledger::{
    abandoned_transition, awaiting_transition, cancelled_transition, handoff_deadline,
    released_transition,
};
use crate::table::listing;
use crate::text::Text;

verus! {

/// Whether a row came, went or is another than it was.
pub open spec fn differs<V>(a: Map<Text, V>, b: Map<Text, V>, k: Text) -> bool {
    ||| a.dom().contains(k) != b.dom().contains(k)
    ||| a.dom().contains(k) && a[k] != b[k]
}

/// What an activity says but for the transition it points at and its clock.
pub open spec fn said(a: ActivityModel) -> ActivityModel {
    ActivityModel { active_transition_id: None, updated_at: Seq::empty(), ..a }
}

/// Whether somebody's activity came, went or says another thing than it did, but
/// for the transition it points at.
pub open spec fn activity_differs(
    a: Map<Text, ActivityModel>,
    b: Map<Text, ActivityModel>,
    k: Text,
) -> bool {
    ||| a.dom().contains(k) != b.dom().contains(k)
    ||| a.dom().contains(k) && said(a[k]) != said(b[k])
}

/// Whether an event after the first `from` names a thing.
pub open spec fn event_names(events: Seq<EventModel>, from: int, entity: Entity, id: Text) -> bool {
    exists|i: int|
        from <= i < events.len() && (#[trigger] events[i]).entity == entity && events[i].entity_id
            == id
}

/// Whether every unit, person, transition, activity and start decision that is
/// other in `r` than in `c` is named by an event that `r` has and `c` has not, and
/// every such event carries this clock and this actor.
#[verifier::opaque]
pub open spec fn tells(c: CompanyModel, r: CompanyModel, at: Text, actor: Text) -> bool {
    let n = c.events.len() as int;
    &&& begins(c.events, r.events)
    &&& forall|i: int|
        n <= i < r.events.len() ==> (#[trigger] r.events[i]).at == at && r.events[i].actor == actor
    &&& forall|k: Text| #[trigger]
        differs(c.departments, r.departments, k) ==> event_names(
            r.events,
            n,
            Entity::Department,
            k,
        )
    &&& forall|k: Text| #[trigger]
        differs(c.people, r.people, k) ==> event_names(r.events, n, Entity::Person, k)
    &&& forall|k: Text| #[trigger]
        differs(c.transitions, r.transitions, k) ==> event_names(
            r.events,
            n,
            Entity::Transition,
            k,
        )
    &&& forall|k: Text| #[trigger]
        activity_differs(c.activity, r.activity, k) ==> event_names(
            r.events,
            n,
            Entity::PersonActivity,
            k,
        )
    &&& forall|k: Text| #[trigger]
        differs(c.fences, r.fences, k) ==> event_names(r.events, n, Entity::LaunchIntent, k)
}

/// Whether every row that is other in `y` than in `x` is among what `y` has
/// touched.
spec fn told(x: CompanyModel, y: CompanyModel) -> bool {
    &&& begins(x.touches, y.touches)
    &&& x.events == y.events
    &&& forall|k: Text| #[trigger]
        differs(x.departments, y.departments, k) ==> names_entity(
            y.touches,
            Entity::Department,
            k,
        )
    &&& forall|k: Text| #[trigger]
        differs(x.people, y.people, k) ==> names_entity(y.touches, Entity::Person, k)
    &&& forall|k: Text| #[trigger]
        differs(x.transitions, y.transitions, k) ==> names_entity(
            y.touches,
            Entity::Transition,
            k,
        )
    &&& forall|k: Text| #[trigger]
        activity_differs(x.activity, y.activity, k) ==> names_entity(
            y.touches,
            Entity::PersonActivity,
            k,
        )
    &&& forall|k: Text| #[trigger]
        differs(x.fences, y.fences, k) ==> names_entity(y.touches, Entity::LaunchIntent, k)
}

proof fn lemma_named_on(a: Seq<TouchModel>, b: Seq<TouchModel>, e: Entity, k: Text)
    requires
        begins(a, b),
        names_entity(a, e, k),
    ensures
        names_entity(b, e, k),
{
    let i = choose|i: int| 0 <= i < a.len() && #[trigger] a[i].entity == e && a[i].entity_id == k;
    assert(a[i] == b[i]);
    assert(b[i].entity == e);
}

proof fn lemma_told_through(x: CompanyModel, y: CompanyModel, z: CompanyModel)
    requires
        told(x, y),
        told(y, z),
    ensures
        told(x, z),
{
    assert(begins(x.touches, z.touches)) by {
        assert forall|i: int| 0 <= i < x.touches.len() implies #[trigger] x.touches[i]
            == z.touches[i] by {
            assert(x.touches[i] == y.touches[i]);
            assert(y.touches[i] == z.touches[i]);
        }
    }
    assert forall|k: Text| #[trigger] differs(x.departments, z.departments, k) implies names_entity(
        z.touches,
        Entity::Department,
        k,
    ) by {
        if differs(x.departments, y.departments, k) {
            lemma_named_on(y.touches, z.touches, Entity::Department, k);
        } else {
            assert(differs(y.departments, z.departments, k));
        }
    }
    assert forall|k: Text| #[trigger] differs(x.people, z.people, k) implies names_entity(
        z.touches,
        Entity::Person,
        k,
    ) by {
        if differs(x.people, y.people, k) {
            lemma_named_on(y.touches, z.touches, Entity::Person, k);
        } else {
            assert(differs(y.people, z.people, k));
        }
    }
    assert forall|k: Text| #[trigger] differs(x.transitions, z.transitions, k) implies names_entity(
        z.touches,
        Entity::Transition,
        k,
    ) by {
        if differs(x.transitions, y.transitions, k) {
            lemma_named_on(y.touches, z.touches, Entity::Transition, k);
        } else {
            assert(differs(y.transitions, z.transitions, k));
        }
    }
    assert forall|k: Text| #[trigger] activity_differs(
        x.activity,
        z.activity,
        k,
    ) implies names_entity(z.touches, Entity::PersonActivity, k) by {
        if activity_differs(x.activity, y.activity, k) {
            lemma_named_on(y.touches, z.touches, Entity::PersonActivity, k);
        } else {
            assert(activity_differs(y.activity, z.activity, k));
        }
    }
    assert forall|k: Text| #[trigger] differs(x.fences, z.fences, k) implies names_entity(
        z.touches,
        Entity::LaunchIntent,
        k,
    ) by {
        if differs(x.fences, y.fences, k) {
            lemma_named_on(y.touches, z.touches, Entity::LaunchIntent, k);
        } else {
            assert(differs(y.fences, z.fences, k));
        }
    }
}

/// What changes one row of one kind and touches it last tells of it.
proof fn lemma_one_told(x: CompanyModel, y: CompanyModel, e: Entity, id: Text)
    requires
        y.touches.len() > 0,
        y.touches.drop_last() == x.touches,
        y.touches.last().entity == e,
        y.touches.last().entity_id == id,
        x.events == y.events,
        forall|k: Text| #[trigger]
            differs(x.departments, y.departments, k) ==> e == Entity::Department && k == id,
        forall|k: Text| #[trigger] differs(x.people, y.people, k) ==> e == Entity::Person && k == id,
        forall|k: Text| #[trigger]
            differs(x.transitions, y.transitions, k) ==> e == Entity::Transition && k == id,
        forall|k: Text| #[trigger]
            activity_differs(x.activity, y.activity, k) ==> e == Entity::PersonActivity && k == id,
        forall|k: Text| #[trigger]
            differs(x.fences, y.fences, k) ==> e == Entity::LaunchIntent && k == id,
    ensures
        told(x, y),
{
    let i = y.touches.len() - 1;
    assert(y.touches[i].entity == e && y.touches[i].entity_id == id);
    assert(names_entity(y.touches, e, id));
    assert forall|j: int| 0 <= j < x.touches.len() implies #[trigger] x.touches[j]
        == y.touches[j] by {
        assert(y.touches.drop_last()[j] == y.touches[j]);
    }
}

proof fn lemma_same_told(x: CompanyModel, y: CompanyModel)
    requires
        x.touches == y.touches,
        x.events == y.events,
        x.departments == y.departments,
        x.people == y.people,
        x.transitions == y.transitions,
        x.activity == y.activity,
        x.fences == y.fences,
    ensures
        told(x, y),
{
}

// ---------------------------------------------------------------------------
// Single changes
// ---------------------------------------------------------------------------

proof fn lemma_unit_ops(
    x: CompanyModel,
    id: Text,
    other: Text,
    state: UnitState,
    place: u64,
    at: Text,
)
    ensures
        told(x, x.set_parent(id, other, at)),
        told(x, x.set_department_head(id, other, at)),
        told(x, x.set_department_state(id, state, at)),
        told(x, x.delete_department(id)),
        told(x, x.place_department(id, place, at)),
{
    let e = Entity::Department;
    let a = x.set_parent(id, other, at);
    assert(a.touches.drop_last() =~= x.touches);
    lemma_one_told(x, a, e, id);
    let b = x.set_department_head(id, other, at);
    assert(b.touches.drop_last() =~= x.touches);
    lemma_one_told(x, b, e, id);
    let c = x.set_department_state(id, state, at);
    assert(c.touches.drop_last() =~= x.touches);
    lemma_one_told(x, c, e, id);
    let d = x.delete_department(id);
    assert(d.touches.drop_last() =~= x.touches);
    lemma_one_told(x, d, e, id);
    let f = x.place_department(id, place, at);
    if f.touches == x.touches {
        lemma_same_told(x, x);
        assert(told(x, f));
    } else {
        assert(f.touches.drop_last() =~= x.touches);
        lemma_one_told(x, f, e, id);
    }
}

proof fn lemma_person_ops(
    x: CompanyModel,
    id: Text,
    home: Text,
    kind: PersonKind,
    employment: EmploymentState,
    place: u64,
    at: Text,
)
    ensures
        told(x, x.move_person(id, home, at)),
        told(x, x.set_person_kind(id, kind, at)),
        told(x, x.set_employment_state(id, employment, at)),
        told(x, x.place_person(id, place, at)),
{
    let e = Entity::Person;
    let a = x.move_person(id, home, at);
    assert(a.touches.drop_last() =~= x.touches);
    lemma_one_told(x, a, e, id);
    let b = x.set_person_kind(id, kind, at);
    assert(b.touches.drop_last() =~= x.touches);
    lemma_one_told(x, b, e, id);
    let c = x.set_employment_state(id, employment, at);
    assert(c.touches.drop_last() =~= x.touches);
    lemma_one_told(x, c, e, id);
    let f = x.place_person(id, place, at);
    if f.touches == x.touches {
        assert(told(x, f));
    } else {
        assert(f.touches.drop_last() =~= x.touches);
        lemma_one_told(x, f, e, id);
    }
}

proof fn lemma_fence_ops(x: CompanyModel, id: Text)
    ensures
        told(x, x.insert_fence(id)),
        told(x, x.delete_fence(id)),
        told(x, x.fence_started(id)),
{
    let e = Entity::LaunchIntent;
    lemma_same_told(x, x);
    let a = x.insert_fence(id);
    if !x.fences.dom().contains(id) {
        assert(a.touches.drop_last() =~= x.touches);
        lemma_one_told(x, a, e, id);
    }
    let b = x.delete_fence(id);
    if x.fences.dom().contains(id) {
        assert(b.touches.drop_last() =~= x.touches);
        lemma_one_told(x, b, e, id);
    }
}

proof fn lemma_activity_ops(
    x: CompanyModel,
    id: Text,
    want: bool,
    under: Option<Text>,
    employment: EmploymentState,
    home: Text,
    operational: bool,
    at: Text,
)
    ensures
        told(x, x.upsert_desired(id, want, under, at)),
        told(x, x.upsert_desired_off(id, employment, home, operational, at)),
        told(x, x.ensure_desired_active(id, at)),
        told(x, x.begin_idle_lease(id, at)),
{
    let e = Entity::PersonActivity;
    lemma_same_told(x, x);
    let a = x.upsert_desired(id, want, under, at);
    assert(a.touches.drop_last() =~= x.touches);
    lemma_one_told(x, a, e, id);
    let b = x.upsert_desired_off(id, employment, home, operational, at);
    assert(b.touches.drop_last() =~= x.touches);
    lemma_one_told(x, b, e, id);
    let c = x.ensure_desired_active(id, at);
    if c != x {
        assert(c.touches.drop_last() =~= x.touches);
        lemma_one_told(x, c, e, id);
    }
    let d = x.begin_idle_lease(id, at);
    if d != x {
        assert(d.touches.drop_last() =~= x.touches);
        lemma_one_told(x, d, e, id);
    }
}

proof fn lemma_retract_told(x: CompanyModel, id: Text, keep: Text, at: Text)
    ensures
        told(x, x.retract_one(id, keep, at)),
{
    lemma_same_told(x, x);
    let y = x.retract_one(id, keep, at);
    if id != keep && x.desired(id) {
        assert(y.touches.drop_last() =~= x.touches);
        lemma_one_told(x, y, Entity::PersonActivity, id);
    }
}

proof fn lemma_supersede_told(x: CompanyModel, person: Text, marker: Text, at: Text)
    ensures
        told(x, x.supersede_open_transition(person, marker, at)),
{
    lemma_same_told(x, x);
    if let Some(id) = x.open_transition(person) {
        let y = x.supersede_open_transition(person, marker, at);
        assert(y.touches.drop_last() =~= x.touches);
        lemma_one_told(x, y, Entity::Transition, id);
    }
}

proof fn lemma_insert_transition_told(
    x: CompanyModel,
    id: Text,
    row: TransitionModel,
)
    ensures
        told(x, x.insert_transition(id, row)),
{
    let y = x.insert_transition(id, row);
    assert(y.touches.drop_last() =~= x.touches);
    lemma_one_told(x, y, Entity::Transition, id);
}

proof fn lemma_release_told(x: CompanyModel, person: Text, at: Text, fact: Text)
    ensures
        told(x, x.release_idle_park(person, at, fact)),
{
    lemma_same_told(x, x);
    let y = x.release_idle_park(person, at, fact);
    if x.activity.dom().contains(person) {
        let row = x.activity[person];
        let park = x.parked_under(person);
        let freed = match park {
            Some(t) => if x.transitions[t].status.open() {
                x.cancel_transition(t, fact, at)
            } else {
                x
            },
            None => x,
        };
        if let Some(t) = park {
            if x.transitions[t].status.open() {
                assert(freed.touches.drop_last() =~= x.touches);
                lemma_one_told(x, freed, Entity::Transition, t);
            }
        }
        assert(told(x, freed));
        if park is None && row.agent_quiet_at is None && row.idle_since is None
            && row.operator_wake_at == Some(at) {
        } else {
            assert(y.touches.drop_last() =~= freed.touches);
            lemma_one_told(freed, y, Entity::PersonActivity, person);
            lemma_told_through(x, freed, y);
        }
    }
}

// ---------------------------------------------------------------------------
// Runs of changes
// ---------------------------------------------------------------------------

proof fn lemma_order_told(x: CompanyModel, order: Seq<Text>, at: Text)
    ensures
        told(x, x.number_departments(order, at)),
        told(x, x.number_people(order, at)),
    decreases order.len(),
{
    if order.len() == 0 {
        lemma_same_told(x, x);
    } else {
        let front = order.drop_last();
        let place = (order.len() - 1) as u64;
        lemma_order_told(x, front, at);
        let a = x.number_departments(front, at);
        lemma_unit_ops(a, order.last(), at, UnitState::Active, place, at);
        lemma_told_through(x, a, x.number_departments(order, at));
        let b = x.number_people(front, at);
        lemma_person_ops(
            b,
            order.last(),
            at,
            PersonKind::Worker,
            EmploymentState::Active,
            place,
            at,
        );
        lemma_told_through(x, b, x.number_people(order, at));
    }
}

proof fn lemma_rehome_told(
    x: CompanyModel,
    residents: Seq<Text>,
    leaver: Text,
    from: Text,
    to: Text,
    reason: Text,
    at: Text,
)
    ensures
        told(x, x.rehome(residents, leaver, from, to, reason, at)),
    decreases residents.len(),
{
    if residents.len() == 0 {
        lemma_same_told(x, x);
    } else {
        let front = residents.drop_last();
        let who = residents.last();
        lemma_rehome_told(x, front, leaver, from, to, reason, at);
        let b = x.rehome(front, leaver, from, to, reason, at);
        if who != leaver {
            let y = x.rehome(residents, leaver, from, to, reason, at);
            let m = b.move_person(who, to, at);
            lemma_person_ops(b, who, to, PersonKind::Worker, EmploymentState::Active, 0, at);
            lemma_same_told(m, y);
            lemma_told_through(b, m, y);
            lemma_told_through(x, b, y);
        }
    }
}

proof fn lemma_move_told(
    x: CompanyModel,
    people: Seq<Text>,
    destination: Text,
    intent: Text,
    reason: Text,
    adopt: bool,
    at: Text,
)
    ensures
        told(x, x.move_all(people, destination, intent, reason, adopt, at)),
    decreases people.len(),
{
    lemma_same_told(x, x);
    if people.len() > 0 {
        let front = people.drop_last();
        let who = people.last();
        lemma_move_told(x, front, destination, intent, reason, adopt, at);
        let b = x.move_all(front, destination, intent, reason, adopt, at);
        let y = x.move_all(people, destination, intent, reason, adopt, at);
        let marker = transfer_marker(intent);
        let s = if adopt && b.ready_transition(
            who,
            TransitionAction::Transfer,
        ) is Some {
            b
        } else {
            b.supersede_open_transition(who, marker, at)
        };
        lemma_supersede_told(b, who, marker, at);
        lemma_same_told(b, b);
        assert(told(b, s));
        let m = s.move_person(who, destination, at);
        lemma_person_ops(s, who, destination, PersonKind::Worker, EmploymentState::Active, 0, at);
        lemma_same_told(m, y);
        lemma_told_through(b, s, m);
        lemma_told_through(b, m, y);
        lemma_told_through(x, b, y);
    }
}

proof fn lemma_seeded_told(
    x: CompanyModel,
    id: Text,
    department: Text,
    seed: SeedModel,
    reason: Text,
    at: Text,
)
    ensures
        told(x, x.seeded(id, department, seed, reason, at)),
{
    let a = x.insert_person(id, department, seed, at);
    assert(a.touches.drop_last() =~= x.touches);
    lemma_one_told(x, a, Entity::Person, id);
    let b = a.upsert_desired_off(id, seed.employment_state, department, true, at);
    lemma_activity_ops(a, id, false, None, seed.employment_state, department, true, at);
    lemma_told_through(x, a, b);
    let s = b.append_staffing(
        id,
        StaffingAction::Hired,
        None,
        Some(department),
        reason,
        at,
    );
    lemma_same_told(b, s);
    lemma_told_through(x, b, s);
    lemma_fence_ops(s, id);
    if seed.employment_state == EmploymentState::Active {
        lemma_told_through(x, s, s.fence_started(id));
    }
}

proof fn lemma_seeded_all_told(
    x: CompanyModel,
    staff: Seq<StaffModel>,
    department: Text,
    reason: Text,
    at: Text,
)
    ensures
        told(x, x.seeded_all(staff, department, reason, at)),
    decreases staff.len(),
{
    if staff.len() == 0 {
        lemma_same_told(x, x);
    } else {
        let front = staff.drop_last();
        lemma_seeded_all_told(x, front, department, reason, at);
        let b = x.seeded_all(front, department, reason, at);
        lemma_seeded_told(b, staff.last().person_id, department, staff.last().seed, reason, at);
        lemma_told_through(x, b, x.seeded_all(staff, department, reason, at));
    }
}

proof fn lemma_swept_told(x: CompanyModel, member: Text, department: Text, at: Text)
    ensures
        told(x, x.swept(member, department, at)),
{
    let marker = pause_marker(department);
    let s = x.supersede_open_transition(member, marker, at);
    lemma_supersede_told(x, member, marker, at);
    let quiet = s.delete_fence(member);
    lemma_fence_ops(s, member);
    lemma_told_through(x, s, quiet);
    let y = x.swept(member, department, at);
    if x.people.dom().contains(member) && x.people[member].employment_state
        != EmploymentState::Departed {
        let home = x.people[member].department_id;
        let id = quiet.next_transition_id(member, TransitionAction::Park);
        let counted = quiet.counted();
        lemma_same_told(quiet, counted);
        let active = x.lifecycle_active(member);
        let fenced = x.fences.dom().contains(member);
        let known = x.activity.dom().contains(member);
        let recorded = if active {
            counted.insert_transition(
                id,
                cancelled_transition(
                    member,
                    TransitionAction::Park,
                    home,
                    unit_stop(department, id),
                    marker,
                    at,
                ),
            )
        } else if fenced {
            counted.insert_transition(
                id,
                abandoned_transition(
                    member,
                    TransitionAction::Park,
                    home,
                    None,
                    pause_line(member, department),
                    at,
                ),
            )
        } else {
            quiet
        };
        if active || fenced {
            lemma_insert_transition_told(counted, id, recorded.transitions[id]);
            lemma_told_through(quiet, counted, recorded);
        } else {
            lemma_same_told(quiet, recorded);
        }
        lemma_told_through(x, quiet, recorded);
        if known || active || fenced {
            lemma_activity_ops(
                recorded,
                member,
                false,
                None,
                x.people[member].employment_state,
                home,
                false,
                at,
            );
            lemma_told_through(x, recorded, y);
        }
    }
}

proof fn lemma_swept_all_told(
    x: CompanyModel,
    members: Seq<Text>,
    ceo: Option<Text>,
    department: Text,
    at: Text,
)
    ensures
        told(x, x.swept_all(members, ceo, department, at)),
    decreases members.len(),
{
    if members.len() == 0 {
        lemma_same_told(x, x);
    } else {
        let front = members.drop_last();
        lemma_swept_all_told(x, front, ceo, department, at);
        let b = x.swept_all(front, ceo, department, at);
        if ceo != Some(members.last()) {
            lemma_swept_told(b, members.last(), department, at);
            lemma_told_through(x, b, x.swept_all(members, ceo, department, at));
        }
    }
}

proof fn lemma_resume_all_told(x: CompanyModel, departments: Seq<Text>, at: Text)
    ensures
        told(x, x.resume_all(departments, at)),
    decreases departments.len(),
{
    if departments.len() == 0 {
        lemma_same_told(x, x);
    } else {
        let front = departments.drop_last();
        lemma_resume_all_told(x, front, at);
        let b = x.resume_all(front, at);
        lemma_unit_ops(b, departments.last(), at, UnitState::Active, 0, at);
        lemma_same_told(b, b);
        lemma_told_through(x, b, x.resume_all(departments, at));
    }
}

proof fn lemma_departed_told(
    x: CompanyModel,
    person: Text,
    rests: Text,
    left: Text,
    under: Option<Text>,
    reason: Text,
    at: Text,
)
    ensures
        told(x, x.departed(person, rests, left, under, reason, at)),
{
    let a = x.upsert_desired(person, false, under, at);
    lemma_activity_ops(x, person, false, under, EmploymentState::Departed, rests, false, at);
    let b = a.set_employment_state(person, EmploymentState::Departed, at);
    lemma_person_ops(a, person, rests, PersonKind::Worker, EmploymentState::Departed, 0, at);
    lemma_told_through(x, a, b);
    let m = b.move_person(person, rests, at);
    lemma_person_ops(b, person, rests, PersonKind::Worker, EmploymentState::Departed, 0, at);
    lemma_told_through(x, b, m);
    let y = x.departed(person, rests, left, under, reason, at);
    lemma_same_told(m, y);
    lemma_told_through(x, m, y);
}

proof fn lemma_left_told(
    x: CompanyModel,
    people: Seq<Text>,
    rests: Text,
    reason: Text,
    at: Text,
)
    ensures
        told(x, x.left_behind_all(people, rests, reason, at)),
    decreases people.len(),
{
    if people.len() == 0 {
        lemma_same_told(x, x);
    } else {
        let front = people.drop_last();
        let who = people.last();
        lemma_left_told(x, front, rests, reason, at);
        let b = x.left_behind_all(front, rests, reason, at);
        let home = b.people[who].department_id;
        let f = b.delete_fence(who);
        lemma_fence_ops(b, who);
        let marker = "superseded-by-department-removal:"@ + home;
        let s = f.supersede_open_transition(who, marker, at);
        lemma_supersede_told(f, who, marker, at);
        lemma_told_through(b, f, s);
        let k = if b.people[who].kind == PersonKind::Head {
            s.set_person_kind(who, PersonKind::Worker, at)
        } else {
            s
        };
        lemma_person_ops(s, who, rests, PersonKind::Worker, EmploymentState::Departed, 0, at);
        lemma_same_told(s, s);
        lemma_told_through(b, s, k);
        lemma_departed_told(k, who, rests, home, None, reason, at);
        let y = x.left_behind_all(people, rests, reason, at);
        lemma_told_through(b, k, y);
        lemma_told_through(x, b, y);
    }
}

proof fn lemma_deleted_told(x: CompanyModel, departments: Seq<Text>)
    ensures
        told(x, x.delete_departments(departments)),
    decreases departments.len(),
{
    if departments.len() == 0 {
        lemma_same_told(x, x);
    } else {
        let front = departments.drop_last();
        lemma_deleted_told(x, front);
        let b = x.delete_departments(front);
        let last = departments.last();
        lemma_unit_ops(b, last, last, UnitState::Active, 0, last);
        lemma_told_through(x, b, x.delete_departments(departments));
    }
}

proof fn lemma_retract_all_told(x: CompanyModel, people: Seq<Text>, keep: Text, at: Text)
    ensures
        told(x, x.retract_in(people, keep, at)),
    decreases people.len(),
{
    if people.len() == 0 {
        lemma_same_told(x, x);
    } else {
        let front = people.drop_last();
        lemma_retract_all_told(x, front, keep, at);
        let b = x.retract_in(front, keep, at);
        lemma_retract_told(b, people.last(), keep, at);
        lemma_told_through(x, b, x.retract_in(people, keep, at));
    }
}

proof fn lemma_clear_told(x: CompanyModel, people: Seq<Text>, keep: Text)
    ensures
        told(x, x.clear_fences_in(people, keep)),
    decreases people.len(),
{
    if people.len() == 0 {
        lemma_same_told(x, x);
    } else {
        let front = people.drop_last();
        lemma_clear_told(x, front, keep);
        let b = x.clear_fences_in(front, keep);
        lemma_fence_ops(b, people.last());
        lemma_same_told(b, b);
        lemma_told_through(x, b, x.clear_fences_in(people, keep));
    }
}

proof fn lemma_vacated_told(
    x: CompanyModel,
    person: Text,
    decision: HeadVacancyModel,
    reason: Text,
    at: Text,
)
    ensures
        told(x, x.vacated(person, decision, reason, at)),
{
    lemma_same_told(x, x);
    let y = x.vacated(person, decision, reason, at);
    if let Some(unit) = x.headed_by(person) {
        match decision {
            HeadVacancyModel::HandOver { successor_person_id } => {
                let a = x.set_department_head(unit, successor_person_id, at);
                lemma_unit_ops(x, unit, successor_person_id, UnitState::Active, 0, at);
                let b = a.set_person_kind(successor_person_id, PersonKind::Head, at);
                lemma_person_ops(
                    a,
                    successor_person_id,
                    unit,
                    PersonKind::Head,
                    EmploymentState::Active,
                    0,
                    at,
                );
                lemma_told_through(x, a, b);
                lemma_same_told(b, y);
                lemma_told_through(x, b, y);
            },
            HeadVacancyModel::Dissolve => {
                let left = match x.departments[unit].parent_id {
                    Some(parent) => {
                        x.rehome(x.people_in(seq![unit]), person, unit, parent, reason, at)
                    },
                    None => x,
                };
                if let Some(parent) = x.departments[unit].parent_id {
                    lemma_rehome_told(
                        x,
                        x.people_in(seq![unit]),
                        person,
                        unit,
                        parent,
                        reason,
                        at,
                    );
                }
                assert(told(x, left));
                let cut = left.delete_department(unit);
                lemma_unit_ops(left, unit, unit, UnitState::Active, 0, at);
                lemma_told_through(x, left, cut);
                let ordered = cut.refresh_department_order(at);
                lemma_order_told(cut, cut.department_order(), at);
                lemma_told_through(x, cut, ordered);
                lemma_same_told(ordered, y);
                lemma_told_through(x, ordered, y);
            },
        }
    }
}

// ---------------------------------------------------------------------------
// From touches to events
// ---------------------------------------------------------------------------

proof fn lemma_event_of(
    events: Seq<EventModel>,
    touches: Seq<TouchModel>,
    at: Text,
    actor: Text,
    e: Entity,
    k: Text,
)
    requires
        names_entity(touches, e, k),
    ensures
        event_names(
            events + events_of(touches, at, actor),
            events.len() as int,
            e,
            k,
        ),
{
    let i = choose|i: int|
        0 <= i < touches.len() && #[trigger] touches[i].entity == e && touches[i].entity_id == k;
    let all = events + events_of(touches, at, actor);
    assert(all[events.len() + i] == event_of(touches[i], at, actor));
}

/// What has been touched is told, each thing once or every time.
proof fn lemma_emitted_tells(c: CompanyModel, x: CompanyModel, at: Text, actor: Text)
    requires
        told(c, x),
    ensures
        tells(c, x.emitted(at, actor), at, actor),
        tells(c, x.deduped().emitted(at, actor), at, actor),
{
    lemma_emitted_each(c, x, x.touches, at, actor);
    lemma_first_touches(x.touches);
    lemma_emitted_each(c, x, first_touches(x.touches), at, actor);
}

proof fn lemma_emitted_each(
    c: CompanyModel,
    x: CompanyModel,
    touches: Seq<TouchModel>,
    at: Text,
    actor: Text,
)
    requires
        told(c, x),
        forall|e: Entity, id: Text| #[trigger]
            names_entity(touches, e, id) <==> names_entity(x.touches, e, id),
    ensures
        tells(c, CompanyModel { touches, ..x }.emitted(at, actor), at, actor),
{
    reveal(tells);
    let r = CompanyModel { touches, ..x }.emitted(at, actor);
    assert(begins(c.events, r.events)) by {
        assert forall|i: int| 0 <= i < c.events.len() implies #[trigger] c.events[i]
            == r.events[i] by {}
    }
    assert forall|k: Text| #[trigger] differs(c.departments, r.departments, k) implies event_names(
        r.events,
        c.events.len() as int,
        Entity::Department,
        k,
    ) by {
        assert(differs(c.departments, x.departments, k));
        lemma_event_of(c.events, touches, at, actor, Entity::Department, k);
    }
    assert forall|k: Text| #[trigger] differs(c.people, r.people, k) implies event_names(
        r.events,
        c.events.len() as int,
        Entity::Person,
        k,
    ) by {
        assert(differs(c.people, x.people, k));
        lemma_event_of(c.events, touches, at, actor, Entity::Person, k);
    }
    assert forall|k: Text| #[trigger] differs(c.transitions, r.transitions, k) implies event_names(
        r.events,
        c.events.len() as int,
        Entity::Transition,
        k,
    ) by {
        assert(differs(c.transitions, x.transitions, k));
        lemma_event_of(c.events, touches, at, actor, Entity::Transition, k);
    }
    assert forall|k: Text| #[trigger] activity_differs(
        c.activity,
        r.activity,
        k,
    ) implies event_names(r.events, c.events.len() as int, Entity::PersonActivity, k) by {
        assert(activity_differs(c.activity, x.activity, k));
        lemma_event_of(c.events, touches, at, actor, Entity::PersonActivity, k);
    }
    assert forall|k: Text| #[trigger] differs(c.fences, r.fences, k) implies event_names(
        r.events,
        c.events.len() as int,
        Entity::LaunchIntent,
        k,
    ) by {
        assert(differs(c.fences, x.fences, k));
        lemma_event_of(c.events, touches, at, actor, Entity::LaunchIntent, k);
    }
}

/// Whom the events of a decision name: who made it, and nobody where a launcher
/// root is published.
pub open spec fn author(d: Decision, actor: Text) -> Text {
    match d {
        Decision::PublishLauncherRoot { .. } => Seq::empty(),
        _ => actor,
    }
}

/// What was told on the way stays told.
proof fn lemma_tells_through(
    a: CompanyModel,
    b: CompanyModel,
    c: CompanyModel,
    at: Text,
    actor: Text,
)
    requires
        tells(a, b, at, actor),
        tells(b, c, at, actor),
    ensures
        tells(a, c, at, actor),
{
    reveal(tells);
    let n = a.events.len() as int;
    assert forall|i: int| 0 <= i < a.events.len() implies #[trigger] a.events[i] == c.events[i] by {
        assert(a.events[i] == b.events[i]);
        assert(b.events[i] == c.events[i]);
    }
    assert forall|i: int| n <= i < c.events.len() implies (#[trigger] c.events[i]).at == at
        && c.events[i].actor == actor by {
        if i < b.events.len() {
            assert(b.events[i] == c.events[i]);
        }
    }
    assert forall|e: Entity, k: Text| #[trigger] event_names(b.events, n, e, k) implies event_names(
        c.events,
        n,
        e,
        k,
    ) by {
        let i = choose|i: int|
            n <= i < b.events.len() && (#[trigger] b.events[i]).entity == e
                && b.events[i].entity_id == k;
        assert(b.events[i] == c.events[i]);
    }
    assert forall|e: Entity, k: Text|
        #[trigger] event_names(c.events, b.events.len() as int, e, k) implies event_names(
        c.events,
        n,
        e,
        k,
    ) by {
        let i = choose|i: int|
            b.events.len() <= i < c.events.len() && (#[trigger] c.events[i]).entity == e
                && c.events[i].entity_id == k;
        assert(c.events[i].entity == e);
    }
    assert forall|k: Text| #[trigger] differs(a.departments, c.departments, k) implies event_names(
        c.events,
        n,
        Entity::Department,
        k,
    ) by {
        assert(differs(a.departments, b.departments, k) || differs(
            b.departments,
            c.departments,
            k,
        ));
    }
    assert forall|k: Text| #[trigger] differs(a.people, c.people, k) implies event_names(
        c.events,
        n,
        Entity::Person,
        k,
    ) by {
        assert(differs(a.people, b.people, k) || differs(b.people, c.people, k));
    }
    assert forall|k: Text| #[trigger] differs(a.transitions, c.transitions, k) implies event_names(
        c.events,
        n,
        Entity::Transition,
        k,
    ) by {
        assert(differs(a.transitions, b.transitions, k) || differs(
            b.transitions,
            c.transitions,
            k,
        ));
    }
    assert forall|k: Text| #[trigger] activity_differs(
        a.activity,
        c.activity,
        k,
    ) implies event_names(c.events, n, Entity::PersonActivity, k) by {
        assert(activity_differs(a.activity, b.activity, k) || activity_differs(
            b.activity,
            c.activity,
            k,
        ));
    }
    assert forall|k: Text| #[trigger] differs(a.fences, c.fences, k) implies event_names(
        c.events,
        n,
        Entity::LaunchIntent,
        k,
    ) by {
        assert(differs(a.fences, b.fences, k) || differs(b.fences, c.fences, k));
    }
}

// ---------------------------------------------------------------------------
// Decisions
// ---------------------------------------------------------------------------

proof fn lemma_created_tells(c: CompanyModel, p: CreateModel, actor: Text)
    ensures
        tells(c, c.department_created(p, actor), p.at, actor),
{
    let head = p.head.person_id();
    lemma_same_told(c, c);
    let there = match p.vacates {
        Some(HeadVacancyModel::Dissolve) => c.move_person(head, p.parent_id, p.at),
        _ => c,
    };
    lemma_person_ops(c, head, p.parent_id, PersonKind::Worker, EmploymentState::Active, 0, p.at);
    let freed = c.head_freed(p);
    if let Some(decision) = p.vacates {
        lemma_vacated_told(there, head, decision, p.audit_reason, p.at);
        lemma_told_through(c, there, freed);
    }
    assert(told(c, freed));
    let unit = freed.insert_department(
        p.department_id,
        p.parent_id,
        p.name,
        p.purpose,
        p.unit,
        head,
        p.at,
    );
    assert(unit.touches.drop_last() =~= freed.touches);
    lemma_one_told(freed, unit, Entity::Department, p.department_id);
    lemma_told_through(c, freed, unit);
    let headed = match p.head {
        HeadDecisionModel::AppointExisting { person_id } => unit.head_appointed(
            person_id,
            if c.people.dom().contains(person_id) {
                Some(c.people[person_id].department_id)
            } else {
                None
            },
            p,
        ),
        HeadDecisionModel::HireNew { person_id, seed } => unit.seeded(
            person_id,
            p.department_id,
            seed,
            p.audit_reason,
            p.at,
        ),
    };
    match p.head {
        HeadDecisionModel::AppointExisting { person_id } => {
            lemma_head_appointed_told(
                unit,
                person_id,
                if c.people.dom().contains(person_id) {
                    Some(c.people[person_id].department_id)
                } else {
                    None
                },
                p,
            );
        },
        HeadDecisionModel::HireNew { person_id, seed } => {
            lemma_seeded_told(unit, person_id, p.department_id, seed, p.audit_reason, p.at);
        },
    }
    lemma_told_through(c, unit, headed);
    let staffed = headed.seeded_all(p.staff, p.department_id, p.audit_reason, p.at);
    lemma_seeded_all_told(headed, p.staff, p.department_id, p.audit_reason, p.at);
    lemma_told_through(c, headed, staffed);
    let ordered = staffed.refresh_department_order(p.at);
    lemma_order_told(staffed, staffed.department_order(), p.at);
    lemma_told_through(c, staffed, ordered);
    let all = ordered.refresh_people_order(p.at);
    lemma_order_told(ordered, ordered.people_order(), p.at);
    lemma_told_through(c, ordered, all);
    lemma_emitted_tells(c, all, p.at, actor);
}

proof fn lemma_head_appointed_told(x: CompanyModel, head: Text, from: Option<Text>, p: CreateModel)
    ensures
        told(x, x.head_appointed(head, from, p)),
{
    let a = x.move_person(head, p.department_id, p.at);
    lemma_person_ops(x, head, p.department_id, PersonKind::Head, EmploymentState::Active, 0, p.at);
    let b = a.set_person_kind(head, PersonKind::Head, p.at);
    lemma_person_ops(a, head, p.department_id, PersonKind::Head, EmploymentState::Active, 0, p.at);
    lemma_told_through(x, a, b);
    let there = b.append_staffing(
        head,
        StaffingAction::Transferred,
        from,
        Some(p.department_id),
        p.audit_reason,
        p.at,
    ).append_staffing(
        head,
        StaffingAction::AppointedHead,
        None,
        Some(p.department_id),
        p.audit_reason,
        p.at,
    );
    lemma_same_told(b, there);
    lemma_told_through(x, b, there);
    lemma_fence_ops(there, head);
    lemma_told_through(x, there, there.fence_started(head));
}

proof fn lemma_hired_tells(c: CompanyModel, p: HireModel, actor: Text)
    ensures
        tells(c, c.hired(p, actor), p.at, actor),
{
    let line = hire_line(p.person_id, p.department_id);
    let a = c.seeded(p.person_id, p.department_id, p.seed, line, p.at);
    lemma_seeded_told(c, p.person_id, p.department_id, p.seed, line, p.at);
    let b = a.refresh_people_order(p.at);
    lemma_order_told(a, a.people_order(), p.at);
    lemma_told_through(c, a, b);
    lemma_emitted_tells(c, b, p.at, actor);
}

proof fn lemma_appointed_tells(
    c: CompanyModel,
    department: Text,
    successor: Text,
    demote_to: Option<Text>,
    at: Text,
    actor: Text,
)
    ensures
        tells(c, c.appointed(department, successor, demote_to, at, actor), at, actor),
{
    let old_head = c.departments[department].head_person_id;
    let s = EmploymentState::Active;
    let a = c.set_department_head(department, successor, at);
    lemma_unit_ops(c, department, successor, UnitState::Active, 0, at);
    let b = a.set_person_kind(successor, PersonKind::Head, at);
    lemma_person_ops(a, successor, department, PersonKind::Head, s, 0, at);
    lemma_told_through(c, a, b);
    let d = b.set_person_kind(old_head, PersonKind::Worker, at);
    lemma_person_ops(b, old_head, department, PersonKind::Worker, s, 0, at);
    lemma_told_through(c, b, d);
    let m = match demote_to {
        Some(to) => d.move_person(old_head, to, at),
        None => d,
    };
    if let Some(to) = demote_to {
        lemma_person_ops(d, old_head, to, PersonKind::Worker, s, 0, at);
        lemma_told_through(c, d, m);
    }
    let reason = appoint_line(successor, department);
    let e = m.append_staffing(
        successor,
        StaffingAction::AppointedHead,
        Some(department),
        Some(department),
        reason,
        at,
    ).append_staffing(
        old_head,
        StaffingAction::SteppedDown,
        Some(department),
        Some(
            match demote_to {
                Some(to) => to,
                None => department,
            },
        ),
        reason,
        at,
    );
    let f = match demote_to {
        Some(to) => e.append_staffing(
            old_head,
            StaffingAction::Transferred,
            Some(department),
            Some(to),
            reason,
            at,
        ),
        None => e,
    };
    lemma_same_told(m, f);
    lemma_told_through(c, m, f);
    lemma_emitted_tells(c, f, at, actor);
}

proof fn lemma_reparented_tells(
    c: CompanyModel,
    department: Text,
    parent: Text,
    at: Text,
    actor: Text,
)
    ensures
        tells(c, c.reparented(department, parent, at, actor), at, actor),
{
    let a = c.set_parent(department, parent, at);
    lemma_unit_ops(c, department, parent, UnitState::Active, 0, at);
    let b = a.refresh_department_order(at);
    lemma_order_told(a, a.department_order(), at);
    lemma_told_through(c, a, b);
    let d = b.refresh_people_order(at);
    lemma_order_told(b, b.people_order(), at);
    lemma_told_through(c, b, d);
    lemma_emitted_tells(c, d, at, actor);
}

proof fn lemma_transferred_tells(
    c: CompanyModel,
    person: Text,
    destination: Text,
    intent: Text,
    at: Text,
    actor: Text,
    vacates: Option<HeadVacancyModel>,
)
    ensures
        tells(c, c.transferred(person, destination, intent, at, actor, vacates), at, actor),
{
    let reason = ledger_line("transferred"@, actor);
    let a = c.move_all(seq![person], destination, intent, reason, true, at);
    lemma_move_told(c, seq![person], destination, intent, reason, true, at);
    let b = a.refresh_people_order(at);
    lemma_order_told(a, a.people_order(), at);
    lemma_told_through(c, a, b);
    match vacates {
        Some(decision) => {
            let v = b.vacated(person, decision, reason, at);
            lemma_vacated_told(b, person, decision, reason, at);
            lemma_told_through(c, b, v);
            let w = v.set_person_kind(person, PersonKind::Worker, at);
            lemma_person_ops(
                v,
                person,
                destination,
                PersonKind::Worker,
                EmploymentState::Active,
                0,
                at,
            );
            lemma_told_through(c, v, w);
            lemma_emitted_tells(c, w, at, actor);
        },
        None => {
            lemma_emitted_tells(c, b, at, actor);
        },
    }
}

proof fn lemma_members_moved_tells(
    c: CompanyModel,
    people: Seq<Text>,
    destination: Text,
    intent: Text,
    at: Text,
    actor: Text,
)
    ensures
        tells(c, c.members_moved(people, destination, intent, at, actor), at, actor),
{
    let a = c.move_all(people, destination, intent, intent, false, at);
    lemma_move_told(c, people, destination, intent, intent, false, at);
    let b = a.refresh_people_order(at);
    lemma_order_told(a, a.people_order(), at);
    lemma_told_through(c, a, b);
    lemma_emitted_tells(c, b, at, actor);
}

proof fn lemma_offboarded_tells(c: CompanyModel, person: Text, at: Text, actor: Text)
    ensures
        tells(c, c.offboarded(person, at, actor), at, actor),
{
    let home = c.people[person].department_id;
    let reason = ledger_line("offboarded"@, actor);
    match c.ready_transition(person, TransitionAction::Offboard) {
        Some(id) => {
            lemma_departed_told(c, person, home, home, Some(id), reason, at);
            lemma_emitted_tells(
                c,
                c.departed(person, home, home, Some(id), reason, at),
                at,
                actor,
            );
        },
        None => {
            let id = c.next_transition_id(person, TransitionAction::Offboard);
            let a = c.counted();
            lemma_same_told(c, a);
            let marker = offboard_marker(person);
            let b = a.supersede_open_transition(person, marker, at);
            lemma_supersede_told(a, person, marker, at);
            lemma_told_through(c, a, b);
            let row = awaiting_transition(
                person,
                TransitionAction::Offboard,
                home,
                reason,
                at,
                handoff_deadline(at),
            );
            let d = b.insert_transition(id, row);
            lemma_insert_transition_told(b, id, row);
            lemma_told_through(c, b, d);
            let e = d.departed(person, home, home, Some(id), reason, at);
            lemma_departed_told(d, person, home, home, Some(id), reason, at);
            lemma_told_through(c, d, e);
            lemma_emitted_tells(c, e, at, actor);
        },
    }
}

proof fn lemma_head_replaced_tells(
    c: CompanyModel,
    head: Text,
    successor: Text,
    at: Text,
    actor: Text,
)
    ensures
        tells(c, c.head_replaced(head, successor, at, actor), at, actor),
{
    let unit = c.headed_by(head)->0;
    let home = c.people[head].department_id;
    let reason = ledger_line("head replaced"@, actor);
    let id = c.next_transition_id(head, TransitionAction::Offboard);
    let row = awaiting_transition(
        head,
        TransitionAction::Offboard,
        home,
        "offboarded "@ + head,
        at,
        handoff_deadline(at),
    );
    let s = EmploymentState::Departed;
    let old = c.superseded_row(head, offboard_marker(head), at);
    let a = old.counted();
    lemma_same_told(old, a);
    let b = a.set_department_head(unit, successor, at);
    lemma_unit_ops(a, unit, successor, UnitState::Active, 0, at);
    lemma_told_through(old, a, b);
    let d = b.set_person_kind(successor, PersonKind::Head, at);
    lemma_person_ops(b, successor, home, PersonKind::Head, s, 0, at);
    lemma_told_through(old, b, d);
    let e = d.set_person_kind(head, PersonKind::Worker, at);
    lemma_person_ops(d, head, home, PersonKind::Worker, s, 0, at);
    lemma_told_through(old, d, e);
    let f = e.set_employment_state(head, s, at);
    lemma_person_ops(e, head, home, PersonKind::Worker, s, 0, at);
    lemma_told_through(old, e, f);
    let g = f.move_person(head, home, at);
    lemma_person_ops(f, head, home, PersonKind::Worker, s, 0, at);
    lemma_told_through(old, f, g);
    let h = g.insert_transition(id, row);
    lemma_insert_transition_told(g, id, row);
    lemma_told_through(old, g, h);
    let i = h.upsert_desired(head, false, Some(id), at);
    lemma_activity_ops(h, head, false, Some(id), s, home, false, at);
    lemma_told_through(old, h, i);
    let j = match c.open_transition(head) {
        Some(old_id) => i.touch(Entity::Transition, old_id, EventOp::Upsert),
        None => i,
    };
    lemma_same_told(i, i);
    if let Some(old_id) = c.open_transition(head) {
        assert(j.touches.drop_last() =~= i.touches);
        lemma_one_told(i, j, Entity::Transition, old_id);
    }
    lemma_told_through(old, i, j);
    assert(told(c, j)) by {
        assert(old.touches == c.touches && old.events == c.events);
        assert forall|k: Text| #[trigger] differs(c.transitions, j.transitions, k) implies
            names_entity(j.touches, Entity::Transition, k) by {
            if !differs(old.transitions, j.transitions, k) {
                let last = j.touches.len() - 1;
                assert(c.open_transition(head) == Some(k));
                assert(j.touches[last].entity == Entity::Transition);
            }
        }
        assert forall|k: Text| #[trigger] activity_differs(
            c.activity,
            j.activity,
            k,
        ) implies names_entity(j.touches, Entity::PersonActivity, k) by {
            assert(activity_differs(old.activity, j.activity, k));
        }
        assert forall|k: Text| #[trigger] differs(c.departments, j.departments, k) implies
            names_entity(j.touches, Entity::Department, k) by {
            assert(differs(old.departments, j.departments, k));
        }
        assert forall|k: Text| #[trigger] differs(c.people, j.people, k) implies names_entity(
            j.touches,
            Entity::Person,
            k,
        ) by {
            assert(differs(old.people, j.people, k));
        }
        assert forall|k: Text| #[trigger] differs(c.fences, j.fences, k) implies names_entity(
            j.touches,
            Entity::LaunchIntent,
            k,
        ) by {
            assert(differs(old.fences, j.fences, k));
        }
    }
    let z = j.append_staffing(
        successor,
        StaffingAction::AppointedHead,
        Some(unit),
        Some(unit),
        reason,
        at,
    ).append_staffing(
        head,
        StaffingAction::SteppedDown,
        Some(unit),
        Some(home),
        reason,
        at,
    ).append_staffing(head, StaffingAction::Offboarded, Some(home), None, reason, at);
    lemma_same_told(j, z);
    lemma_told_through(c, j, z);
    lemma_emitted_tells(c, z, at, actor);
}

proof fn lemma_removed_tells(c: CompanyModel, department: Text, at: Text, actor: Text)
    ensures
        tells(c, c.department_removed(department, at, actor), at, actor),
{
    let units = c.subtree_descending(department);
    let people = c.people_in(units);
    let rests = c.departments[department].parent_id->0;
    let reason = "department "@ + department + " removed"@;
    let a = c.left_behind_all(people, rests, reason, at);
    lemma_left_told(c, people, rests, reason, at);
    let b = a.delete_departments(units);
    lemma_deleted_told(a, units);
    lemma_told_through(c, a, b);
    let d = b.refresh_department_order(at);
    lemma_order_told(b, b.department_order(), at);
    lemma_told_through(c, b, d);
    let e = d.refresh_people_order(at);
    lemma_order_told(d, d.people_order(), at);
    lemma_told_through(c, d, e);
    lemma_emitted_tells(c, e, at, actor);
}

proof fn lemma_paused_tells(c: CompanyModel, department: Text, at: Text, actor: Text)
    ensures
        tells(c, c.paused(department, at, actor), at, actor),
        tells(c, c.resumed(department, at, actor), at, actor),
        tells(c, c.reactivated(at, actor), at, actor),
{
    let a = c.set_department_state(department, UnitState::Paused, at);
    lemma_unit_ops(c, department, department, UnitState::Paused, 0, at);
    let members = a.subtree_members(department);
    let b = a.swept_all(members, a.root_head(), department, at);
    lemma_swept_all_told(a, members, a.root_head(), department, at);
    lemma_told_through(c, a, b);
    lemma_emitted_tells(c, b, at, actor);
    lemma_unit_ops(c, department, department, UnitState::Active, 0, at);
    lemma_emitted_tells(
        c,
        c.set_department_state(department, UnitState::Active, at),
        at,
        actor,
    );
    let root = c.company_root()->0;
    lemma_same_told(c, c);
    lemma_unit_ops(c, root, root, UnitState::Active, 0, at);
    lemma_emitted_tells(c, c, at, actor);
    lemma_emitted_tells(c, c.set_department_state(root, UnitState::Active, at), at, actor);
}

proof fn lemma_benched_tells(c: CompanyModel, person: Text, at: Text, actor: Text)
    ensures
        tells(c, c.benched(person, at, actor), at, actor),
{
    let adopted = c.ready_transition(person, TransitionAction::Park);
    let marker = "superseded-by-bench:"@ + person;
    let s = EmploymentState::Benched;
    lemma_same_told(c, c);
    lemma_supersede_told(c, person, marker, at);
    let a = if adopted is None {
        c.supersede_open_transition(person, marker, at)
    } else {
        c
    };
    assert(told(c, a));
    let b = a.upsert_desired(person, false, adopted, at);
    lemma_activity_ops(a, person, false, adopted, s, person, false, at);
    lemma_told_through(c, a, b);
    let d = b.set_employment_state(person, s, at);
    lemma_person_ops(b, person, person, PersonKind::Worker, s, 0, at);
    lemma_told_through(c, b, d);
    let e = d.append_staffing(
        person,
        StaffingAction::Benched,
        Some(c.people[person].department_id),
        None,
        "benched "@ + person,
        at,
    );
    lemma_same_told(d, e);
    lemma_told_through(c, d, e);
    let f = e.delete_fence(person);
    lemma_fence_ops(e, person);
    lemma_told_through(c, e, f);
    lemma_emitted_tells(c, f, at, actor);
}

proof fn lemma_parked_tells(c: CompanyModel, person: Text, at: Text, actor: Text)
    ensures
        tells(c, c.park_prepared(person, at, actor), at, actor),
{
    lemma_same_told(c, c);
    if c.ready_transition(person, TransitionAction::Park) is Some {
        lemma_emitted_tells(c, c, at, actor);
    } else {
        let id = c.bench_park(person);
        let a = c.counted();
        lemma_same_told(c, a);
        let b = a.upsert_desired(person, c.desired(person), Some(id), at);
        lemma_activity_ops(
            a,
            person,
            c.desired(person),
            Some(id),
            EmploymentState::Active,
            person,
            false,
            at,
        );
        lemma_told_through(c, a, b);
        let row = released_transition(
            person,
            TransitionAction::Park,
            c.ledger_placement(person),
            "Bench '"@ + person + "' after a bounded handoff."@,
            at,
        );
        let d = b.insert_transition(id, row);
        lemma_insert_transition_told(b, id, row);
        lemma_told_through(c, b, d);
        lemma_emitted_tells(c, d, at, actor);
    }
}

proof fn lemma_shut_down_tells(
    c: CompanyModel,
    person: Text,
    kind: ShutdownKindModel,
    at: Text,
    actor: Text,
)
    ensures
        tells(c, c.shut_down(person, kind, at, actor), at, actor),
{
    let id = c.next_transition_id(person, TransitionAction::Park);
    let row = abandoned_transition(
        person,
        TransitionAction::Park,
        c.people[person].department_id,
        kind.intent(),
        kind.line(person),
        at,
    );
    let a = c.counted();
    lemma_same_told(c, a);
    let b = a.supersede_open_transition(person, kind.marker(), at);
    lemma_supersede_told(a, person, kind.marker(), at);
    lemma_told_through(c, a, b);
    let d = b.insert_transition(id, row);
    lemma_insert_transition_told(b, id, row);
    lemma_told_through(c, b, d);
    let e = d.upsert_desired(person, false, None, at);
    lemma_activity_ops(d, person, false, None, EmploymentState::Active, person, false, at);
    lemma_told_through(c, d, e);
    let f = e.delete_fence(person);
    lemma_fence_ops(e, person);
    lemma_told_through(c, e, f);
    lemma_emitted_tells(c, f, at, actor);
}

proof fn lemma_returned_told(x: CompanyModel, person: Text, action: StaffingAction, at: Text)
    ensures
        told(x, x.returned(person, action, at)),
{
    let a = x.set_employment_state(person, EmploymentState::Active, at);
    lemma_person_ops(x, person, person, PersonKind::Worker, EmploymentState::Active, 0, at);
    lemma_same_told(a, x.returned(person, action, at));
    lemma_told_through(x, a, x.returned(person, action, at));
}

proof fn lemma_started_tells(c: CompanyModel, person: Text, at: Text, actor: Text)
    ensures
        tells(c, c.started(person, at, actor), at, actor),
{
    let s = EmploymentState::Active;
    let chief = c.is_ceo(person);
    lemma_same_told(c, c);
    lemma_returned_told(c, person, StaffingAction::Recalled, at);
    lemma_returned_told(c, person, StaffingAction::Rehired, at);
    let back = c.returned(person, StaffingAction::Rehired, at);
    let worker = back.set_person_kind(person, PersonKind::Worker, at);
    lemma_person_ops(back, person, person, PersonKind::Worker, s, 0, at);
    lemma_told_through(c, back, worker);
    let marker = "superseded-by-rehire:"@ + person;
    let freed = worker.supersede_open_transition(person, marker, at);
    lemma_supersede_told(worker, person, marker, at);
    lemma_told_through(c, worker, freed);
    let wanted_again = freed.upsert_desired(person, true, None, at);
    lemma_activity_ops(freed, person, true, None, s, person, false, at);
    lemma_told_through(c, freed, wanted_again);
    let staffed = match c.people[person].employment_state {
        EmploymentState::Active => c,
        EmploymentState::Benched => c.returned(person, StaffingAction::Recalled, at),
        EmploymentState::Departed => wanted_again,
    };
    assert(told(c, staffed));
    lemma_fence_ops(staffed, person);
    lemma_same_told(staffed, staffed);
    let fenced = if chief {
        staffed
    } else {
        staffed.insert_fence(person)
    };
    lemma_told_through(c, staffed, fenced);
    let wanted = fenced.ensure_desired_active(person, at);
    lemma_activity_ops(fenced, person, true, None, s, person, false, at);
    lemma_told_through(c, fenced, wanted);
    if chief {
        lemma_emitted_tells(c, wanted, at, actor);
    } else {
        let fact = "superseded-by-start:"@ + person;
        let loose = wanted.release_idle_park(person, at, fact);
        lemma_release_told(wanted, person, at, fact);
        lemma_told_through(c, wanted, loose);
        let lease = loose.begin_idle_lease(person, at);
        lemma_activity_ops(loose, person, true, None, s, person, false, at);
        lemma_told_through(c, loose, lease);
        lemma_emitted_tells(c, lease, at, actor);
    }
}

proof fn lemma_woken_tells(c: CompanyModel, person: Text, at: Text, actor: Text)
    ensures
        tells(c, c.woken(person, at, actor), at, actor),
        tells(c, c.recalled(person, at, actor), at, actor),
{
    lemma_same_told(c, c);
    let back = c.returned(person, StaffingAction::Recalled, at);
    lemma_returned_told(c, person, StaffingAction::Recalled, at);
    lemma_emitted_tells(c, back, at, actor);
    let staffed = if c.people[person].employment_state == EmploymentState::Benched {
        back
    } else {
        c
    };
    assert(told(c, staffed));
    lemma_fence_ops(staffed, person);
    lemma_same_told(staffed, staffed);
    let fenced = if c.is_ceo(person) {
        staffed
    } else {
        staffed.insert_fence(person)
    };
    lemma_told_through(c, staffed, fenced);
    let fact = "superseded-by-wake:"@ + person;
    let loose = fenced.release_idle_park(person, at, fact);
    lemma_release_told(fenced, person, at, fact);
    lemma_told_through(c, fenced, loose);
    lemma_emitted_tells(c, loose, at, actor);
}

proof fn lemma_attached_tells(c: CompanyModel, at: Text, actor: Text)
    ensures
        tells(c, c.ceo_only(at, actor), at, actor),
{
    let chief = c.root_head()->0;
    let a = c.retract_non_kept(chief, at);
    lemma_retract_all_told(c, listing(c.activity.dom()), chief, at);
    let b = a.clear_fences_but(chief);
    lemma_clear_told(a, listing(a.fences.dom()), chief);
    lemma_told_through(c, a, b);
    let d = b.insert_fence(chief);
    lemma_fence_ops(b, chief);
    lemma_told_through(c, b, d);
    let e = d.upsert_quiesce(c.settings->0.display_slug, at);
    if e.touches == d.touches {
        lemma_same_told(d, e);
    } else {
        assert(e.touches.drop_last() =~= d.touches);
        lemma_one_told(d, e, Entity::GoalDeliveryQuiesce, c.settings->0.display_slug);
    }
    lemma_told_through(c, d, e);
    lemma_emitted_tells(c, e, at, actor);
}

proof fn lemma_published_tells(c: CompanyModel, at: Text, launcher_root: Text)
    ensures
        tells(c, c.launcher_root_published(at, launcher_root), at, Seq::empty()),
{
    let a = c.launcher_root_set(launcher_root);
    lemma_same_told(c, a);
    let b = a.touch(Entity::Org, c.slug, EventOp::Upsert);
    assert(b.touches.drop_last() =~= a.touches);
    lemma_one_told(a, b, Entity::Org, c.slug);
    lemma_told_through(c, a, b);
    lemma_emitted_tells(c, b, at, ""@);
    reveal_strlit("");
    assert(""@ =~= Seq::empty());
}

proof fn lemma_parked_and_benched_tells(c: CompanyModel, person: Text, at: Text, actor: Text)
    ensures
        tells(c, c.park_prepared(person, at, actor).benched(person, at, actor), at, actor),
{
    let ready = c.park_prepared(person, at, actor);
    lemma_parked_tells(c, person, at, actor);
    lemma_benched_tells(ready, person, at, actor);
    lemma_tells_through(c, ready, ready.benched(person, at, actor), at, actor);
}

proof fn lemma_resumed_tells(c: CompanyModel, departments: Seq<Text>, at: Text, actor: Text)
    ensures
        tells(c, c.resume_all(departments, at).emitted(at, actor), at, actor),
{
    lemma_resume_all_told(c, departments, at);
    lemma_emitted_tells(c, c.resume_all(departments, at), at, actor);
}

/// Every unit, person, transition, activity and start decision that a decision
/// changes is named by an event that it adds: whoever reads the feed hears of every
/// row that came, went or became another, when, and by whom.
pub proof fn law_every_row_change_is_told(c: CompanyModel, d: Decision, at: Text, actor: Text)
    ensures
        tells(c, c.decided(d, at, actor), clock(d, at), author(d, actor)),
{
    match d {
        Decision::Create { proposal } => lemma_created_tells(c, proposal, actor),
        Decision::Hire { newcomer } => lemma_hired_tells(c, newcomer, actor),
        Decision::Appoint { department, successor, demote_to } => lemma_appointed_tells(
            c,
            department,
            successor,
            demote_to,
            at,
            actor,
        ),
        Decision::Reparent { department, parent } => lemma_reparented_tells(
            c,
            department,
            parent,
            at,
            actor,
        ),
        Decision::Transfer { person, destination, intent, vacates } => lemma_transferred_tells(
            c,
            person,
            destination,
            intent,
            at,
            actor,
            vacates,
        ),
        Decision::MoveMembers { from, destination, named, intent } => lemma_members_moved_tells(
            c,
            c.batch(from, named),
            destination,
            intent,
            at,
            actor,
        ),
        Decision::Offboard { person } => lemma_offboarded_tells(c, person, at, actor),
        Decision::ReplaceHead { head, successor } => lemma_head_replaced_tells(
            c,
            head,
            successor,
            at,
            actor,
        ),
        Decision::RemoveTree { department } => lemma_removed_tells(c, department, at, actor),
        Decision::Pause { department } => lemma_paused_tells(c, department, at, actor),
        Decision::Resume { department } => lemma_paused_tells(c, department, at, actor),
        Decision::ResumeMany { departments, skip_active } => lemma_resumed_tells(
            c,
            departments,
            at,
            actor,
        ),
        Decision::Shutdown { person, kind } => lemma_shut_down_tells(c, person, kind, at, actor),
        Decision::Bench { person } => lemma_benched_tells(c, person, at, actor),
        Decision::BenchLifecycle { person } => lemma_parked_and_benched_tells(
            c,
            person,
            at,
            actor,
        ),
        Decision::Start { person } => lemma_started_tells(c, person, at, actor),
        Decision::Wake { person } => lemma_woken_tells(c, person, at, actor),
        Decision::Recall { person } => lemma_woken_tells(c, person, at, actor),
        Decision::ReactivateRoot => lemma_paused_tells(c, at, at, actor),
        Decision::CeoOnly => lemma_attached_tells(c, at, actor),
        Decision::PublishLauncherRoot { launcher_root } => lemma_published_tells(
            c,
            at,
            launcher_root,
        ),
    }
}

/// Preparing a company for an operator who attaches tells from when on mail is
/// delivered, under the name the company goes by, unless it is so already.
pub proof fn law_the_watermark_is_told(c: CompanyModel, at: Text, actor: Text)
    requires
        c.settings is Some,
        c.quiesce_since != Some(at),
    ensures
        event_names(
            c.ceo_only(at, actor).events,
            c.events.len() as int,
            Entity::GoalDeliveryQuiesce,
            c.settings->0.display_slug,
        ),
{
    let chief = c.root_head()->0;
    let a = c.retract_non_kept(chief, at);
    lemma_retract_all_told(c, listing(c.activity.dom()), chief, at);
    lemma_retract_in(c, listing(c.activity.dom()), chief, at);
    let b = a.clear_fences_but(chief);
    lemma_clear_told(a, listing(a.fences.dom()), chief);
    lemma_clear_fences_in(a, listing(a.fences.dom()), chief);
    let d = b.insert_fence(chief);
    lemma_fence_ops(b, chief);
    let name = c.settings->0.display_slug;
    let e = d.upsert_quiesce(name, at);
    assert(d.quiesce_since == c.quiesce_since);
    assert(e.touches[e.touches.len() - 1].entity == Entity::GoalDeliveryQuiesce);
    assert(names_entity(e.touches, Entity::GoalDeliveryQuiesce, name));
    assert(e.events == c.events);
    lemma_event_of(c.events, e.touches, at, actor, Entity::GoalDeliveryQuiesce, name);
}

// ---------------------------------------------------------------------------
// What an event says
// ---------------------------------------------------------------------------

/// Whether a place in a run of row changes is the first that names its thing.
pub open spec fn names_first(touches: Seq<TouchModel>, j: int) -> bool {
    &&& 0 <= j < touches.len()
    &&& forall|k: int|
        0 <= k < j ==> !((#[trigger] touches[k]).entity == touches[j].entity
            && touches[k].entity_id == touches[j].entity_id)
}

/// Whether what is at a place of the one run is the first of its thing in the
/// other.
pub open spec fn is_a_first(kept: Seq<TouchModel>, touches: Seq<TouchModel>, i: int) -> bool {
    exists|j: int| #[trigger] names_first(touches, j) && touches[j] == kept[i]
}

proof fn lemma_firsts(touches: Seq<TouchModel>)
    ensures
        forall|i: int|
            0 <= i < first_touches(touches).len() ==> #[trigger] is_a_first(
                first_touches(touches),
                touches,
                i,
            ),
    decreases touches.len(),
{
    if touches.len() > 0 {
        let front = touches.drop_last();
        lemma_firsts(front);
        lemma_first_touches(front);
        let a = first_touches(front);
        let b = first_touches(touches);
        assert forall|i: int| 0 <= i < b.len() implies #[trigger] is_a_first(b, touches, i) by {
            if i < a.len() {
                assert(is_a_first(a, front, i));
                let j = choose|j: int| #[trigger] names_first(front, j) && front[j] == a[i];
                assert(names_first(touches, j)) by {
                    assert forall|k: int| 0 <= k < j implies !((#[trigger] touches[k]).entity
                        == touches[j].entity && touches[k].entity_id == touches[j].entity_id) by {
                        assert(front[k] == touches[k] && front[j] == touches[j]);
                    }
                }
                assert(touches[j] == b[i]);
            } else {
                let j = touches.len() - 1;
                assert(!names_entity(front, touches[j].entity, touches[j].entity_id));
                assert(names_first(touches, j)) by {
                    assert forall|k: int| 0 <= k < j implies !((#[trigger] touches[k]).entity
                        == touches[j].entity && touches[k].entity_id == touches[j].entity_id) by {
                        assert(front[k] == touches[k]);
                        if touches[k].entity == touches[j].entity && touches[k].entity_id
                            == touches[j].entity_id {
                            assert(front[k].entity == touches[j].entity);
                        }
                    }
                }
                assert(touches[j] == b[i]);
            }
        }
    }
}

/// Every row change becomes an event in its turn, which names the same thing and
/// says the same of it: that it was written, or that it was deleted. Where each
/// thing is told once, it is by its first change.
pub proof fn law_what_an_event_says(c: CompanyModel, at: Text, actor: Text)
    ensures
        ({
            let r = c.emitted(at, actor);
            let n = c.events.len() as int;
            &&& r.events.len() == n + c.touches.len()
            &&& r.events.take(n) == c.events
            &&& forall|i: int|
                0 <= i < c.touches.len() ==> (#[trigger] r.events[n + i]).entity
                    == c.touches[i].entity && r.events[n + i].entity_id == c.touches[i].entity_id
                    && r.events[n + i].op == c.touches[i].op && r.events[n + i].at == at
                    && r.events[n + i].actor == actor
            &&& r.touches.len() == 0
            &&& r == CompanyModel { events: r.events, touches: r.touches, ..c }
        }),
        forall|i: int|
            0 <= i < c.deduped().touches.len() ==> #[trigger] is_a_first(
                c.deduped().touches,
                c.touches,
                i,
            ),
        forall|e: Entity, id: Text| #[trigger]
            names_entity(c.deduped().touches, e, id) <==> names_entity(c.touches, e, id),
        c.deduped() == (CompanyModel { touches: c.deduped().touches, ..c }),
{
    let r = c.emitted(at, actor);
    assert(r.events.take(c.events.len() as int) =~= c.events);
    lemma_firsts(c.touches);
    lemma_first_touches(c.touches);
}

/// What a row change leaves to be told: a unit that goes and a start decision that
/// is taken back are told as deleted, and everything else as written; a start
/// decision that changes nothing is not told.
pub proof fn law_what_is_left_to_be_told(
    c: CompanyModel,
    id: Text,
    other: Text,
    transition: TransitionModel,
    seed: SeedModel,
    at: Text,
)
    ensures
        ({
            let wrote = |e: Entity| c.touches.push(
                TouchModel { entity: e, entity_id: id, op: EventOp::Upsert },
            );
            let deleted = |e: Entity| c.touches.push(
                TouchModel { entity: e, entity_id: id, op: EventOp::Delete },
            );
            &&& c.set_parent(id, other, at).touches == wrote(Entity::Department)
            &&& c.set_department_head(id, other, at).touches == wrote(Entity::Department)
            &&& c.set_department_state(id, UnitState::Paused, at).touches == wrote(
                Entity::Department,
            )
            &&& c.delete_department(id).touches == deleted(Entity::Department)
            &&& c.insert_person(id, other, seed, at).touches == wrote(Entity::Person)
            &&& c.move_person(id, other, at).touches == wrote(Entity::Person)
            &&& c.set_person_kind(id, seed.kind, at).touches == wrote(Entity::Person)
            &&& c.set_employment_state(id, seed.employment_state, at).touches == wrote(
                Entity::Person,
            )
            &&& c.insert_transition(id, transition).touches == wrote(Entity::Transition)
            &&& c.cancel_transition(id, other, at).touches == wrote(Entity::Transition)
            &&& c.upsert_desired(id, true, None, at).touches == wrote(Entity::PersonActivity)
            &&& c.delete_fence(id).touches == if c.fences.dom().contains(id) {
                deleted(Entity::LaunchIntent)
            } else {
                c.touches
            }
            &&& c.insert_fence(id).touches == if c.fences.dom().contains(id) {
                c.touches
            } else {
                wrote(Entity::LaunchIntent)
            }
        }),
{
}

} // verus!
