//! Every decision keeps the ledger of transitions sound.

use vstd::prelude::*;

use crate::company::{CompanyModel, StaffingAction, TransitionAction};
use crate::laws::decision::Decision;
use crate::laws::frames::{
    lemma_clear_fences_in, lemma_delete_departments, lemma_number_departments,
    lemma_number_people, lemma_rehome, lemma_resume_all, lemma_retract_in,
};
use crate::laws::ledger::{
    carried, ids_counted, ledgered, lemma_cancelled, lemma_carried_through, lemma_ledger_same,
    lemma_minted, lemma_next_is_free, lemma_open_transition, lemma_ready_transition,
    lemma_repointed, lemma_superseded, minted, none_open, pointers_stand, points,
};
use crate::org_ops::create::hire_line;
use crate::org_ops::decisions::{HeadDecisionModel, HeadVacancyModel, StaffModel};
use crate::org_ops::departures::offboard_marker;
use crate::org_ops::guards::ledger_line;
use crate::org_ops::pause::{lemma_members_fit, pause_line, pause_marker, unit_stop};
use crate::org_ops::seeds::SeedModel;
use crate::org_ops::shutdown::ShutdownKindModel;
use crate::org_ops::transfer::transfer_marker;
use crate::org_projection::{CreateModel, HireModel};
use crate::organization::{EmploymentState, PersonKind, UnitState};
use crate::rows::ledger::{
    abandoned_transition, awaiting_transition, cancelled_transition, handoff_deadline,
};
use crate::table::{lemma_finite_listing, listing};
use crate::text::Text;

verus! {

/// Whether the ledger is sound still, and every transition in it carried over.
pub open spec fn ledger_kept(a: CompanyModel, b: CompanyModel) -> bool {
    ledgered(b) && carried(a, b)
}

proof fn lemma_kept_through(a: CompanyModel, b: CompanyModel, c: CompanyModel)
    requires
        ledger_kept(a, b),
        ledger_kept(b, c),
    ensures
        ledger_kept(a, c),
{
    lemma_carried_through(a, b, c);
}

proof fn lemma_kept_same(a: CompanyModel, b: CompanyModel)
    requires
        ledgered(a),
        a.transitions == b.transitions,
        a.activity == b.activity,
        a.transition_seq == b.transition_seq,
    ensures
        ledger_kept(a, b),
{
    lemma_ledger_same(a, b);
}

/// `c` with the number it had before it was counted up.
spec fn uncounted(c: CompanyModel, seq: u64) -> CompanyModel {
    CompanyModel { transition_seq: seq, ..c }
}

/// Counting up first and superseding then leaves the number that was counted
/// free.
proof fn lemma_counted_superseded(c: CompanyModel, person: Text, marker: Text, at: Text)
    requires
        c.finite(),
        ledgered(c),
        c.transition_seq < u64::MAX,
    ensures
        ({
            let b = c.counted().supersede_open_transition(person, marker, at);
            let u = uncounted(b, c.transition_seq);
            &&& b.finite()
            &&& ledger_kept(c, u)
            &&& none_open(u, person)
            &&& b.transition_seq == c.transition_seq + 1
            &&& b.people == c.people
            &&& b.departments == c.departments
        }),
{
    let d = c.counted();
    assert(ledgered(d));
    lemma_superseded(d, person, marker, at);
    let b = d.supersede_open_transition(person, marker, at);
    let u = uncounted(b, c.transition_seq);
    assert(pointers_stand(u)) by {
        assert forall|p: Text| #[trigger] u.activity.dom().contains(p) implies (
        u.activity[p].active_transition_id matches Some(t) ==> points(u, p, t)) by {
            assert(b.activity.dom().contains(p));
            if let Some(t) = b.activity[p].active_transition_id {
                assert(points(b, p, t));
            }
        }
    }
    assert(ids_counted(u));
    assert(carried(c, u)) by {
        assert(carried(d, b));
    }
}

proof fn lemma_shut_down(
    c: CompanyModel,
    person: Text,
    kind: ShutdownKindModel,
    at: Text,
    actor: Text,
)
    requires
        c.finite(),
        ledgered(c),
        c.transition_seq < u64::MAX,
    ensures
        ledger_kept(c, c.shut_down(person, kind, at, actor)),
{
    let b = c.counted().supersede_open_transition(person, kind.marker(), at);
    let u = uncounted(b, c.transition_seq);
    lemma_counted_superseded(c, person, kind.marker(), at);
    let id = c.next_transition_id(person, TransitionAction::Park);
    let e = b.insert_transition(
        id,
        abandoned_transition(
            person,
            TransitionAction::Park,
            c.people[person].department_id,
            kind.intent(),
            kind.line(person),
            at,
        ),
    );
    assert(e.transitions.dom() =~= u.transitions.dom().insert(id));
    assert(minted(u, e, person, TransitionAction::Park));
    lemma_minted(u, e, person, TransitionAction::Park);
    lemma_kept_through(c, u, e);
    let r = c.shut_down(person, kind, at, actor);
    lemma_repointed(e, r, person);
    lemma_kept_through(c, e, r);
}

proof fn lemma_offboarded(c: CompanyModel, person: Text, at: Text, actor: Text)
    requires
        c.finite(),
        ledgered(c),
        c.transition_seq < u64::MAX,
    ensures
        ledger_kept(c, c.offboarded(person, at, actor)),
{
    let r = c.offboarded(person, at, actor);
    lemma_ready_transition(c, person, TransitionAction::Offboard);
    match c.ready_transition(person, TransitionAction::Offboard) {
        Some(id) => {
            assert(points(c, person, id));
            lemma_repointed(c, r, person);
        },
        None => {
            let home = c.people[person].department_id;
            let reason = ledger_line("offboarded"@, actor);
            let b = c.counted().supersede_open_transition(person, offboard_marker(person), at);
            let u = uncounted(b, c.transition_seq);
            lemma_counted_superseded(c, person, offboard_marker(person), at);
            let id = c.next_transition_id(person, TransitionAction::Offboard);
            let e = b.insert_transition(
                id,
                awaiting_transition(
                    person,
                    TransitionAction::Offboard,
                    home,
                    reason,
                    at,
                    handoff_deadline(at),
                ),
            );
            assert(e.transitions.dom() =~= u.transitions.dom().insert(id));
            assert(minted(u, e, person, TransitionAction::Offboard));
            lemma_minted(u, e, person, TransitionAction::Offboard);
            lemma_kept_through(c, u, e);
            assert(points(e, person, id));
            lemma_repointed(e, r, person);
            lemma_kept_through(c, e, r);
        },
    }
}

proof fn lemma_head_replaced(
    c: CompanyModel,
    head: Text,
    successor: Text,
    at: Text,
    actor: Text,
)
    requires
        c.finite(),
        ledgered(c),
        c.transition_seq < u64::MAX,
    ensures
        ledger_kept(c, c.head_replaced(head, successor, at, actor)),
{
    let r = c.head_replaced(head, successor, at, actor);
    let b = c.superseded_row(head, offboard_marker(head), at);
    lemma_superseded(c, head, offboard_marker(head), at);
    let home = c.people[head].department_id;
    let id = c.next_transition_id(head, TransitionAction::Offboard);
    let row = awaiting_transition(
        head,
        TransitionAction::Offboard,
        home,
        "offboarded "@ + head,
        at,
        handoff_deadline(at),
    );
    let e = b.counted().insert_transition(id, row);
    assert(e.transitions.dom() =~= b.transitions.dom().insert(id));
    assert(minted(b, e, head, TransitionAction::Offboard));
    lemma_minted(b, e, head, TransitionAction::Offboard);
    lemma_kept_through(c, b, e);
    assert(points(e, head, id));
    assert(r.transitions == e.transitions);
    lemma_repointed(e, r, head);
    lemma_kept_through(c, e, r);
}

proof fn lemma_park_prepared(c: CompanyModel, person: Text, at: Text, actor: Text)
    requires
        c.finite(),
        ledgered(c),
        c.transition_seq < u64::MAX,
        !c.park_breaks(person),
    ensures
        ledger_kept(c, c.park_prepared(person, at, actor)),
        c.park_prepared(person, at, actor).finite(),
{
    let r = c.park_prepared(person, at, actor);
    if c.ready_transition(person, TransitionAction::Park) is Some {
        lemma_kept_same(c, r);
    } else {
        lemma_open_transition(c, person);
        let id = c.bench_park(person);
        assert(r.transitions.dom() =~= c.transitions.dom().insert(id));
        assert(minted(c, r, person, TransitionAction::Park)) by {
            lemma_next(c, person);
        }
        assert(points(r, person, id));
        assert(r.activity.dom() =~= c.activity.dom().insert(person));
        lemma_minted(c, r, person, TransitionAction::Park);
    }
}

proof fn lemma_next(c: CompanyModel, person: Text)
    requires
        ledgered(c),
    ensures
        !c.transitions.dom().contains(c.next_transition_id(person, TransitionAction::Park)),
{
    lemma_next_is_free(c, person, TransitionAction::Park);
}

proof fn lemma_benched(c: CompanyModel, person: Text, at: Text, actor: Text)
    requires
        c.finite(),
        ledgered(c),
    ensures
        ledger_kept(c, c.benched(person, at, actor)),
{
    let r = c.benched(person, at, actor);
    lemma_ready_transition(c, person, TransitionAction::Park);
    match c.ready_transition(person, TransitionAction::Park) {
        Some(id) => {
            assert(points(c, person, id));
            lemma_repointed(c, r, person);
        },
        None => {
            let marker = "superseded-by-bench:"@ + person;
            lemma_superseded(c, person, marker, at);
            let b = c.supersede_open_transition(person, marker, at);
            lemma_repointed(b, r, person);
            lemma_kept_through(c, b, r);
        },
    }
}

/// Letting somebody go from the park they rest under keeps the ledger sound.
proof fn lemma_released(c: CompanyModel, person: Text, at: Text, fact: Text)
    requires
        ledgered(c),
    ensures
        ledger_kept(c, c.release_idle_park(person, at, fact)),
{
    let r = c.release_idle_park(person, at, fact);
    if c.activity.dom().contains(person) {
        match c.parked_under(person) {
            Some(t) => {
                assert(points(c, person, t));
                if c.transitions[t].status.open() {
                    assert(r.transitions.dom() =~= c.transitions.dom());
                    assert(r.activity.dom() =~= c.activity.dom());
                    lemma_cancelled(c, r, person, t);
                } else {
                    lemma_repointed(c, r, person);
                }
            },
            None => {
                lemma_repointed(c, r, person);
            },
        }
    }
}

proof fn lemma_started(c: CompanyModel, person: Text, at: Text, actor: Text)
    requires
        c.finite(),
        ledgered(c),
    ensures
        ledger_kept(c, c.started(person, at, actor)),
{
    let chief = c.is_ceo(person);
    let marker = "superseded-by-rehire:"@ + person;
    let staffed = match c.people[person].employment_state {
        EmploymentState::Active => c,
        EmploymentState::Benched => c.returned(person, StaffingAction::Recalled, at),
        EmploymentState::Departed => {
            let back = c.returned(person, StaffingAction::Rehired, at).set_person_kind(
                person,
                PersonKind::Worker,
                at,
            );
            lemma_kept_same(c, back);
            lemma_superseded(back, person, marker, at);
            let free = back.supersede_open_transition(person, marker, at);
            lemma_kept_through(c, back, free);
            let wanted = free.upsert_desired(person, true, None, at);
            lemma_repointed(free, wanted, person);
            lemma_kept_through(c, free, wanted);
            wanted
        },
    };
    assert(ledger_kept(c, staffed)) by {
        if c.people[person].employment_state != EmploymentState::Departed {
            lemma_kept_same(c, staffed);
        }
    }
    let fenced = if chief {
        staffed
    } else {
        staffed.insert_fence(person)
    };
    lemma_kept_same(staffed, fenced);
    let wanted = fenced.ensure_desired_active(person, at);
    assert(ledger_kept(fenced, wanted)) by {
        if fenced.activity.dom().contains(person) {
            if let Some(t) = fenced.activity[person].active_transition_id {
                assert(points(fenced, person, t));
            }
        }
        lemma_repointed(fenced, wanted, person);
    }
    lemma_kept_through(c, staffed, fenced);
    lemma_kept_through(c, fenced, wanted);
    let r = c.started(person, at, actor);
    if chief {
        lemma_kept_same(wanted, r);
        lemma_kept_through(c, wanted, r);
    } else {
        let fact = "superseded-by-start:"@ + person;
        lemma_released(wanted, person, at, fact);
        let free = wanted.release_idle_park(person, at, fact);
        lemma_kept_through(c, wanted, free);
        let leased = free.begin_idle_lease(person, at);
        assert(ledger_kept(free, leased)) by {
            if free.activity.dom().contains(person) {
                if let Some(t) = free.activity[person].active_transition_id {
                    assert(points(free, person, t));
                }
            }
            lemma_repointed(free, leased, person);
        }
        lemma_kept_through(c, free, leased);
        lemma_kept_same(leased, r);
        lemma_kept_through(c, leased, r);
    }
}

proof fn lemma_woken(c: CompanyModel, person: Text, at: Text, actor: Text)
    requires
        ledgered(c),
    ensures
        ledger_kept(c, c.woken(person, at, actor)),
{
    let staffed = if c.people[person].employment_state == EmploymentState::Benched {
        c.returned(person, StaffingAction::Recalled, at)
    } else {
        c
    };
    let fenced = if c.is_ceo(person) {
        staffed
    } else {
        staffed.insert_fence(person)
    };
    lemma_kept_same(c, fenced);
    let fact = "superseded-by-wake:"@ + person;
    lemma_released(fenced, person, at, fact);
    let free = fenced.release_idle_park(person, at, fact);
    lemma_kept_through(c, fenced, free);
    let r = c.woken(person, at, actor);
    lemma_kept_same(free, r);
    lemma_kept_through(c, free, r);
}

proof fn lemma_move_all(
    c: CompanyModel,
    people: Seq<Text>,
    destination: Text,
    intent: Text,
    reason: Text,
    adopt: bool,
    at: Text,
)
    requires
        c.finite(),
        ledgered(c),
    ensures
        ledger_kept(c, c.move_all(people, destination, intent, reason, adopt, at)),
        c.move_all(people, destination, intent, reason, adopt, at).finite(),
    decreases people.len(),
{
    if people.len() == 0 {
        lemma_kept_same(c, c);
    } else {
        let front = people.drop_last();
        let b = c.move_all(front, destination, intent, reason, adopt, at);
        lemma_move_all(c, front, destination, intent, reason, adopt, at);
        let who = people.last();
        let e = if adopt && b.ready_transition(who, TransitionAction::Transfer) is Some {
            lemma_kept_same(b, b);
            b
        } else {
            lemma_superseded(b, who, transfer_marker(intent), at);
            b.supersede_open_transition(who, transfer_marker(intent), at)
        };
        lemma_kept_through(c, b, e);
        let r = c.move_all(people, destination, intent, reason, adopt, at);
        lemma_kept_same(e, r);
        lemma_kept_through(c, e, r);
    }
}

pub proof fn lemma_left_behind_all(
    c: CompanyModel,
    people: Seq<Text>,
    rests: Text,
    reason: Text,
    at: Text,
)
    requires
        c.finite(),
        ledgered(c),
    ensures
        ledger_kept(c, c.left_behind_all(people, rests, reason, at)),
        c.left_behind_all(people, rests, reason, at).finite(),
    decreases people.len(),
{
    if people.len() == 0 {
        lemma_kept_same(c, c);
    } else {
        let front = people.drop_last();
        let b = c.left_behind_all(front, rests, reason, at);
        lemma_left_behind_all(c, front, rests, reason, at);
        let who = people.last();
        let home = b.people[who].department_id;
        let marker = "superseded-by-department-removal:"@ + home;
        let f = b.delete_fence(who);
        lemma_kept_same(b, f);
        lemma_kept_through(c, b, f);
        lemma_superseded(f, who, marker, at);
        let e = f.supersede_open_transition(who, marker, at);
        lemma_kept_through(c, f, e);
        let r = c.left_behind_all(people, rests, reason, at);
        lemma_repointed(e, r, who);
        lemma_kept_through(c, e, r);
    }
}

pub proof fn lemma_swept(c: CompanyModel, member: Text, department: Text, at: Text)
    requires
        c.finite(),
        ledgered(c),
        c.transition_seq < u64::MAX,
    ensures
        ledger_kept(c, c.swept(member, department, at)),
        c.swept(member, department, at).finite(),
        c.swept(member, department, at).transition_seq <= c.transition_seq + 1,
{
    let r = c.swept(member, department, at);
    let marker = pause_marker(department);
    lemma_superseded(c, member, marker, at);
    let e = c.supersede_open_transition(member, marker, at);
    let quiet = e.delete_fence(member);
    lemma_kept_same(e, quiet);
    lemma_kept_through(c, e, quiet);
    if c.people.dom().contains(member) && c.people[member].employment_state
        != EmploymentState::Departed {
        let home = c.people[member].department_id;
        let id = quiet.next_transition_id(member, TransitionAction::Park);
        let active = c.lifecycle_active(member);
        let fenced = c.fences.dom().contains(member);
        let recorded = if active {
            quiet.counted().insert_transition(
                id,
                cancelled_transition(
                    member,
                    TransitionAction::Park,
                    home,
                    unit_stop(department, id),
                    marker,
                    at,
                ),
            )
        } else if fenced {
            quiet.counted().insert_transition(
                id,
                abandoned_transition(
                    member,
                    TransitionAction::Park,
                    home,
                    None,
                    pause_line(member, department),
                    at,
                ),
            )
        } else {
            quiet
        };
        if active || fenced {
            assert(recorded.transitions.dom() =~= quiet.transitions.dom().insert(id));
            assert(minted(quiet, recorded, member, TransitionAction::Park)) by {
                lemma_next(quiet, member);
            }
            lemma_minted(quiet, recorded, member, TransitionAction::Park);
        } else {
            lemma_kept_same(quiet, recorded);
        }
        lemma_kept_through(c, quiet, recorded);
        assert(ledger_kept(recorded, r)) by {
            if recorded.activity.dom().contains(member) {
                if let Some(t) = recorded.activity[member].active_transition_id {
                    assert(points(recorded, member, t));
                }
            }
            lemma_repointed(recorded, r, member);
        }
        lemma_kept_through(c, recorded, r);
    }
}

proof fn lemma_swept_all(
    c: CompanyModel,
    members: Seq<Text>,
    ceo: Option<Text>,
    department: Text,
    at: Text,
)
    requires
        c.finite(),
        ledgered(c),
        c.transition_seq + members.len() <= u64::MAX,
    ensures
        ledger_kept(c, c.swept_all(members, ceo, department, at)),
        c.swept_all(members, ceo, department, at).finite(),
        c.swept_all(members, ceo, department, at).transition_seq <= c.transition_seq
            + members.len(),
    decreases members.len(),
{
    if members.len() == 0 {
        lemma_kept_same(c, c);
    } else {
        let front = members.drop_last();
        lemma_swept_all(c, front, ceo, department, at);
        let b = c.swept_all(front, ceo, department, at);
        if ceo != Some(members.last()) {
            lemma_swept(b, members.last(), department, at);
            lemma_kept_through(c, b, b.swept(members.last(), department, at));
        }
    }
}

proof fn lemma_paused(c: CompanyModel, department: Text, at: Text, actor: Text)
    requires
        c.finite(),
        ledgered(c),
        c.transition_seq + c.people.dom().len() <= u64::MAX,
    ensures
        ledger_kept(c, c.paused(department, at, actor)),
{
    let flipped = c.set_department_state(department, UnitState::Paused, at);
    lemma_kept_same(c, flipped);
    let members = flipped.subtree_members(department);
    lemma_members_fit(flipped, department);
    lemma_finite_listing(flipped.people.dom());
    lemma_swept_all(flipped, members, flipped.root_head(), department, at);
    let swept = flipped.swept_all(members, flipped.root_head(), department, at);
    lemma_kept_through(c, flipped, swept);
    lemma_kept_same(swept, c.paused(department, at, actor));
    lemma_kept_through(c, swept, c.paused(department, at, actor));
}

proof fn lemma_seeded(
    c: CompanyModel,
    id: Text,
    department: Text,
    seed: SeedModel,
    reason: Text,
    at: Text,
)
    requires
        ledgered(c),
    ensures
        ledger_kept(c, c.seeded(id, department, seed, reason, at)),
{
    lemma_repointed(c, c.seeded(id, department, seed, reason, at), id);
}

proof fn lemma_seeded_all(
    c: CompanyModel,
    staff: Seq<StaffModel>,
    department: Text,
    reason: Text,
    at: Text,
)
    requires
        ledgered(c),
    ensures
        ledger_kept(c, c.seeded_all(staff, department, reason, at)),
    decreases staff.len(),
{
    if staff.len() == 0 {
        lemma_kept_same(c, c);
    } else {
        let front = staff.drop_last();
        lemma_seeded_all(c, front, department, reason, at);
        let b = c.seeded_all(front, department, reason, at);
        lemma_seeded(b, staff.last().person_id, department, staff.last().seed, reason, at);
        lemma_kept_through(c, b, c.seeded_all(staff, department, reason, at));
    }
}

/// Settling a vacancy touches no transition and nobody's activity.
proof fn lemma_vacated(
    c: CompanyModel,
    person: Text,
    decision: HeadVacancyModel,
    reason: Text,
    at: Text,
)
    ensures
        c.vacated(person, decision, reason, at).transitions == c.transitions,
        c.vacated(person, decision, reason, at).activity == c.activity,
        c.vacated(person, decision, reason, at).transition_seq == c.transition_seq,
        c.vacated(person, decision, reason, at).fences == c.fences,
{
    if let Some(unit) = c.headed_by(person) {
        if decision is Dissolve {
            let left = match c.departments[unit].parent_id {
                Some(parent) => {
                    lemma_rehome(c, c.people_in(seq![unit]), person, unit, parent, reason, at);
                    c.rehome(c.people_in(seq![unit]), person, unit, parent, reason, at)
                },
                None => c,
            };
            let cut = left.delete_department(unit);
            lemma_number_departments(cut, cut.department_order(), at);
        }
    }
}

proof fn lemma_transferred(
    c: CompanyModel,
    person: Text,
    destination: Text,
    intent: Text,
    at: Text,
    actor: Text,
    vacates: Option<HeadVacancyModel>,
)
    requires
        c.finite(),
        ledgered(c),
    ensures
        ledger_kept(c, c.transferred(person, destination, intent, at, actor, vacates)),
{
    let r = c.transferred(person, destination, intent, at, actor, vacates);
    let reason = ledger_line("transferred"@, actor);
    lemma_move_all(c, seq![person], destination, intent, reason, true, at);
    let there = c.move_all(seq![person], destination, intent, reason, true, at);
    lemma_number_people(there, there.people_order(), at);
    let moved = there.refresh_people_order(at);
    if let Some(decision) = vacates {
        lemma_vacated(moved, person, decision, reason, at);
    }
    lemma_kept_same(there, r);
    lemma_kept_through(c, there, r);
}

proof fn lemma_created(c: CompanyModel, p: CreateModel, actor: Text)
    requires
        ledgered(c),
    ensures
        ledger_kept(c, c.department_created(p, actor)),
{
    let r = c.department_created(p, actor);
    let head = p.head.person_id();
    let there = match p.vacates {
        Some(HeadVacancyModel::Dissolve) => c.move_person(head, p.parent_id, p.at),
        _ => c,
    };
    if let Some(decision) = p.vacates {
        lemma_vacated(there, head, decision, p.audit_reason, p.at);
    }
    let unit = c.head_freed(p).insert_department(
        p.department_id,
        p.parent_id,
        p.name,
        p.purpose,
        p.unit,
        head,
        p.at,
    );
    lemma_kept_same(c, unit);
    let headed = match p.head {
        HeadDecisionModel::AppointExisting { person_id } => {
            let from = if c.people.dom().contains(person_id) {
                Some(c.people[person_id].department_id)
            } else {
                None
            };
            lemma_kept_same(unit, unit.head_appointed(person_id, from, p));
            unit.head_appointed(person_id, from, p)
        },
        HeadDecisionModel::HireNew { person_id, seed } => {
            lemma_seeded(unit, person_id, p.department_id, seed, p.audit_reason, p.at);
            unit.seeded(person_id, p.department_id, seed, p.audit_reason, p.at)
        },
    };
    lemma_kept_through(c, unit, headed);
    lemma_seeded_all(headed, p.staff, p.department_id, p.audit_reason, p.at);
    let staffed = headed.seeded_all(p.staff, p.department_id, p.audit_reason, p.at);
    lemma_kept_through(c, headed, staffed);
    let ordered = staffed.refresh_department_order(p.at);
    lemma_number_departments(staffed, staffed.department_order(), p.at);
    lemma_number_people(ordered, ordered.people_order(), p.at);
    lemma_kept_same(staffed, r);
    lemma_kept_through(c, staffed, r);
}

proof fn lemma_hired(c: CompanyModel, p: HireModel, actor: Text)
    requires
        ledgered(c),
    ensures
        ledger_kept(c, c.hired(p, actor)),
{
    let line = hire_line(p.person_id, p.department_id);
    let there = c.seeded(p.person_id, p.department_id, p.seed, line, p.at);
    lemma_seeded(c, p.person_id, p.department_id, p.seed, line, p.at);
    lemma_number_people(there, there.people_order(), p.at);
    lemma_kept_same(there, c.hired(p, actor));
    lemma_kept_through(c, there, c.hired(p, actor));
}

proof fn lemma_removed(c: CompanyModel, department: Text, at: Text, actor: Text)
    requires
        c.finite(),
        ledgered(c),
    ensures
        ledger_kept(c, c.department_removed(department, at, actor)),
{
    let units = c.subtree_descending(department);
    let people = c.people_in(units);
    let rests = c.departments[department].parent_id->0;
    let reason = "department "@ + department + " removed"@;
    lemma_left_behind_all(c, people, rests, reason, at);
    let left = c.left_behind_all(people, rests, reason, at);
    lemma_delete_departments(left, units);
    let cut = left.delete_departments(units);
    lemma_number_departments(cut, cut.department_order(), at);
    let ordered = cut.refresh_department_order(at);
    lemma_number_people(ordered, ordered.people_order(), at);
    let r = c.department_removed(department, at, actor);
    lemma_kept_same(left, r);
    lemma_kept_through(c, left, r);
}

proof fn lemma_attached(c: CompanyModel, at: Text, actor: Text)
    requires
        ledgered(c),
    ensures
        ledger_kept(c, c.ceo_only(at, actor)),
{
    let r = c.ceo_only(at, actor);
    let chief = c.root_head()->0;
    lemma_retract_in(c, listing(c.activity.dom()), chief, at);
    let quiet = c.retract_non_kept(chief, at);
    lemma_clear_fences_in(quiet, listing(quiet.fences.dom()), chief);
    assert(ledgered(quiet)) by {
        assert forall|p: Text| #[trigger] quiet.activity.dom().contains(p) implies (
        quiet.activity[p].active_transition_id matches Some(t) ==> points(quiet, p, t)) by {
            assert(c.activity.dom().contains(p));
            if let Some(t) = c.activity[p].active_transition_id {
                assert(points(c, p, t));
            }
        }
    }
    lemma_kept_same(quiet, r);
}

/// Whether the numbers that a decision gives out to transitions fit a machine
/// word.
pub open spec fn numbers_left(c: CompanyModel, d: Decision) -> bool {
    match d {
        Decision::Shutdown { .. } => c.transition_seq < u64::MAX,
        Decision::Offboard { .. } => c.transition_seq < u64::MAX,
        Decision::ReplaceHead { .. } => c.transition_seq < u64::MAX,
        Decision::BenchLifecycle { .. } => c.transition_seq < u64::MAX,
        Decision::Pause { .. } => c.transition_seq + c.people.dom().len() <= u64::MAX,
        _ => true,
    }
}

/// Every decision keeps the ledger sound: nobody has two open transitions,
/// nobody's activity points at a transition that was cancelled or is somebody
/// else's, and no number is given out twice. No transition is changed but an
/// open one, and that only by being cancelled.
pub proof fn law_ledger_stays_sound(c: CompanyModel, d: Decision, at: Text, actor: Text)
    requires
        c.finite(),
        ledgered(c),
        c.allows(d, actor),
        numbers_left(c, d),
    ensures
        ledgered(c.decided(d, at, actor)),
        carried(c, c.decided(d, at, actor)),
{
    let r = c.decided(d, at, actor);
    match d {
        Decision::Create { proposal } => {
            lemma_created(c, proposal, actor);
        },
        Decision::Hire { newcomer } => {
            lemma_hired(c, newcomer, actor);
        },
        Decision::Appoint { department, successor, demote_to } => {
            lemma_kept_same(c, r);
        },
        Decision::Reparent { department, parent } => {
            let hung = c.set_parent(department, parent, at);
            lemma_number_departments(hung, hung.department_order(), at);
            let ordered = hung.refresh_department_order(at);
            lemma_number_people(ordered, ordered.people_order(), at);
            lemma_kept_same(c, r);
        },
        Decision::Transfer { person, destination, intent, vacates } => {
            lemma_transferred(c, person, destination, intent, at, actor, vacates);
        },
        Decision::MoveMembers { from, destination, named, intent } => {
            let people = c.batch(from, named);
            lemma_move_all(c, people, destination, intent, intent, false, at);
            let there = c.move_all(people, destination, intent, intent, false, at);
            lemma_number_people(there, there.people_order(), at);
            lemma_kept_same(there, r);
            lemma_kept_through(c, there, r);
        },
        Decision::Offboard { person } => {
            lemma_offboarded(c, person, at, actor);
        },
        Decision::ReplaceHead { head, successor } => {
            lemma_head_replaced(c, head, successor, at, actor);
        },
        Decision::RemoveTree { department } => {
            lemma_removed(c, department, at, actor);
        },
        Decision::Pause { department } => {
            lemma_paused(c, department, at, actor);
        },
        Decision::Resume { department } => {
            lemma_kept_same(c, r);
        },
        Decision::ResumeMany { departments, skip_active } => {
            lemma_resume_all(c, departments, at);
            lemma_kept_same(c, r);
        },
        Decision::Shutdown { person, kind } => {
            lemma_shut_down(c, person, kind, at, actor);
        },
        Decision::Bench { person } => {
            lemma_benched(c, person, at, actor);
        },
        Decision::BenchLifecycle { person } => {
            lemma_park_prepared(c, person, at, actor);
            let ready = c.park_prepared(person, at, actor);
            lemma_benched(ready, person, at, actor);
            lemma_kept_through(c, ready, r);
        },
        Decision::Start { person } => {
            lemma_started(c, person, at, actor);
        },
        Decision::Wake { person } => {
            lemma_woken(c, person, at, actor);
        },
        Decision::Recall { person } => {
            lemma_kept_same(c, r);
        },
        Decision::ReactivateRoot => {
            lemma_kept_same(c, r);
        },
        Decision::CeoOnly => {
            lemma_attached(c, at, actor);
        },
        Decision::PublishLauncherRoot { launcher_root } => {
            lemma_kept_same(c, r);
        },
    }
}

} // verus!
