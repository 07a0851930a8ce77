//! Who is running, who is to be started, and who stops.

use vstd::prelude::*;

use crate::company::{CompanyModel, TransitionAction};
use crate::laws::chart::lemma_org;
use crate::laws::decision::Decision;
use crate::laws::frames::{
    lemma_delete_departments, lemma_move_all, lemma_number_departments, lemma_number_people,
    lemma_rehome, lemma_resume_all, lemma_swept_all, lemma_with_last,
};
use crate::laws::ledger::{
    ledgered, lemma_next_is_free, lemma_open_transition, lemma_superseded, none_open,
};
use crate::laws::ledger_kept::{lemma_swept, numbers_left};
use crate::laws::tree::lemma_same_parents;
use crate::org_ops::create::hire_line;
use crate::org_ops::decisions::{HeadDecisionModel, HeadVacancyModel, StaffModel};
use crate::org_ops::guards::ledger_line;
use crate::org_ops::pause::{lemma_members_fit, pause_marker};
use crate::org_projection::CreateModel;
use crate::org_view::{beneath, first_where, lemma_first_where, lemma_those_where};
use crate::order::lemma_sorted;
use crate::organization::{EmploymentState, UnitState};
use crate::table::{lemma_finite_listing, listing};
use crate::text::Text;

verus! {

// ---------------------------------------------------------------------------
// A company that is stood down
// ---------------------------------------------------------------------------

proof fn lemma_seeded_all_fences(
    c: CompanyModel,
    staff: Seq<StaffModel>,
    department: Text,
    reason: Text,
    at: Text,
)
    requires
        c.stood_down,
    ensures
        c.seeded_all(staff, department, reason, at).fences == c.fences,
        c.seeded_all(staff, department, reason, at).stood_down,
    decreases staff.len(),
{
    if staff.len() > 0 {
        lemma_seeded_all_fences(c, staff.drop_last(), department, reason, at);
    }
}

proof fn lemma_left_behind_all_fences(
    c: CompanyModel,
    people: Seq<Text>,
    rests: Text,
    reason: Text,
    at: Text,
)
    ensures
        c.left_behind_all(people, rests, reason, at).fences.dom().subset_of(c.fences.dom()),
        forall|p: Text| #[trigger]
            people.contains(p) ==> !c.left_behind_all(
                people,
                rests,
                reason,
                at,
            ).fences.dom().contains(p),
    decreases people.len(),
{
    if people.len() > 0 {
        lemma_left_behind_all_fences(c, people.drop_last(), rests, reason, at);
        lemma_with_last(people);
    }
}

proof fn lemma_swept_all_fences(
    c: CompanyModel,
    members: Seq<Text>,
    ceo: Option<Text>,
    department: Text,
    at: Text,
)
    ensures
        c.swept_all(members, ceo, department, at).fences.dom().subset_of(c.fences.dom()),
    decreases members.len(),
{
    if members.len() > 0 {
        lemma_swept_all_fences(c, members.drop_last(), ceo, department, at);
    }
}

proof fn lemma_vacated_fences(
    c: CompanyModel,
    person: Text,
    decision: HeadVacancyModel,
    reason: Text,
    at: Text,
)
    ensures
        c.vacated(person, decision, reason, at).fences == c.fences,
        c.vacated(person, decision, reason, at).stood_down == c.stood_down,
{
    if let Some(unit) = c.headed_by(person) {
        if decision is Dissolve {
            let left = match c.departments[unit].parent_id {
                Some(parent) => {
                    lemma_rehome(c, c.people_in(seq![unit]), person, unit, parent, reason, at);
                    c.rehome(c.people_in(seq![unit]), person, unit, parent, reason, at)
                },
                None => c,
            };
            let cut = left.delete_department(unit);
            lemma_number_departments(cut, cut.department_order(), at);
        }
    }
}

proof fn lemma_created_fences(c: CompanyModel, p: CreateModel, actor: Text)
    requires
        c.stood_down,
    ensures
        c.department_created(p, actor).fences == c.fences,
{
    let head = p.head.person_id();
    let there = match p.vacates {
        Some(HeadVacancyModel::Dissolve) => c.move_person(head, p.parent_id, p.at),
        _ => c,
    };
    if let Some(decision) = p.vacates {
        lemma_vacated_fences(there, head, decision, p.audit_reason, p.at);
    }
    let unit = c.head_freed(p).insert_department(
        p.department_id,
        p.parent_id,
        p.name,
        p.purpose,
        p.unit,
        head,
        p.at,
    );
    let headed = match p.head {
        HeadDecisionModel::AppointExisting { person_id } => unit.head_appointed(
            person_id,
            if c.people.dom().contains(person_id) {
                Some(c.people[person_id].department_id)
            } else {
                None
            },
            p,
        ),
        HeadDecisionModel::HireNew { person_id, seed } => unit.seeded(
            person_id,
            p.department_id,
            seed,
            p.audit_reason,
            p.at,
        ),
    };
    assert(headed.stood_down);
    lemma_seeded_all_fences(headed, p.staff, p.department_id, p.audit_reason, p.at);
    let staffed = headed.seeded_all(p.staff, p.department_id, p.audit_reason, p.at);
    lemma_number_departments(staffed, staffed.department_order(), p.at);
    let ordered = staffed.refresh_department_order(p.at);
    lemma_number_people(ordered, ordered.people_order(), p.at);
}

pub proof fn lemma_removed_fences(c: CompanyModel, department: Text, at: Text, actor: Text)
    ensures
        c.department_removed(department, at, actor).fences.dom().subset_of(c.fences.dom()),
        forall|p: Text| #[trigger]
            c.people_in(c.subtree_descending(department)).contains(p) ==> !c.department_removed(
                department,
                at,
                actor,
            ).fences.dom().contains(p),
{
    let units = c.subtree_descending(department);
    let people = c.people_in(units);
    let rests = c.departments[department].parent_id->0;
    let reason = "department "@ + department + " removed"@;
    lemma_left_behind_all_fences(c, people, rests, reason, at);
    let left = c.left_behind_all(people, rests, reason, at);
    lemma_delete_departments(left, units);
    let cut = left.delete_departments(units);
    lemma_number_departments(cut, cut.department_order(), at);
    let ordered = cut.refresh_department_order(at);
    lemma_number_people(ordered, ordered.people_order(), at);
}

/// While a company is stood down nobody is started and nobody is woken, and no
/// decision adds a start decision but the one by which an operator attaches to
/// the CEO.
pub proof fn law_stood_down_starts_nobody(c: CompanyModel, d: Decision, at: Text, actor: Text)
    requires
        c.stood_down,
        c.allows(d, actor),
        !(d is CeoOnly),
    ensures
        !(d is Start) && !(d is Wake),
        c.decided(d, at, actor).fences.dom().subset_of(c.fences.dom()),
{
    match d {
        Decision::Create { proposal } => {
            lemma_created_fences(c, proposal, actor);
        },
        Decision::Hire { newcomer } => {
            let line = hire_line(newcomer.person_id, newcomer.department_id);
            let there = c.seeded(
                newcomer.person_id,
                newcomer.department_id,
                newcomer.seed,
                line,
                newcomer.at,
            );
            lemma_number_people(there, there.people_order(), newcomer.at);
        },
        Decision::Reparent { department, parent } => {
            let hung = c.set_parent(department, parent, at);
            lemma_number_departments(hung, hung.department_order(), at);
            let ordered = hung.refresh_department_order(at);
            lemma_number_people(ordered, ordered.people_order(), at);
        },
        Decision::Transfer { person, destination, intent, vacates } => {
            let reason = ledger_line("transferred"@, actor);
            lemma_move_all(c, seq![person], destination, intent, reason, true, at);
            let there = c.move_all(seq![person], destination, intent, reason, true, at);
            lemma_number_people(there, there.people_order(), at);
            if let Some(decision) = vacates {
                lemma_vacated_fences(
                    there.refresh_people_order(at),
                    person,
                    decision,
                    reason,
                    at,
                );
            }
        },
        Decision::MoveMembers { from, destination, named, intent } => {
            let people = c.batch(from, named);
            lemma_move_all(c, people, destination, intent, intent, false, at);
            let there = c.move_all(people, destination, intent, intent, false, at);
            lemma_number_people(there, there.people_order(), at);
        },
        Decision::RemoveTree { department } => {
            lemma_removed_fences(c, department, at, actor);
        },
        Decision::Pause { department } => {
            let flipped = c.set_department_state(department, UnitState::Paused, at);
            lemma_swept_all_fences(
                flipped,
                flipped.subtree_members(department),
                flipped.root_head(),
                department,
                at,
            );
        },
        Decision::ResumeMany { departments, skip_active } => {
            lemma_resume_all(c, departments, at);
        },
        _ => {
            lemma_other_fences(c, d, at, actor);
        },
    }
}

proof fn lemma_other_fences(c: CompanyModel, d: Decision, at: Text, actor: Text)
    requires
        d is Appoint || d is Offboard || d is ReplaceHead || d is Resume || d is Shutdown || d
            is Bench || d is BenchLifecycle || d is Recall || d is ReactivateRoot || d
            is PublishLauncherRoot || (d is Start || d is Wake) && c.stood_down && c.allows(
            d,
            actor,
        ),
    ensures
        !(d is Start) && !(d is Wake),
        c.decided(d, at, actor).fences.dom().subset_of(c.fences.dom()),
{
    match d {
        Decision::BenchLifecycle { person } => {
            let ready = c.park_prepared(person, at, actor);
            assert(ready.fences == c.fences);
        },
        _ => {},
    }
}

// ---------------------------------------------------------------------------
// Pausing and resuming
// ---------------------------------------------------------------------------

/// Resuming units, or the root, starts nobody: who is to be started, who is
/// wanted up and every transition stay as they are.
pub proof fn law_resuming_starts_nobody(c: CompanyModel, d: Decision, at: Text, actor: Text)
    requires
        d is Resume || d is ResumeMany || d is ReactivateRoot,
    ensures
        c.decided(d, at, actor).fences == c.fences,
        c.decided(d, at, actor).activity == c.activity,
        c.decided(d, at, actor).transitions == c.transitions,
        c.decided(d, at, actor).people == c.people,
{
    if let Decision::ResumeMany { departments, skip_active } = d {
        lemma_resume_all(c, departments, at);
    }
}

/// What a sweep leaves of one person alone.
pub open spec fn left_alone(a: CompanyModel, b: CompanyModel, p: Text) -> bool {
    &&& b.fences.dom().contains(p) <==> a.fences.dom().contains(p)
    &&& b.activity.dom().contains(p) <==> a.activity.dom().contains(p)
    &&& a.activity.dom().contains(p) ==> b.activity[p] == a.activity[p]
    &&& forall|t: Text| #[trigger]
        a.transitions.dom().contains(t) && a.transitions[t].person_id == p
            ==> b.transitions.dom().contains(t) && b.transitions[t] == a.transitions[t]
    &&& forall|t: Text| #[trigger]
        b.transitions.dom().contains(t) && b.transitions[t].person_id == p
            ==> a.transitions.dom().contains(t) && b.transitions[t] == a.transitions[t]
}

/// Whether somebody is at rest: not to be started, with nothing open, and not
/// wanted up as long as they are employed.
pub open spec fn at_rest(c: CompanyModel, p: Text) -> bool {
    &&& !c.fences.dom().contains(p)
    &&& none_open(c, p)
    &&& c.people.dom().contains(p) && c.people[p].employment_state != EmploymentState::Departed
        ==> !c.desired(p)
}

proof fn lemma_left_alone_through(a: CompanyModel, b: CompanyModel, c: CompanyModel, p: Text)
    requires
        left_alone(a, b, p),
        left_alone(b, c, p),
    ensures
        left_alone(a, c, p),
{
    assert forall|t: Text| #[trigger]
        a.transitions.dom().contains(t) && a.transitions[t].person_id == p implies
        c.transitions.dom().contains(t) && c.transitions[t] == a.transitions[t] by {
        assert(b.transitions.dom().contains(t));
    }
    assert forall|t: Text| #[trigger]
        c.transitions.dom().contains(t) && c.transitions[t].person_id == p implies
        a.transitions.dom().contains(t) && c.transitions[t] == a.transitions[t] by {
        assert(b.transitions.dom().contains(t));
    }
}

/// Sweeping somebody puts them at rest and leaves everybody else alone.
proof fn lemma_swept_one(c: CompanyModel, member: Text, department: Text, at: Text)
    requires
        c.finite(),
        ledgered(c),
        c.transition_seq < u64::MAX,
    ensures
        at_rest(c.swept(member, department, at), member),
        forall|p: Text| p != member ==> #[trigger] left_alone(
            c,
            c.swept(member, department, at),
            p,
        ),
        c.swept(member, department, at).people == c.people,
{
    let r = c.swept(member, department, at);
    let marker = pause_marker(department);
    lemma_superseded(c, member, marker, at);
    lemma_open_transition(c, member);
    let e = c.supersede_open_transition(member, marker, at);
    let quiet = e.delete_fence(member);
    lemma_next_is_free(quiet, member, TransitionAction::Park);
    assert(none_open(r, member)) by {
        assert forall|t: Text| #[trigger]
            r.transitions.dom().contains(t) && r.transitions[t].person_id == member implies
            !r.transitions[t].status.open() by {
            assert(e.transitions.dom().contains(t) || t == quiet.next_transition_id(
                member,
                TransitionAction::Park,
            ));
        }
    }
    assert forall|p: Text| p != member implies #[trigger] left_alone(c, r, p) by {
        assert forall|t: Text| #[trigger]
            c.transitions.dom().contains(t) && c.transitions[t].person_id == p implies
            r.transitions.dom().contains(t) && r.transitions[t] == c.transitions[t] by {
            assert(e.transitions.dom().contains(t));
        }
        assert forall|t: Text| #[trigger]
            r.transitions.dom().contains(t) && r.transitions[t].person_id == p implies
            c.transitions.dom().contains(t) && r.transitions[t] == c.transitions[t] by {
            assert(e.transitions.dom().contains(t));
        }
    }
}

/// Somebody left alone stays at rest.
proof fn lemma_rests_on(a: CompanyModel, b: CompanyModel, p: Text)
    requires
        at_rest(a, p),
        left_alone(a, b, p),
        a.people == b.people,
    ensures
        at_rest(b, p),
{
    assert forall|t: Text| #[trigger]
        b.transitions.dom().contains(t) && b.transitions[t].person_id == p implies
        !b.transitions[t].status.open() by {
        assert(a.transitions.dom().contains(t));
    }
}

proof fn lemma_left_alone_same(c: CompanyModel)
    ensures
        forall|p: Text| #[trigger] left_alone(c, c, p),
{
}

/// Sweeping people puts each at rest but the CEO, and leaves the CEO and
/// everybody else alone.
proof fn lemma_swept_everybody(
    c: CompanyModel,
    members: Seq<Text>,
    ceo: Option<Text>,
    department: Text,
    at: Text,
)
    requires
        c.finite(),
        ledgered(c),
        c.transition_seq + members.len() <= u64::MAX,
    ensures
        ({
            let r = c.swept_all(members, ceo, department, at);
            &&& forall|p: Text|
                members.contains(p) && ceo != Some(p) ==> #[trigger] at_rest(r, p)
            &&& forall|p: Text|
                !members.contains(p) || ceo == Some(p) ==> #[trigger] left_alone(c, r, p)
            &&& r.people == c.people
            &&& ledgered(r)
            &&& r.finite()
            &&& r.transition_seq <= c.transition_seq + members.len()
        }),
    decreases members.len(),
{
    let r = c.swept_all(members, ceo, department, at);
    if members.len() == 0 {
        lemma_left_alone_same(c);
    } else {
        let front = members.drop_last();
        let x = members.last();
        lemma_swept_everybody(c, front, ceo, department, at);
        let b = c.swept_all(front, ceo, department, at);
        lemma_with_last(members);
        if ceo != Some(x) {
            lemma_swept(b, x, department, at);
            lemma_swept_one(b, x, department, at);
            assert forall|p: Text| members.contains(p) && ceo != Some(p) implies
                #[trigger] at_rest(r, p) by {
                if p != x {
                    assert(at_rest(b, p));
                    assert(left_alone(b, r, p));
                    lemma_rests_on(b, r, p);
                }
            }
            assert forall|p: Text| !members.contains(p) || ceo == Some(p) implies
                #[trigger] left_alone(c, r, p) by {
                assert(left_alone(c, b, p));
                assert(left_alone(b, r, p));
                lemma_left_alone_through(c, b, r, p);
            }
        } else {
            assert forall|p: Text| members.contains(p) && ceo != Some(p) implies
                #[trigger] at_rest(r, p) by {
                assert(front.contains(p));
            }
        }
    }
}

/// Two conditions that agree on a list pick the same first member of it.
proof fn lemma_first_same(q: Seq<Text>, f: spec_fn(Text) -> bool, g: spec_fn(Text) -> bool)
    requires
        forall|i: int| 0 <= i < q.len() ==> f(#[trigger] q[i]) == g(q[i]),
    ensures
        first_where(q, f) == first_where(q, g),
    decreases q.len(),
{
    if q.len() > 0 {
        assert(f(q[0]) == g(q[0]));
        let t = q.drop_first();
        assert forall|i: int| 0 <= i < t.len() implies f(#[trigger] t[i]) == g(t[i]) by {
            assert(t[i] == q[i + 1]);
        }
        lemma_first_same(t, f, g);
    }
}

/// The root and its head stay what they are where parents and heads do.
pub proof fn lemma_root_same(a: CompanyModel, b: CompanyModel)
    requires
        a.departments.dom().finite(),
        a.departments.dom() == b.departments.dom(),
        forall|d: Text| #[trigger]
            a.departments.dom().contains(d) ==> a.departments[d].parent_id
                == b.departments[d].parent_id && a.departments[d].head_person_id
                == b.departments[d].head_person_id,
    ensures
        a.company_root() == b.company_root(),
        a.root_head() == b.root_head(),
{
    lemma_org(a);
    lemma_org(b);
    let m = a.org().departments;
    let n = b.org().departments;
    let q = listing(m.dom());
    lemma_finite_listing(m.dom());
    let f = |d: Text| m[d].parent is None;
    let g = |d: Text| n[d].parent is None;
    assert forall|i: int| 0 <= i < q.len() implies f(#[trigger] q[i]) == g(q[i]) by {
        assert(q.contains(q[i]));
        assert(m.dom().contains(q[i]));
        assert(a.departments.dom().contains(q[i]));
    }
    lemma_first_same(q, f, g);
    lemma_first_where(q, f);
    if let Some(r) = a.company_root() {
        assert(q.contains(r));
        assert(m.dom().contains(r));
        assert(a.departments.dom().contains(r));
    }
}

/// Everybody in a unit or beneath it, and nobody else.
proof fn lemma_members(c: CompanyModel, department: Text)
    requires
        c.finite(),
    ensures
        forall|p: Text| #[trigger]
            c.subtree_members(department).contains(p) <==> c.people.dom().contains(p) && beneath(
                c.org().departments,
                c.people[p].department_id,
                department,
            ),
{
    lemma_finite_listing(c.people.dom());
    lemma_sorted(listing(c.people.dom()), |p: Text| seq![c.people[p].ordinal]);
    lemma_those_where(
        c.roster(),
        |p: Text| beneath(c.org().departments, c.people[p].department_id, department),
    );
}

/// Pausing a unit puts everybody in it and beneath it at rest, except the CEO.
/// The CEO, wherever they sit, and everybody outside the unit are left alone.
pub proof fn law_pausing_stops_all_but_the_ceo(
    c: CompanyModel,
    department: Text,
    at: Text,
    actor: Text,
    p: Text,
)
    requires
        c.finite(),
        ledgered(c),
        c.allows(Decision::Pause { department }, actor),
        numbers_left(c, Decision::Pause { department }),
        c.people.dom().contains(p),
    ensures
        beneath(c.org().departments, c.people[p].department_id, department) && c.root_head()
            != Some(p) ==> at_rest(c.paused(department, at, actor), p),
        !beneath(c.org().departments, c.people[p].department_id, department) || c.root_head()
            == Some(p) ==> left_alone(c, c.paused(department, at, actor), p),
        c.paused(department, at, actor).departments[department].state == UnitState::Paused,
{
    let flipped = c.set_department_state(department, UnitState::Paused, at);
    assert(flipped.departments.dom() =~= c.departments.dom());
    lemma_root_same(c, flipped);
    lemma_org(c);
    lemma_org(flipped);
    lemma_same_parents(c.org().departments, flipped.org().departments);
    let members = flipped.subtree_members(department);
    lemma_members(flipped, department);
    lemma_members_fit(flipped, department);
    lemma_finite_listing(flipped.people.dom());
    assert(ledgered(flipped));
    lemma_swept_everybody(flipped, members, flipped.root_head(), department, at);
    let swept = flipped.swept_all(members, flipped.root_head(), department, at);
    let r = c.paused(department, at, actor);
    lemma_swept_all(flipped, members, flipped.root_head(), department, at);
    assert(members.contains(p) <==> beneath(
        c.org().departments,
        c.people[p].department_id,
        department,
    ));
    if members.contains(p) && c.root_head() != Some(p) {
        assert(at_rest(swept, p));
        assert(at_rest(r, p));
    } else {
        assert(left_alone(flipped, swept, p));
        assert(left_alone(c, r, p));
    }
}

} // verus!
