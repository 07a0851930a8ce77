//! When a decision about units and people is refused, and when it is owed.

use vstd::prelude::*;

use crate::company::CompanyModel;
use crate::laws::chart::lemma_org;
use crate::org_ops::decisions::HeadVacancyModel;
use crate::org_ops::refusals::{
    AppointRefusal, BenchRefusal, HeadVacancyRefusalModel, OffboardRefusal, PauseRefusal,
    ReparentRefusal, ShutdownRefusal, TransferRefusalModel, VacancyRefusalModel,
};
use crate::org_projection::vacancy_refusal;
use crate::org_view::{
    beneath, children, lemma_members_but, lemma_those_where, members_but, OrgModel,
};
use crate::organization::{EmploymentState, PersonKind, UnitState};
use crate::table::{lemma_finite_listing, listing};
use crate::text::Text;

verus! {

/// Whether the company has somebody of this id, on work or on the bench.
pub open spec fn employs(c: CompanyModel, p: Text) -> bool {
    &&& c.people.dom().contains(p)
    &&& c.people[p].employment_state == EmploymentState::Active || c.people[p].employment_state
        == EmploymentState::Benched
}

/// Whether the company has somebody of this id who has left it.
pub open spec fn has_departed(c: CompanyModel, p: Text) -> bool {
    c.people.dom().contains(p) && c.people[p].employment_state == EmploymentState::Departed
}

/// Whether an actor may act in a unit: they name nobody, or somebody who manages
/// it.
pub open spec fn reaches(c: CompanyModel, actor: Text, unit: Text) -> bool {
    !c.out_of_scope(actor, unit)
}

/// The unit somebody is in.
pub open spec fn home(c: CompanyModel, p: Text) -> Text {
    c.people[p].department_id
}

/// Whether the company has this unit, and it and every unit above it run.
pub open spec fn takes_people(c: CompanyModel, unit: Text) -> bool {
    c.departments.dom().contains(unit) && !c.stopped(unit)
}

/// Whether a refusal comes with this code.
pub open spec fn says(r: Option<(Text, Text)>, code: Text) -> bool {
    r matches Some(e) && e.0 == code
}

// ---------------------------------------------------------------------------
// People
// ---------------------------------------------------------------------------

/// Who is employed, is not the CEO, heads nothing by role and is within the
/// actor's reach is offboarded. Nobody is told that they have left who has not.
pub proof fn law_who_is_offboarded(c: CompanyModel, person: Text, actor: Text)
    ensures
        ({
            let r = c.offboard_refusal(person, actor);
            let row = c.people[person];
            &&& r is None <==> employs(c, person) && !c.is_ceo(person) && row.kind
                != PersonKind::Head && reaches(c, actor, row.department_id)
            &&& r == Some(OffboardRefusal::ExecRootProtected) <==> c.is_ceo(person)
            &&& r == Some(OffboardRefusal::UnknownPerson) <==> !c.is_ceo(person)
                && !c.people.dom().contains(person)
            &&& r == Some(OffboardRefusal::AlreadyDeparted) <==> !c.is_ceo(person)
                && has_departed(c, person)
            &&& r == Some(OffboardRefusal::ActorOutOfScope) <==> !c.is_ceo(person) && employs(
                c,
                person,
            ) && !reaches(c, actor, row.department_id)
            &&& r == Some(OffboardRefusal::HeadNeedsSuccessor) <==> !c.is_ceo(person) && employs(
                c,
                person,
            ) && reaches(c, actor, row.department_id) && row.kind == PersonKind::Head
        }),
{
}

/// Who is at work, is not the CEO and is within the actor's reach is benched,
/// whatever their role.
pub proof fn law_who_is_benched(c: CompanyModel, person: Text, actor: Text)
    ensures
        ({
            let r = c.bench_refusal(person, actor);
            let row = c.people[person];
            let known = c.people.dom().contains(person);
            &&& r is None <==> known && row.employment_state == EmploymentState::Active
                && !c.is_ceo(person) && reaches(c, actor, row.department_id)
            &&& r == Some(BenchRefusal::ExecRootProtected) <==> c.is_ceo(person)
            &&& r == Some(BenchRefusal::UnknownPerson) <==> !c.is_ceo(person) && !known
            &&& r == Some(BenchRefusal::AlreadyDeparted) <==> !c.is_ceo(person) && has_departed(
                c,
                person,
            )
            &&& r == Some(BenchRefusal::AlreadyBenched) <==> !c.is_ceo(person) && known
                && row.employment_state == EmploymentState::Benched
            &&& r == Some(BenchRefusal::ActorOutOfScope) <==> !c.is_ceo(person) && known
                && row.employment_state == EmploymentState::Active && !reaches(
                c,
                actor,
                row.department_id,
            )
        }),
{
}

/// Anybody but the CEO is shut down by whoever reaches the unit they are in,
/// whatever their employment and their role, running or not.
pub proof fn law_who_is_shut_down(c: CompanyModel, person: Text, actor: Text)
    ensures
        ({
            let r = c.shutdown_refusal(person, actor);
            let known = c.people.dom().contains(person);
            &&& r == Some(ShutdownRefusal::CeoExempt) <==> c.is_ceo(person)
            &&& r == Some(ShutdownRefusal::ActorOutOfScope) <==> !c.is_ceo(person) && known
                && !reaches(c, actor, home(c, person))
            &&& r is None <==> !c.is_ceo(person) && (known ==> reaches(c, actor, home(c, person)))
        }),
{
}

/// Whoever the company has, employed or not, is started by whoever reaches the
/// unit they are in, while that unit runs and the company is not stood down.
pub proof fn law_who_is_started(c: CompanyModel, person: Text, actor: Text)
    ensures
        ({
            let r = c.start_refusal(person, actor);
            let known = c.people.dom().contains(person);
            let unit = home(c, person);
            let gone = has_departed(c, person) && !c.departments.dom().contains(unit);
            &&& r is None <==> !c.stood_down && known && reaches(c, actor, unit) && !gone
                && !c.stopped(unit)
            &&& c.stood_down ==> says(r, "company-stood-down"@)
            &&& !c.stood_down && !known ==> says(r, "unknown-person"@)
            &&& !c.stood_down && known && !reaches(c, actor, unit) ==> says(r, "actor-out-of-scope"@)
            &&& !c.stood_down && known && reaches(c, actor, unit) && gone ==> says(r, "home-department-gone"@)
            &&& !c.stood_down && known && reaches(c, actor, unit) && !gone && c.stopped(unit)
                ==> says(r, "destination-paused"@)
        }),
{
}

/// Whoever is employed is woken by whoever reaches the unit they are in, while
/// that unit runs and the company is not stood down.
pub proof fn law_who_is_woken(c: CompanyModel, person: Text, actor: Text)
    ensures
        ({
            let r = c.wake_refusal(person, actor);
            let known = c.people.dom().contains(person);
            let unit = home(c, person);
            let asked = !c.stood_down && known && reaches(c, actor, unit);
            &&& r is None <==> !c.stood_down && employs(c, person) && reaches(c, actor, unit)
                && !c.stopped(unit)
            &&& c.stood_down ==> says(r, "company-stood-down"@)
            &&& !c.stood_down && !known ==> says(r, "unknown-person"@)
            &&& !c.stood_down && known && !reaches(c, actor, unit) ==> says(r, "actor-out-of-scope"@)
            &&& asked && has_departed(c, person) ==> says(r, "person-departed"@)
            &&& asked && employs(c, person) && c.stopped(unit) ==> says(r, "destination-paused"@)
        }),
{
}

/// Whoever is on the bench is recalled by whoever reaches the unit they are in,
/// while that unit runs. A company that is stood down recalls too: nobody starts
/// by it.
pub proof fn law_who_is_recalled(c: CompanyModel, person: Text, actor: Text)
    ensures
        ({
            let r = c.recall_refusal(person, actor);
            let known = c.people.dom().contains(person);
            let state = c.people[person].employment_state;
            let unit = home(c, person);
            let benched = known && state == EmploymentState::Benched;
            &&& r is None <==> benched && reaches(c, actor, unit) && !c.stopped(unit)
            &&& !known ==> says(r, "unknown-person"@)
            &&& has_departed(c, person) ==> says(r, "already-departed"@)
            &&& known && state == EmploymentState::Active ==> says(r, "already-active"@)
            &&& benched && !reaches(c, actor, unit) ==> says(r, "actor-out-of-scope"@)
            &&& benched && reaches(c, actor, unit) && c.stopped(unit) ==> says(r, "destination-paused"@)
        }),
{
}

/// The root is set running by whoever reaches it, wherever there is one.
pub proof fn law_who_sets_the_root_running(c: CompanyModel, actor: Text)
    ensures
        ({
            let r = c.reactivate_refusal(actor);
            &&& r is None <==> (c.company_root() matches Some(root) && reaches(c, actor, root))
            &&& c.company_root() is None ==> says(r, "unknown-company"@)
            &&& (c.company_root() matches Some(root) && !reaches(c, actor, root)) ==> says(r, "actor-out-of-scope"@)
        }),
{
}

// ---------------------------------------------------------------------------
// Leaving a headship
// ---------------------------------------------------------------------------

/// Whether somebody belongs to a unit and may take it over from another.
pub open spec fn may_succeed(o: OrgModel, unit: Text, leaver: Text, p: Text) -> bool {
    &&& o.people.dom().contains(p)
    &&& p != leaver
    &&& o.people[p].department == unit
    &&& o.people[p].employment == EmploymentState::Active || o.people[p].employment
        == EmploymentState::Benched
}

/// Whether a unit has nobody employed in it but one person, and nothing beneath
/// it.
pub open spec fn emptied(o: OrgModel, unit: Text, leaver: Text) -> bool {
    &&& forall|p: Text| #[trigger] o.people.dom().contains(p) ==> !may_succeed(o, unit, leaver, p)
    &&& forall|d: Text| #[trigger] o.departments.dom().contains(d) ==> o.departments[d].parent
        != Some(unit)
}

/// Whether a decision, or the lack of one, settles what becomes of the unit that
/// somebody leaves.
pub open spec fn settles(
    o: OrgModel,
    heads: Option<Text>,
    leaver: Text,
    decision: Option<HeadVacancyModel>,
) -> bool {
    match (heads, decision) {
        (None, d) => d is None,
        (Some(_), None) => false,
        (Some(unit), Some(HeadVacancyModel::HandOver { successor_person_id })) => may_succeed(
            o,
            unit,
            leaver,
            successor_person_id,
        ),
        (Some(unit), Some(HeadVacancyModel::Dissolve)) => emptied(o, unit, leaver),
    }
}

/// A headship is left exactly where what becomes of the unit is settled: to a
/// member who is employed, on the bench or not, or to nobody where the unit is
/// empty. Whoever heads nothing leaves without a decision, and only so.
pub proof fn law_how_a_headship_is_left(
    o: OrgModel,
    heads: Option<Text>,
    leaver: Text,
    decision: Option<HeadVacancyModel>,
)
    requires
        o.people.dom().finite(),
        o.departments.dom().finite(),
    ensures
        ({
            let r = vacancy_refusal(o, heads, leaver, decision);
            &&& r is None <==> settles(o, heads, leaver, decision)
            &&& r matches Some(HeadVacancyRefusalModel::Required {
                person_id,
                department_id,
                eligible_successor_ids,
            }) ==> decision is None && heads == Some(department_id) && person_id == leaver
                && forall|p: Text| #[trigger]
                eligible_successor_ids.contains(p) <==> may_succeed(o, department_id, leaver, p)
            &&& heads is Some && decision is None ==> r is Some && r->0 is Required
            &&& r matches Some(HeadVacancyRefusalModel::Invalid { department_id, because })
                ==> decision is Some && (match because {
                VacancyRefusalModel::HeadsNothing => heads is None && department_id.len() == 0,
                VacancyRefusalModel::SuccessorNotAMember { successor_person_id } => heads == Some(
                    department_id,
                ) && decision == Some(HeadVacancyModel::HandOver { successor_person_id })
                    && !may_succeed(o, department_id, leaver, successor_person_id),
                VacancyRefusalModel::StillHasMembers { member_person_ids } => heads == Some(
                    department_id,
                ) && decision == Some(HeadVacancyModel::Dissolve) && member_person_ids.len() > 0
                    && forall|p: Text| #[trigger]
                    member_person_ids.contains(p) <==> may_succeed(o, department_id, leaver, p),
                VacancyRefusalModel::StillHasChildren { child_department_ids } => heads == Some(
                    department_id,
                ) && decision == Some(HeadVacancyModel::Dissolve) && child_department_ids.len() > 0
                    && (forall|p: Text| !may_succeed(o, department_id, leaver, p)) && forall|
                    d: Text,
                | #[trigger]
                    child_department_ids.contains(d) <==> o.departments.dom().contains(d)
                        && o.departments[d].parent == Some(department_id),
            })
        }),
{
    if let Some(unit) = heads {
        lemma_members_but(o, unit, leaver);
        let m = o.departments;
        lemma_finite_listing(m.dom());
        lemma_those_where(listing(m.dom()), |d: Text| m[d].parent == Some(unit));
        let members = members_but(o, unit, leaver);
        let below = children(m, unit);
        assert forall|p: Text| #[trigger] members.contains(p) <==> may_succeed(
            o,
            unit,
            leaver,
            p,
        ) by {}
        if members.len() > 0 {
            assert(members.contains(members[0]));
        } else {
            assert forall|p: Text| !may_succeed(o, unit, leaver, p) by {
                assert(!members.contains(p));
            }
        }
        assert forall|d: Text| #[trigger] below.contains(d) <==> m.dom().contains(d) && m[d].parent
            == Some(unit) by {
            assert(listing(m.dom()).contains(d) <==> m.dom().contains(d));
        }
        if below.len() > 0 {
            assert(below.contains(below[0]));
        } else {
            assert forall|d: Text| #[trigger] m.dom().contains(d) implies m[d].parent != Some(
                unit,
            ) by {
                assert(!below.contains(d));
            }
        }
    }
}

// ---------------------------------------------------------------------------
// Moving people
// ---------------------------------------------------------------------------

/// Anybody employed but the CEO is transferred, on the bench or not, to a unit
/// that runs, by whoever reaches both ends, once it is settled what becomes of
/// the unit they head. Each refusal says what stands in the way.
pub proof fn law_who_is_transferred(
    c: CompanyModel,
    person: Text,
    destination: Text,
    actor: Text,
    vacates: Option<HeadVacancyModel>,
)
    requires
        c.finite(),
    ensures
        ({
            let r = c.transfer_refusal(person, destination, actor, vacates);
            let open = takes_people(c, destination);
            let known = c.people.dom().contains(person);
            let movable = open && employs(c, person) && !c.is_ceo(person);
            let settled = settles(c.org(), c.headed_by(person), person, vacates);
            let reached = reaches(c, actor, home(c, person)) && reaches(c, actor, destination);
            &&& r is None <==> movable && settled && reached
            &&& r == Some(TransferRefusalModel::UnknownDestination) <==>
                !c.departments.dom().contains(destination)
            &&& r == Some(TransferRefusalModel::DestinationPaused) <==>
                c.departments.dom().contains(destination) && c.stopped(destination)
            &&& r == Some(TransferRefusalModel::UnknownPerson) <==> open && !known
            &&& r == Some(TransferRefusalModel::ExecRootProtected) <==> open && known && c.is_ceo(
                person,
            )
            &&& r == Some(TransferRefusalModel::PersonDeparted) <==> open && !c.is_ceo(person)
                && has_departed(c, person)
            &&& r is Some && r->0 is HeadVacancy <==> movable && !settled
            &&& movable && !settled ==> r == Some(
                TransferRefusalModel::HeadVacancy(
                    vacancy_refusal(c.org(), c.headed_by(person), person, vacates)->0,
                ),
            )
            &&& r == Some(TransferRefusalModel::ActorOutOfScope) <==> movable && settled
                && !reached
        }),
{
    lemma_org(c);
    law_how_a_headship_is_left(c.org(), c.headed_by(person), person, vacates);
}

/// Whether somebody is an ordinary member of a unit: employed in it, not its
/// head, and not the CEO.
pub open spec fn ordinary(c: CompanyModel, from: Text, p: Text) -> bool {
    &&& employs(c, p)
    &&& home(c, p) == from
    &&& !c.is_ceo(p)
    &&& !(c.departments.dom().contains(from) && c.departments[from].head_person_id == p)
}

proof fn lemma_all_ordinary(c: CompanyModel, people: Seq<Text>, from: Text, i: int)
    requires
        0 <= i <= people.len(),
    ensures
        c.batch_refusal(people, from, i) is None <==> forall|k: int|
            i <= k < people.len() ==> ordinary(c, from, #[trigger] people[k]),
    decreases people.len() - i,
{
    if i < people.len() {
        lemma_all_ordinary(c, people, from, i + 1);
        if c.batch_refusal(people, from, i) is None {
            assert forall|k: int| i <= k < people.len() implies ordinary(
                c,
                from,
                #[trigger] people[k],
            ) by {}
        } else {
            if forall|k: int| i <= k < people.len() ==> ordinary(c, from, #[trigger] people[k]) {
                assert(ordinary(c, from, people[i]));
            }
        }
    }
}

proof fn lemma_first_who_stays(c: CompanyModel, people: Seq<Text>, from: Text, i: int, k: int)
    requires
        0 <= i <= k < people.len(),
        !ordinary(c, from, people[k]),
        forall|j: int| i <= j < k ==> ordinary(c, from, #[trigger] people[j]),
    ensures
        c.batch_refusal(people, from, i) == c.batch_refusal(people, from, k),
        c.batch_refusal(people, from, k) is Some,
    decreases k - i,
{
    if i < k {
        assert(ordinary(c, from, people[i]));
        lemma_first_who_stays(c, people, from, i + 1, k);
    }
}

/// Members of a unit are moved together to a unit that runs, by whoever reaches
/// both ends, exactly where every one of them is an ordinary member of it.
pub proof fn law_who_is_moved(
    c: CompanyModel,
    from: Text,
    destination: Text,
    people: Seq<Text>,
    actor: Text,
)
    ensures
        ({
            let r = c.move_refusal(from, destination, people, actor);
            let open = takes_people(c, destination);
            let all = forall|k: int|
                0 <= k < people.len() ==> ordinary(c, from, #[trigger] people[k]);
            let reached = reaches(c, actor, from) && reaches(c, actor, destination);
            &&& r is None <==> open && all && reached
            &&& r == Some(TransferRefusalModel::UnknownDestination) <==>
                !c.departments.dom().contains(destination)
            &&& r == Some(TransferRefusalModel::DestinationPaused) <==>
                c.departments.dom().contains(destination) && c.stopped(destination)
            &&& r == Some(TransferRefusalModel::ActorOutOfScope) <==> open && all && !reached
        }),
{
    lemma_all_ordinary(c, people, from, 0);
    lemma_batch_says(c, people, from, 0);
}

/// What a batch is refused for is somebody in it.
proof fn lemma_batch_says(c: CompanyModel, people: Seq<Text>, from: Text, i: int)
    requires
        0 <= i <= people.len(),
    ensures
        c.batch_refusal(people, from, i) matches Some(e) ==> e == TransferRefusalModel::NotAMember
            || e == TransferRefusalModel::ExecRootProtected || e
            == TransferRefusalModel::PersonDeparted || e
            == TransferRefusalModel::HeadNeedsSuccessor,
    decreases people.len() - i,
{
    if i < people.len() {
        lemma_batch_says(c, people, from, i + 1);
    }
}

/// A move is refused for the first of them who is no ordinary member, with what
/// they are instead.
pub proof fn law_the_first_who_stays_is_why(
    c: CompanyModel,
    from: Text,
    destination: Text,
    people: Seq<Text>,
    actor: Text,
    k: int,
)
    requires
        takes_people(c, destination),
        0 <= k < people.len(),
        !ordinary(c, from, people[k]),
        forall|j: int| 0 <= j < k ==> ordinary(c, from, #[trigger] people[j]),
    ensures
        ({
            let r = c.move_refusal(from, destination, people, actor);
            let p = people[k];
            let member = c.people.dom().contains(p) && home(c, p) == from;
            &&& r == Some(TransferRefusalModel::NotAMember) <==> !member
            &&& r == Some(TransferRefusalModel::ExecRootProtected) <==> member && c.is_ceo(p)
            &&& r == Some(TransferRefusalModel::PersonDeparted) <==> member && !c.is_ceo(p)
                && has_departed(c, p)
            &&& r == Some(TransferRefusalModel::HeadNeedsSuccessor) <==> member && !c.is_ceo(p)
                && employs(c, p)
        }),
{
    lemma_first_who_stays(c, people, from, 0, k);
}

// ---------------------------------------------------------------------------
// Units
// ---------------------------------------------------------------------------

/// A unit that is not the root is hung beneath any unit that runs, but the one it
/// hangs from and those beneath it, by whoever reaches both. Whether the unit
/// itself runs decides nothing.
pub proof fn law_where_a_unit_is_hung(
    c: CompanyModel,
    department: Text,
    parent: Text,
    actor: Text,
)
    ensures
        ({
            let r = c.reparent_refusal(department, parent, actor);
            let row = c.departments[department];
            let hangs = c.departments.dom().contains(department) && row.parent_id is Some;
            let open = takes_people(c, parent);
            let new = row.parent_id != Some(parent);
            let below = beneath(c.org().departments, parent, department);
            let apart = hangs && open && new && !below;
            &&& r is None <==> apart && reaches(c, actor, department) && reaches(c, actor, parent)
            &&& r == Some(ReparentRefusal::UnknownDepartment) <==> !c.departments.dom().contains(
                department,
            )
            &&& r == Some(ReparentRefusal::ExecRootProtected) <==> c.departments.dom().contains(
                department,
            ) && row.parent_id is None
            &&& r == Some(ReparentRefusal::UnknownNewParent) <==> hangs
                && !c.departments.dom().contains(parent)
            &&& r == Some(ReparentRefusal::NewParentPaused) <==> hangs
                && c.departments.dom().contains(parent) && c.stopped(parent)
            &&& r == Some(ReparentRefusal::AlreadyUnderParent) <==> hangs && open && !new
            &&& r == Some(ReparentRefusal::WouldCreateCycle) <==> hangs && open && new && below
            &&& r == Some(ReparentRefusal::ActorOutOfScope) <==> apart && !reaches(
                c,
                actor,
                department,
            )
            &&& r == Some(ReparentRefusal::NewParentOutOfScope) <==> apart && reaches(
                c,
                actor,
                department,
            ) && !reaches(c, actor, parent)
        }),
{
}

/// A unit that is not the root is paused where its own row runs, and resumed
/// where its own row is paused, by whoever reaches it: what the units above it
/// are in decides nothing.
pub proof fn law_which_unit_is_paused(c: CompanyModel, department: Text, actor: Text)
    ensures
        ({
            let p = c.pause_refusal(department, true, actor);
            let r = c.pause_refusal(department, false, actor);
            let known = c.departments.dom().contains(department);
            let root = c.company_root() == Some(department);
            let mine = known && !root && reaches(c, actor, department);
            let state = c.departments[department].state;
            &&& p is None <==> mine && state == UnitState::Active
            &&& r is None <==> mine && state == UnitState::Paused
            &&& p == Some(PauseRefusal::AlreadyPaused) <==> mine && state == UnitState::Paused
            &&& r == Some(PauseRefusal::NotPaused) <==> mine && state == UnitState::Active
            &&& p == Some(PauseRefusal::UnknownDepartment) <==> !known
            &&& r == Some(PauseRefusal::UnknownDepartment) <==> !known
            &&& p == Some(PauseRefusal::ExecRootProtected) <==> known && root
            &&& r == Some(PauseRefusal::ExecRootProtected) <==> known && root
            &&& p == Some(PauseRefusal::ActorOutOfScope) <==> known && !root && !reaches(
                c,
                actor,
                department,
            )
            &&& r == Some(PauseRefusal::ActorOutOfScope) <==> known && !root && !reaches(
                c,
                actor,
                department,
            )
        }),
{
}

/// Whether one of a set of units may be resumed with the others.
pub open spec fn resumable(c: CompanyModel, skip_active: bool, actor: Text, d: Text) -> bool {
    &&& c.departments.dom().contains(d)
    &&& c.company_root() != Some(d)
    &&& reaches(c, actor, d)
    &&& c.departments[d].state == UnitState::Paused || skip_active
}

proof fn lemma_all_resumable(
    c: CompanyModel,
    departments: Seq<Text>,
    skip_active: bool,
    actor: Text,
    i: int,
)
    requires
        0 <= i <= departments.len(),
    ensures
        c.resume_refusal_from(departments, skip_active, actor, i) is None <==> forall|k: int|
            i <= k < departments.len() ==> resumable(
                c,
                skip_active,
                actor,
                #[trigger] departments[k],
            ),
    decreases departments.len() - i,
{
    if i < departments.len() {
        lemma_all_resumable(c, departments, skip_active, actor, i + 1);
        if c.resume_refusal_from(departments, skip_active, actor, i) is None {
            assert forall|k: int| i <= k < departments.len() implies resumable(
                c,
                skip_active,
                actor,
                #[trigger] departments[k],
            ) by {}
        } else {
            if forall|k: int|
                i <= k < departments.len() ==> resumable(
                    c,
                    skip_active,
                    actor,
                    #[trigger] departments[k],
                ) {
                assert(resumable(c, skip_active, actor, departments[i]));
            }
        }
    }
}

/// A set of units is resumed exactly where it names some and every one of them
/// may be: a unit that runs is no hindrance where those are skipped.
pub proof fn law_which_units_are_resumed(
    c: CompanyModel,
    departments: Seq<Text>,
    skip_active: bool,
    actor: Text,
)
    ensures
        c.resume_refusal(departments, skip_active, actor) is None <==> departments.len() > 0
            && forall|k: int|
            0 <= k < departments.len() ==> resumable(
                c,
                skip_active,
                actor,
                #[trigger] departments[k],
            ),
        departments.len() == 0 ==> c.resume_refusal(departments, skip_active, actor) == Some(
            PauseRefusal::UnknownDepartment,
        ),
{
    lemma_all_resumable(c, departments, skip_active, actor, 0);
}

proof fn lemma_first_that_stays(
    c: CompanyModel,
    departments: Seq<Text>,
    skip_active: bool,
    actor: Text,
    i: int,
    k: int,
)
    requires
        0 <= i <= k < departments.len(),
        !resumable(c, skip_active, actor, departments[k]),
        forall|j: int|
            i <= j < k ==> resumable(c, skip_active, actor, #[trigger] departments[j]),
    ensures
        c.resume_refusal_from(departments, skip_active, actor, i) == c.resume_refusal_from(
            departments,
            skip_active,
            actor,
            k,
        ),
    decreases k - i,
{
    if i < k {
        assert(resumable(c, skip_active, actor, departments[i]));
        lemma_first_that_stays(c, departments, skip_active, actor, i + 1, k);
    }
}

/// A set of units is refused for the first of them that may not be resumed.
pub proof fn law_the_first_unit_that_stays_is_why(
    c: CompanyModel,
    departments: Seq<Text>,
    skip_active: bool,
    actor: Text,
    k: int,
)
    requires
        0 <= k < departments.len(),
        !resumable(c, skip_active, actor, departments[k]),
        forall|j: int|
            0 <= j < k ==> resumable(c, skip_active, actor, #[trigger] departments[j]),
    ensures
        ({
            let r = c.resume_refusal(departments, skip_active, actor);
            let d = departments[k];
            let known = c.departments.dom().contains(d);
            let root = c.company_root() == Some(d);
            &&& r == Some(PauseRefusal::UnknownDepartment) <==> !known
            &&& r == Some(PauseRefusal::ExecRootProtected) <==> known && root
            &&& r == Some(PauseRefusal::ActorOutOfScope) <==> known && !root && !reaches(
                c,
                actor,
                d,
            )
            &&& r == Some(PauseRefusal::NotPaused) <==> known && !root && reaches(c, actor, d)
        }),
{
    lemma_first_that_stays(c, departments, skip_active, actor, 0, k);
}

/// A unit that hangs from another is removed by whoever reaches it, whatever
/// state it is in and whoever sits in it.
pub proof fn law_which_unit_is_removed(c: CompanyModel, department: Text, actor: Text)
    ensures
        ({
            let r = c.remove_refusal(department, actor);
            let known = c.departments.dom().contains(department);
            let row = c.departments[department];
            &&& r is None <==> known && row.parent_id is Some && reaches(c, actor, department)
            &&& !known ==> says(r, "unknown-department"@)
            &&& known && !reaches(c, actor, department) ==> says(r, "actor-out-of-scope"@)
            &&& known && reaches(c, actor, department) && row.parent_id is None ==> says(r, "root-department-protected"@)
        }),
{
}

/// Whether somebody may come to head a unit: employed in it, on the bench or not,
/// and the head of no other.
pub open spec fn may_head(c: CompanyModel, unit: Text, p: Text) -> bool {
    &&& employs(c, p)
    &&& home(c, p) == unit
    &&& forall|d: Text| #[trigger]
        c.departments.dom().contains(d) && d != unit ==> c.departments[d].head_person_id != p
}

/// Any member of a unit who is employed, on the bench or not, and heads no other
/// is appointed its head by whoever reaches it and where the old head is sent;
/// but not of the root, and not who is its head already.
pub proof fn law_who_is_appointed(
    c: CompanyModel,
    department: Text,
    successor: Text,
    demote_to: Option<Text>,
    actor: Text,
)
    ensures
        ({
            let r = c.appoint_refusal(department, successor, demote_to, actor);
            let known = c.departments.dom().contains(department);
            let root = c.company_root() == Some(department);
            let sits = c.departments[department].head_person_id == successor;
            let reached = reaches(c, actor, department) && (demote_to matches Some(d) ==> reaches(
                c,
                actor,
                d,
            ));
            let asked = known && !root && !sits && reached;
            let member = employs(c, successor) && home(c, successor) == department;
            &&& r is None <==> asked && may_head(c, department, successor)
            &&& r == Some(AppointRefusal::UnknownDepartment) <==> !known
            &&& r == Some(AppointRefusal::RootHeadNotReassignable) <==> known && root
            &&& r == Some(AppointRefusal::AlreadySittingHead) <==> known && !root && sits
            &&& r == Some(AppointRefusal::ActorOutOfScope) <==> known && !root && !sits
                && !reached
            &&& r == Some(AppointRefusal::DepartedSuccessor) <==> asked && has_departed(
                c,
                successor,
            )
            &&& r == Some(AppointRefusal::NotAMember) <==> asked && !has_departed(c, successor)
                && !member
            &&& r == Some(AppointRefusal::AlreadyHeadsElsewhere) <==> asked && member && !may_head(
                c,
                department,
                successor,
            )
            &&& c.appoint_breaks(department, demote_to) <==> (demote_to matches Some(d)
                && !c.departments.dom().contains(d) && c.people.dom().contains(
                c.departments[department].head_person_id,
            ))
        }),
{
}

/// A head but the CEO is replaced, and leaves, where the successor may head the
/// unit and the actor reaches it.
pub proof fn law_which_head_is_replaced(
    c: CompanyModel,
    head: Text,
    successor: Text,
    actor: Text,
)
    ensures
        ({
            let r = c.replace_refusal(head, successor, actor);
            let other = head != successor;
            let heads = other && !c.is_ceo(head) && c.headed_by(head) is Some;
            let unit = c.headed_by(head)->0;
            let asked = heads && reaches(c, actor, unit);
            let known = c.people.dom().contains(successor);
            let member = employs(c, successor) && home(c, successor) == unit;
            &&& r is None <==> asked && may_head(c, unit, successor) && c.people.dom().contains(
                head,
            )
            &&& !other ==> says(r, "same-successor"@)
            &&& other && c.is_ceo(head) ==> says(r, "exec-root-protected"@)
            &&& other && !c.is_ceo(head) && c.headed_by(head) is None ==> says(r, "not-a-department-head"@)
            &&& heads && !reaches(c, actor, unit) ==> says(r, "actor-out-of-scope"@)
            &&& asked && !known ==> says(r, "unknown-successor"@)
            &&& asked && has_departed(c, successor) ==> says(r, "departed-successor"@)
            &&& asked && employs(c, successor) && !member ==> says(r, "not-a-member"@)
            &&& asked && member && !may_head(c, unit, successor) ==> says(r, "already-heads-elsewhere"@)
            &&& asked && may_head(c, unit, successor) && !c.people.dom().contains(head)
                ==> says(r, "unknown-person"@)
        }),
{
}

} // verus!
