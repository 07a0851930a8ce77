//! Decisions that take back what another did.

use vstd::prelude::*;

use crate::company::CompanyModel;
use crate::laws::chart::{charted, lemma_heads, lemma_org, person_sound, unit_sound};
use crate::laws::decision::Decision;
use crate::laws::frames::{
    lemma_number_departments, lemma_number_people, lemma_resume_all, lemma_swept_all,
    lemma_with_last,
};
use crate::org_view::{MemberModel, UnitModel};
use crate::organization::{EmploymentState, PersonKind, UnitState};
use crate::rows::chart::{member_of_row, unit_of_row};
use crate::text::Text;

verus! {

/// Resuming a unit that was paused gives back the chart as it was, the head of
/// the unit among it.
pub proof fn law_resuming_gives_back_the_chart(
    c: CompanyModel,
    department: Text,
    at: Text,
    actor: Text,
    later: Text,
    who: Text,
)
    requires
        c.allows(Decision::Pause { department }, actor),
    ensures
        c.paused(department, at, actor).resumed(department, later, who).org() == c.org(),
{
    let flipped = c.set_department_state(department, UnitState::Paused, at);
    lemma_swept_all(
        flipped,
        flipped.subtree_members(department),
        flipped.root_head(),
        department,
        at,
    );
    let r = c.paused(department, at, actor).resumed(department, later, who);
    assert(r.org().departments =~= c.org().departments);
    assert(r.org().people =~= c.org().people);
}

proof fn lemma_resumed(c: CompanyModel, departments: Seq<Text>, at: Text, d: Text)
    requires
        c.departments.dom().contains(d),
    ensures
        c.resume_all(departments, at).departments[d].state == (if departments.contains(d) {
            UnitState::Active
        } else {
            c.departments[d].state
        }),
    decreases departments.len(),
{
    lemma_resume_all(c, departments, at);
    if departments.len() > 0 {
        lemma_resume_all(c, departments.drop_last(), at);
        lemma_resumed(c, departments.drop_last(), at, d);
        lemma_with_last(departments);
    }
}

/// Resuming a set of units sets every one of them running, and no other.
pub proof fn law_resuming_sets_all_of_them_running(
    c: CompanyModel,
    departments: Seq<Text>,
    skip_active: bool,
    at: Text,
    actor: Text,
    d: Text,
)
    requires
        c.allows(Decision::ResumeMany { departments, skip_active }, actor),
        c.departments.dom().contains(d),
    ensures
        c.decided(
            Decision::ResumeMany { departments, skip_active },
            at,
            actor,
        ).departments[d].state == (if departments.contains(d) {
            UnitState::Active
        } else {
            c.departments[d].state
        }),
{
    lemma_resumed(c, departments, at, d);
}

/// Recalling somebody who was benched gives back the chart as it was.
pub proof fn law_recalling_gives_back_the_chart(
    c: CompanyModel,
    person: Text,
    at: Text,
    actor: Text,
    later: Text,
    who: Text,
)
    requires
        c.allows(Decision::Bench { person }, actor),
    ensures
        c.benched(person, at, actor).recalled(person, later, who).org() == c.org(),
{
    let r = c.benched(person, at, actor).recalled(person, later, who);
    assert(r.org().departments =~= c.org().departments);
    assert(r.org().people =~= c.org().people);
}

/// Starting somebody who was offboarded from work gives back the chart as it
/// was.
pub proof fn law_rehiring_gives_back_the_chart(
    c: CompanyModel,
    root: Text,
    person: Text,
    at: Text,
    actor: Text,
    later: Text,
    who: Text,
)
    requires
        c.finite(),
        charted(c, root),
        c.allows(Decision::Offboard { person }, actor),
        c.people[person].employment_state == EmploymentState::Active,
    ensures
        c.offboarded(person, at, actor).started(person, later, who).org() == c.org(),
{
    lemma_heads(c, root);
    assert(person_sound(c, person));
    assert(unit_sound(c, root, c.people[person].department_id));
    assert(c.people[person].kind == PersonKind::Worker);
    let off = c.offboarded(person, at, actor);
    lemma_offboarded_people(c, person, at, actor);
    lemma_started_people(off, person, later, who);
    let r = off.started(person, later, who);
    assert(r.org().departments =~= c.org().departments);
    assert(r.org().people =~= c.org().people);
}

proof fn lemma_offboarded_people(c: CompanyModel, person: Text, at: Text, actor: Text)
    requires
        c.people.dom().contains(person),
    ensures
        ({
            let r = c.offboarded(person, at, actor);
            &&& r.departments == c.departments
            &&& r.people.dom() == c.people.dom()
            &&& forall|p: Text| #[trigger]
                c.people.dom().contains(p) && p != person ==> r.people[p] == c.people[p]
            &&& r.people[person].employment_state == EmploymentState::Departed
            &&& r.people[person].kind == c.people[person].kind
            &&& r.people[person].department_id == c.people[person].department_id
        }),
{
    assert(c.offboarded(person, at, actor).people.dom() =~= c.people.dom());
}

proof fn lemma_started_people(c: CompanyModel, person: Text, at: Text, actor: Text)
    requires
        c.people.dom().contains(person),
        c.people[person].employment_state == EmploymentState::Departed,
    ensures
        ({
            let r = c.started(person, at, actor);
            &&& r.departments == c.departments
            &&& r.people.dom() == c.people.dom()
            &&& forall|p: Text| #[trigger]
                c.people.dom().contains(p) && p != person ==> r.people[p] == c.people[p]
            &&& r.people[person].employment_state == EmploymentState::Active
            &&& r.people[person].kind == PersonKind::Worker
            &&& r.people[person].department_id == c.people[person].department_id
        }),
{
    assert(c.started(person, at, actor).people.dom() =~= c.people.dom());
}

/// Hanging a unit back where it hung gives back the chart as it was.
pub proof fn law_hanging_back_gives_back_the_chart(
    c: CompanyModel,
    department: Text,
    parent: Text,
    at: Text,
    actor: Text,
    later: Text,
    who: Text,
)
    requires
        c.allows(Decision::Reparent { department, parent }, actor),
    ensures
        c.departments[department].parent_id matches Some(former) && c.reparented(
            department,
            parent,
            at,
            actor,
        ).reparented(department, former, later, who).org() == c.org(),
{
    let former = c.departments[department].parent_id->0;
    let there = c.reparented(department, parent, at, actor);
    lemma_hung(c, department, parent, at, actor);
    lemma_hung(there, department, former, later, who);
    lemma_org(c);
    lemma_org(there);
    let back = there.reparented(department, former, later, who);
    assert(back.org().departments =~= c.org().departments);
    assert(back.org().people =~= c.org().people);
}

proof fn lemma_hung(c: CompanyModel, department: Text, parent: Text, at: Text, actor: Text)
    requires
        c.departments.dom().contains(department),
    ensures
        c.reparented(department, parent, at, actor).org().departments == c.org().departments.insert(
            department,
            UnitModel {
                parent: Some(parent),
                ..c.org().departments[department]
            },
        ),
        c.reparented(department, parent, at, actor).org().people == c.org().people,
        c.reparented(department, parent, at, actor).departments.dom() == c.departments.dom(),
{
    let hung = c.set_parent(department, parent, at);
    lemma_number_departments(hung, hung.department_order(), at);
    let ordered = hung.refresh_department_order(at);
    lemma_number_people(ordered, ordered.people_order(), at);
    let r = c.reparented(department, parent, at, actor);
    assert(r.org().departments =~= hung.org().departments);
    assert(r.org().people =~= hung.org().people);
    assert(hung.org().departments =~= c.org().departments.insert(
        department,
        UnitModel { parent: Some(parent), ..c.org().departments[department] },
    ));
    assert(hung.org().people =~= c.org().people);
    assert(r.departments.dom() =~= c.departments.dom());
}

/// Appointing the former head again gives back the chart as it was.
pub proof fn law_appointing_back_gives_back_the_chart(
    c: CompanyModel,
    root: Text,
    department: Text,
    successor: Text,
    at: Text,
    actor: Text,
    later: Text,
    who: Text,
)
    requires
        c.finite(),
        charted(c, root),
        c.allows(Decision::Appoint { department, successor, demote_to: None }, actor),
    ensures
        c.appointed(department, successor, None, at, actor).appointed(
            department,
            c.departments[department].head_person_id,
            None,
            later,
            who,
        ).org() == c.org(),
{
    lemma_heads(c, root);
    let former = c.departments[department].head_person_id;
    assert(unit_sound(c, root, department));
    assert(person_sound(c, successor));
    let there = c.appointed(department, successor, None, at, actor);
    lemma_swapped(c, department, successor, at, actor);
    lemma_swapped(there, department, former, later, who);
    let back = there.appointed(department, former, None, later, who);
    assert(back.org().departments =~= c.org().departments);
    assert(back.org().people =~= c.org().people);
}

proof fn lemma_swapped(c: CompanyModel, department: Text, successor: Text, at: Text, actor: Text)
    requires
        c.departments.dom().contains(department),
        c.people.dom().contains(successor),
        c.people.dom().contains(c.departments[department].head_person_id),
        successor != c.departments[department].head_person_id,
    ensures
        ({
            let r = c.appointed(department, successor, None, at, actor);
            let former = c.departments[department].head_person_id;
            &&& r.departments.dom() == c.departments.dom()
            &&& r.people.dom() == c.people.dom()
            &&& forall|d: Text| #[trigger]
                c.departments.dom().contains(d) && d != department ==> r.departments[d]
                    == c.departments[d]
            &&& unit_of_row(r.departments[department]) == (UnitModel {
                head: successor,
                ..unit_of_row(c.departments[department])
            })
            &&& forall|p: Text| #[trigger]
                c.people.dom().contains(p) && p != successor && p != former ==> r.people[p]
                    == c.people[p]
            &&& member_of_row(r.people[successor]) == (MemberModel {
                kind: PersonKind::Head,
                ..member_of_row(c.people[successor])
            })
            &&& member_of_row(r.people[former]) == (MemberModel {
                kind: PersonKind::Worker,
                ..member_of_row(c.people[former])
            })
        }),
{
    let r = c.appointed(department, successor, None, at, actor);
    assert(r.departments.dom() =~= c.departments.dom());
    assert(r.people.dom() =~= c.people.dom());
}

} // verus!
