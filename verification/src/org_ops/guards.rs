//! What every decision asks before it changes anything: who may not be
//! touched, and whether the actor may.

use vstd::prelude::*;

use crate::company::{Company, CompanyModel};
use crate::org_view;
use crate::org_view::{ceo, manages, root_of, stopped};
use crate::organization::{EmploymentState, UnitState};
use crate::rows::chart::eligibility_view;
use crate::text::{cat3, opt, owned, same, trim_text, trimmed, Text};

verus! {

/// Why the rows could not be changed, though nothing refused it. Nothing has
/// been changed then.
#[derive(Debug, Clone, Copy, PartialEq, Eq, Structural)]
pub enum RowError {
    /// A row the change needs is not there.
    NoRows,
    /// The change would break a rule the rows are under: a unit has one head
    /// and heads one unit, somebody has one open transition, a person's unit
    /// and a unit's parent are there.
    Constraint,
}

impl CompanyModel {
    /// Whether somebody is the CEO: the head of the root.
    pub open spec fn is_ceo(self, person: Text) -> bool {
        ceo(self.org().departments, person)
    }

    /// The root.
    pub open spec fn company_root(self) -> Option<Text> {
        root_of(self.org().departments)
    }

    /// Whether a unit, or one above it, is paused, unknown, or hangs from no
    /// root.
    pub open spec fn stopped(self, department: Text) -> bool {
        stopped(self.org().departments, department)
    }

    /// Whether an actor names somebody.
    pub open spec fn names_a_person(self, actor: Text) -> bool {
        actor.len() > 0 && self.people.dom().contains(actor)
    }

    /// Whether an actor names somebody who does not manage a unit. An actor
    /// that names nobody is never out of scope.
    pub open spec fn out_of_scope(self, actor: Text, department: Text) -> bool {
        self.names_a_person(actor) && !manages(self.org(), actor, department)
    }

    /// Whether an actor names somebody who does not manage the unit a person
    /// is in. Nobody is out of scope for a person who is not there.
    pub open spec fn out_of_scope_for(self, actor: Text, person: Text) -> bool {
        self.people.dom().contains(person) && self.out_of_scope(
            actor,
            self.people[person].department_id,
        )
    }

    /// Whether somebody heads a unit other than this one.
    pub open spec fn heads_other_than(self, person: Text, department: Text) -> bool {
        exists|d: Text| #[trigger]
            self.departments.dom().contains(d) && d != department
                && self.departments[d].head_person_id == person
    }
}

/// The staffing-history line of an act: what was done, and by whom if anybody
/// is named.
pub open spec fn ledger_line(act: Text, actor: Text) -> Text {
    if trimmed(actor).len() == 0 {
        act
    } else {
        act + " by "@ + trimmed(actor)
    }
}

/// The staffing-history line of an act. A caller is never asked for it: the
/// act and who performed it say more than a sentence somebody typed.
pub fn authored_ledger_line(act: &str, actor: &str) -> (r: String)
    ensures
        r@ == ledger_line(act@, actor@),
{
    let actor = trim_text(actor);
    if actor.as_str().unicode_len() == 0 {
        owned(act)
    } else {
        cat3(act, " by ", actor.as_str())
    }
}

/// Whether somebody is the CEO, the one person nobody may move or stop.
/// Everybody else may be, wherever they sit. A company without a root has no
/// CEO.
pub fn is_ceo(company: &Company, person_id: &str) -> (r: bool)
    requires
        company.wf(),
    ensures
        r == company@.is_ceo(person_id@),
{
    let view = eligibility_view(company);
    org_view::is_ceo(&view, person_id)
}

/// The root of a company.
pub fn company_root(company: &Company) -> (r: Option<String>)
    requires
        company.wf(),
    ensures
        opt(r) == company@.company_root(),
{
    let view = eligibility_view(company);
    match org_view::company_root(&view) {
        Some(root) => Some(owned(root)),
        None => None,
    }
}

/// Whether a unit is the root, the one unit that never moves.
pub fn department_is_company_root(company: &Company, department_id: &str) -> (r: bool)
    requires
        company.wf(),
    ensures
        r == (company@.company_root() == Some(department_id@)),
{
    match company_root(company) {
        Some(root) => same(root.as_str(), department_id),
        None => false,
    }
}

/// Whether a unit or one above it is paused. An unknown unit and a way up that
/// does not end count as paused.
pub fn department_or_ancestor_is_paused(company: &Company, department_id: &str) -> (r: bool)
    requires
        company.wf(),
    ensures
        r == company@.stopped(department_id@),
{
    let view = eligibility_view(company);
    org_view::department_or_ancestor_is_paused(&view, department_id)
}

/// Whether an actor names somebody. The actor is free prose of an audit trail;
/// only where it names a person does anything rest on it.
pub fn actor_names_a_person(company: &Company, actor: &str) -> (r: bool)
    requires
        company.wf(),
    ensures
        r == company@.names_a_person(actor@),
{
    actor.unicode_len() > 0 && company.people.has(actor)
}

/// Whether an actor names somebody who does not manage a unit.
pub fn actor_out_of_scope(company: &Company, actor: &str, department_id: &str) -> (r: bool)
    requires
        company.wf(),
    ensures
        r == company@.out_of_scope(actor@, department_id@),
{
    if !actor_names_a_person(company, actor) {
        return false;
    }
    let view = eligibility_view(company);
    !org_view::person_manages_department(&view, actor, department_id)
}

/// Whether an actor names somebody who does not manage the unit a person is
/// in.
pub fn actor_out_of_scope_for_person(company: &Company, actor: &str, person_id: &str) -> (r: bool)
    requires
        company.wf(),
    ensures
        r == company@.out_of_scope_for(actor@, person_id@),
{
    match company.people.get(person_id) {
        Some(row) => actor_out_of_scope(company, actor, row.department_id.as_str()),
        None => false,
    }
}

/// Whether somebody heads a unit other than this one.
pub fn person_heads_department_other_than(
    company: &Company,
    person_id: &str,
    department_id: &str,
) -> (r: bool)
    requires
        company.wf(),
    ensures
        r == company@.heads_other_than(person_id@, department_id@),
{
    let ghost m = company@.departments;
    let mut i: usize = 0;
    while i < company.departments.keys.len()
        invariant
            i <= company.departments.keys@.len(),
            company.wf(),
            m == company@.departments,
            forall|j: int|
                0 <= j < i ==> !(#[trigger] company.departments.keys@[j]@ != department_id@
                    && m[company.departments.keys@[j]@].head_person_id == person_id@),
        decreases company.departments.keys@.len() - i,
    {
        proof {
            company.departments.lemma_at(i as int);
        }
        if !same(company.departments.keys[i].as_str(), department_id) && same(
            company.departments.values[i].head_person_id.as_str(),
            person_id,
        ) {
            proof {
                assert(m.dom().contains(company.departments.keys@[i as int]@));
            }
            return true;
        }
        i = i + 1;
    }
    proof {
        assert forall|d: Text| #[trigger] m.dom().contains(d) implies !(d != department_id@
            && m[d].head_person_id == person_id@) by {
            let j = choose|j: int|
                0 <= j < company.departments.keys@.len()
                    && #[trigger] company.departments.keys@[j]@ == d;
            assert(company.departments.keys@[j]@ == d);
        }
    }
    false
}

/// The state of a unit.
pub fn department_state(company: &Company, department_id: &str) -> (r: Option<UnitState>)
    requires
        company.wf(),
    ensures
        r == (if company@.departments.dom().contains(department_id@) {
            Some(company@.departments[department_id@].state)
        } else {
            None
        }),
{
    match company.departments.get(department_id) {
        Some(row) => Some(row.state),
        None => None,
    }
}

/// How and where somebody is employed.
pub fn person_placement(company: &Company, person_id: &str) -> (r: Option<
    (EmploymentState, String),
>)
    requires
        company.wf(),
    ensures
        r is Some <==> company@.people.dom().contains(person_id@),
        r matches Some(p) ==> p.0 == company@.people[person_id@].employment_state && p.1@
            == company@.people[person_id@].department_id,
{
    match company.people.get(person_id) {
        Some(row) => Some((row.employment_state, row.department_id.clone())),
        None => None,
    }
}

} // verus!
