//! Starting, waking and recalling people, and setting the root running.

use vstd::prelude::*;

use crate::company::{Company, CompanyModel, StaffingAction};
use crate::org_ops::guards::{
    actor_out_of_scope, company_root, department_or_ancestor_is_paused, department_state, is_ceo,
    person_placement, RowError,
};
use crate::org_ops::refusals::{direct_refusal, DirectOutcome};
use crate::org_view::lemma_first_where;
use crate::organization::{EmploymentState, PersonKind, UnitState};
use crate::table::listing;
use crate::text::{cat2, Text};

verus! {

/// The refusal of a company that is stood down.
pub open spec fn stood_down_refusal() -> (Text, Text) {
    (
        "company-stood-down"@,
        "the operator stood this company down, so nobody is started until it is resumed; run `chief resume` to lift it"@,
    )
}

impl CompanyModel {
    /// Why somebody is not started, if they are not: the code and a line for
    /// people.
    pub open spec fn start_refusal(self, person: Text, actor: Text) -> Option<(Text, Text)> {
        if self.stood_down {
            Some(stood_down_refusal())
        } else if !self.people.dom().contains(person) {
            Some(("unknown-person"@, "no such person"@))
        } else {
            let home = self.people[person].department_id;
            if self.out_of_scope(actor, home) {
                Some(
                    (
                        "actor-out-of-scope"@,
                        "the actor does not manage the department the person they are starting lives in"@,
                    ),
                )
            } else if self.people[person].employment_state == EmploymentState::Departed
                && !self.departments.dom().contains(home) {
                Some(
                    (
                        "home-department-gone"@,
                        "the person departed from a department that no longer exists; there is nowhere to put them, so name a department for them first"@,
                    ),
                )
            } else if self.stopped(home) {
                Some(("destination-paused"@, "the person's department is paused"@))
            } else {
                None
            }
        }
    }

    /// Somebody is staffed again where they are, and the staffing history says
    /// how they came back.
    pub open spec fn returned(self, person: Text, action: StaffingAction, at: Text) -> CompanyModel {
        let home = self.people[person].department_id;
        self.set_employment_state(person, EmploymentState::Active, at).append_staffing(
            person,
            action,
            Some(home),
            Some(home),
            action.as_str_text(),
            at,
        )
    }

    /// What a start makes of the rows. Whoever is benched is recalled by it,
    /// whoever has departed is rehired, as a worker and free of the departure.
    /// The CEO needs no start decision and has no idle clock.
    pub open spec fn started(self, person: Text, at: Text, actor: Text) -> CompanyModel {
        let employment = self.people[person].employment_state;
        let chief = self.is_ceo(person);
        let staffed = match employment {
            EmploymentState::Active => self,
            EmploymentState::Benched => self.returned(person, StaffingAction::Recalled, at),
            EmploymentState::Departed => self.returned(
                person,
                StaffingAction::Rehired,
                at,
            ).set_person_kind(person, PersonKind::Worker, at).supersede_open_transition(
                person,
                "superseded-by-rehire:"@ + person,
                at,
            ).upsert_desired(person, true, None, at),
        };
        let wanted = (if chief {
            staffed
        } else {
            staffed.insert_fence(person)
        }).ensure_desired_active(person, at);
        (if chief {
            wanted
        } else {
            wanted.release_idle_park(
                person,
                at,
                "superseded-by-start:"@ + person,
            ).begin_idle_lease(person, at)
        }).deduped().emitted(at, actor)
    }

    /// Why somebody is not woken, if they are not: the code and a line for
    /// people.
    pub open spec fn wake_refusal(self, person: Text, actor: Text) -> Option<(Text, Text)> {
        if self.stood_down {
            Some(stood_down_refusal())
        } else if !self.people.dom().contains(person) {
            Some(("unknown-person"@, "no such person"@))
        } else {
            let home = self.people[person].department_id;
            if self.out_of_scope(actor, home) {
                Some(
                    (
                        "actor-out-of-scope"@,
                        "the actor does not manage the department the person they are waking lives in"@,
                    ),
                )
            } else if self.people[person].employment_state == EmploymentState::Departed {
                Some(
                    (
                        "person-departed"@,
                        "that person was fired; bringing them back is a rehire and takes the start verb"@,
                    ),
                )
            } else if self.stopped(home) {
                Some(("destination-paused"@, "the person's department is paused"@))
            } else {
                None
            }
        }
    }

    /// What a wake makes of the rows. Whoever is benched is recalled by it.
    /// Whether they are wanted up is left for whoever reads the start decision.
    pub open spec fn woken(self, person: Text, at: Text, actor: Text) -> CompanyModel {
        let staffed = if self.people[person].employment_state == EmploymentState::Benched {
            self.returned(person, StaffingAction::Recalled, at)
        } else {
            self
        };
        (if self.is_ceo(person) {
            staffed
        } else {
            staffed.insert_fence(person)
        }).release_idle_park(person, at, "superseded-by-wake:"@ + person).deduped().emitted(
            at,
            actor,
        )
    }

    /// Why somebody is not recalled, if they are not: the code and a line for
    /// people.
    pub open spec fn recall_refusal(self, person: Text, actor: Text) -> Option<(Text, Text)> {
        if !self.people.dom().contains(person) {
            Some(("unknown-person"@, "no such person"@))
        } else if self.people[person].employment_state == EmploymentState::Departed {
            Some(("already-departed"@, "the person has departed and cannot be recalled"@))
        } else if self.people[person].employment_state == EmploymentState::Active {
            Some(("already-active"@, "the person is already active"@))
        } else if self.out_of_scope(actor, self.people[person].department_id) {
            Some(
                (
                    "actor-out-of-scope"@,
                    "the actor does not manage the department the person they are recalling lives in"@,
                ),
            )
        } else if self.stopped(self.people[person].department_id) {
            Some(("destination-paused"@, "the person's department is paused"@))
        } else {
            None
        }
    }

    /// What a recall makes of the rows. Nobody starts.
    pub open spec fn recalled(self, person: Text, at: Text, actor: Text) -> CompanyModel {
        self.returned(person, StaffingAction::Recalled, at).deduped().emitted(at, actor)
    }

    /// Why the root is not set running, if it is not: the code and a line for
    /// people.
    pub open spec fn reactivate_refusal(self, actor: Text) -> Option<(Text, Text)> {
        match self.company_root() {
            None => Some(("unknown-company"@, "the company has no executive root"@)),
            Some(root) => if self.out_of_scope(actor, root) {
                Some(
                    (
                        "actor-out-of-scope"@,
                        "the actor does not manage the company root they are reactivating"@,
                    ),
                )
            } else {
                None
            },
        }
    }

    /// What setting the root running makes of the rows: nothing where it runs.
    pub open spec fn reactivated(self, at: Text, actor: Text) -> CompanyModel {
        let root = self.company_root()->0;
        (if self.departments[root].state == UnitState::Paused {
            self.set_department_state(root, UnitState::Active, at)
        } else {
            self
        }).deduped().emitted(at, actor)
    }
}

/// Staff somebody again where they are.
fn return_person(company: &mut Company, person_id: &str, action: StaffingAction, at: &str)
    requires
        old(company).wf(),
        old(company)@.people.dom().contains(person_id@),
    ensures
        final(company).wf(),
        final(company)@ == old(company)@.returned(person_id@, action, at@),
{
    if let Some(row) = company.people.get(person_id) {
        let home = row.department_id.clone();
        company.set_employment_state(person_id, EmploymentState::Active, at);
        company.append_staffing(
            person_id,
            action,
            Some(home.as_str()),
            Some(home.as_str()),
            action.as_str(),
            at,
        );
    }
}

/// Start somebody. A start is one decision: whoever is benched or has departed
/// comes back by it, or nothing changes.
pub fn start_person(company: &mut Company, person_id: &str, at: &str, actor: &str) -> (r: Result<
    DirectOutcome,
    RowError,
>)
    requires
        old(company).wf(),
    ensures
        final(company).wf(),
        match r {
            Ok(DirectOutcome::Refused { code, detail }) => old(company)@.start_refusal(
                person_id@,
                actor@,
            ) == Some((code@, detail@)) && final(company)@ == old(company)@,
            Ok(DirectOutcome::Applied) => old(company)@.start_refusal(person_id@, actor@) is None
                && old(company)@.readable() && final(company)@ == old(company)@.started(
                person_id@,
                at@,
                actor@,
            ),
            Err(e) => old(company)@.start_refusal(person_id@, actor@) is None && !old(
                company)@.readable() && e == RowError::NoRows && final(company)@ == old(company)@,
        },
{
    if company.stood_down {
        return Ok(direct_refusal(
            "company-stood-down",
            "the operator stood this company down, so nobody is started until it is resumed; run `chief resume` to lift it",
        ));
    }
    let (employment, home) = match person_placement(company, person_id) {
        Some(placement) => placement,
        None => {
            return Ok(direct_refusal("unknown-person", "no such person"));
        },
    };
    if actor_out_of_scope(company, actor, home.as_str()) {
        return Ok(direct_refusal(
            "actor-out-of-scope",
            "the actor does not manage the department the person they are starting lives in",
        ));
    }
    if employment == EmploymentState::Departed && !company.departments.has(home.as_str()) {
        return Ok(direct_refusal(
            "home-department-gone",
            "the person departed from a department that no longer exists; there is nowhere to put them, so name a department for them first",
        ));
    }
    if department_or_ancestor_is_paused(company, home.as_str()) {
        return Ok(direct_refusal("destination-paused", "the person's department is paused"));
    }
    if company.settings.is_none() || company_root(company).is_none() {
        return Err(RowError::NoRows);
    }
    let chief = is_ceo(company, person_id);
    match employment {
        EmploymentState::Active => {},
        EmploymentState::Benched => {
            return_person(company, person_id, StaffingAction::Recalled, at);
        },
        EmploymentState::Departed => {
            return_person(company, person_id, StaffingAction::Rehired, at);
            company.set_person_kind(person_id, PersonKind::Worker, at);
            let marker = cat2("superseded-by-rehire:", person_id);
            company.supersede_open_transition(person_id, marker.as_str(), at);
            company.upsert_desired(person_id, true, None, at);
        },
    }
    if !chief {
        company.insert_fence(person_id);
    }
    company.ensure_desired_active(person_id, at);
    if !chief {
        let fact = cat2("superseded-by-start:", person_id);
        company.release_idle_park(person_id, at, fact.as_str());
        company.begin_idle_lease(person_id, at);
    }
    company.emit_once(at, actor);
    Ok(DirectOutcome::Applied)
}

/// Wake somebody who is at rest: grant the start and let go of the routine park
/// they are under. Whether they are wanted up is left alone.
pub fn wake_person(company: &mut Company, person_id: &str, at: &str, actor: &str) -> (r: Result<
    DirectOutcome,
    RowError,
>)
    requires
        old(company).wf(),
    ensures
        final(company).wf(),
        match r {
            Ok(DirectOutcome::Refused { code, detail }) => old(company)@.wake_refusal(
                person_id@,
                actor@,
            ) == Some((code@, detail@)) && final(company)@ == old(company)@,
            Ok(DirectOutcome::Applied) => old(company)@.wake_refusal(person_id@, actor@) is None
                && old(company)@.readable() && final(company)@ == old(company)@.woken(
                person_id@,
                at@,
                actor@,
            ),
            Err(e) => old(company)@.wake_refusal(person_id@, actor@) is None && !old(
                company)@.readable() && e == RowError::NoRows && final(company)@ == old(company)@,
        },
{
    if company.stood_down {
        return Ok(direct_refusal(
            "company-stood-down",
            "the operator stood this company down, so nobody is started until it is resumed; run `chief resume` to lift it",
        ));
    }
    let (employment, home) = match person_placement(company, person_id) {
        Some(placement) => placement,
        None => {
            return Ok(direct_refusal("unknown-person", "no such person"));
        },
    };
    if actor_out_of_scope(company, actor, home.as_str()) {
        return Ok(direct_refusal(
            "actor-out-of-scope",
            "the actor does not manage the department the person they are waking lives in",
        ));
    }
    if employment == EmploymentState::Departed {
        return Ok(direct_refusal(
            "person-departed",
            "that person was fired; bringing them back is a rehire and takes the start verb",
        ));
    }
    if department_or_ancestor_is_paused(company, home.as_str()) {
        return Ok(direct_refusal("destination-paused", "the person's department is paused"));
    }
    if company.settings.is_none() || company_root(company).is_none() {
        return Err(RowError::NoRows);
    }
    let chief = is_ceo(company, person_id);
    if employment == EmploymentState::Benched {
        return_person(company, person_id, StaffingAction::Recalled, at);
    }
    if !chief {
        company.insert_fence(person_id);
    }
    let fact = cat2("superseded-by-wake:", person_id);
    company.release_idle_park(person_id, at, fact.as_str());
    company.emit_once(at, actor);
    Ok(DirectOutcome::Applied)
}

/// Recall somebody from the bench. Whether they start is a decision of its own.
pub fn recall_person(company: &mut Company, person_id: &str, at: &str, actor: &str) -> (r: Result<
    DirectOutcome,
    RowError,
>)
    requires
        old(company).wf(),
    ensures
        final(company).wf(),
        match r {
            Ok(DirectOutcome::Refused { code, detail }) => old(company)@.recall_refusal(
                person_id@,
                actor@,
            ) == Some((code@, detail@)) && final(company)@ == old(company)@,
            Ok(DirectOutcome::Applied) => old(company)@.recall_refusal(person_id@, actor@) is None
                && final(company)@ == old(company)@.recalled(person_id@, at@, actor@),
            Err(_) => false,
        },
{
    let (employment, home) = match person_placement(company, person_id) {
        Some(placement) => placement,
        None => {
            return Ok(direct_refusal("unknown-person", "no such person"));
        },
    };
    if employment == EmploymentState::Departed {
        return Ok(direct_refusal("already-departed", "the person has departed and cannot be recalled"));
    }
    if employment == EmploymentState::Active {
        return Ok(direct_refusal("already-active", "the person is already active"));
    }
    if actor_out_of_scope(company, actor, home.as_str()) {
        return Ok(direct_refusal(
            "actor-out-of-scope",
            "the actor does not manage the department the person they are recalling lives in",
        ));
    }
    if department_or_ancestor_is_paused(company, home.as_str()) {
        return Ok(direct_refusal("destination-paused", "the person's department is paused"));
    }
    return_person(company, person_id, StaffingAction::Recalled, at);
    company.emit_once(at, actor);
    Ok(DirectOutcome::Applied)
}

/// Set the root running again. Only who manages the root may: whoever heads it,
/// or an executive.
pub fn reactivate_executive_root(company: &mut Company, at: &str, actor: &str) -> (r: Result<
    DirectOutcome,
    RowError,
>)
    requires
        old(company).wf(),
    ensures
        final(company).wf(),
        match r {
            Ok(DirectOutcome::Refused { code, detail }) => old(company)@.reactivate_refusal(
                actor@,
            ) == Some((code@, detail@)) && final(company)@ == old(company)@,
            Ok(DirectOutcome::Applied) => old(company)@.reactivate_refusal(actor@) is None
                && final(company)@ == old(company)@.reactivated(at@, actor@),
            Err(_) => false,
        },
{
    let root = match company_root(company) {
        Some(root) => root,
        None => {
            return Ok(direct_refusal("unknown-company", "the company has no executive root"));
        },
    };
    if actor_out_of_scope(company, actor, root.as_str()) {
        return Ok(direct_refusal(
            "actor-out-of-scope",
            "the actor does not manage the company root they are reactivating",
        ));
    }
    proof {
        let m = company@.org().departments;
        lemma_first_where(listing(m.dom()), |d: Text| m[d].parent is None);
        company.departments.lemma_listing();
        assert(m.dom() =~= company@.departments.dom());
    }
    if department_state(company, root.as_str()) == Some(UnitState::Paused) {
        company.set_department_state(root.as_str(), UnitState::Active, at);
    }
    company.emit_once(at, actor);
    Ok(DirectOutcome::Applied)
}

} // verus!
