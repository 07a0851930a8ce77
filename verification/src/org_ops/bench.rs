//! Benching somebody: still of the company, not staffed.

use vstd::prelude::*;

use crate::company::{Company, CompanyModel, StaffingAction, TransitionAction};
use crate::org_ops::guards::{actor_out_of_scope, company_root, is_ceo, RowError};
use crate::org_ops::refusals::{
    BenchCompletionKey, BenchLifecycleOutcome, BenchOutcome, BenchRefusal,
};
use crate::organization::EmploymentState;
use crate::rows::ledger::{released, released_transition};
use crate::text::{cat2, cat3, owned, Text};

verus! {

impl CompanyModel {
    /// Why somebody is not benched, if they are not.
    pub open spec fn bench_refusal(self, person: Text, actor: Text) -> Option<BenchRefusal> {
        if self.is_ceo(person) {
            Some(BenchRefusal::ExecRootProtected)
        } else if !self.people.dom().contains(person) {
            Some(BenchRefusal::UnknownPerson)
        } else if self.people[person].employment_state == EmploymentState::Departed {
            Some(BenchRefusal::AlreadyDeparted)
        } else if self.people[person].employment_state == EmploymentState::Benched {
            Some(BenchRefusal::AlreadyBenched)
        } else if self.out_of_scope(actor, self.people[person].department_id) {
            Some(BenchRefusal::ActorOutOfScope)
        } else {
            None
        }
    }

    /// What a bench makes of the rows: a park that waits, released, is adopted,
    /// any other open transition gives way; the person is benched where they
    /// are, and neither wanted up nor to be started.
    pub open spec fn benched(self, person: Text, at: Text, actor: Text) -> CompanyModel {
        let adopted = self.ready_transition(person, TransitionAction::Park);
        (if adopted is None {
            self.supersede_open_transition(person, "superseded-by-bench:"@ + person, at)
        } else {
            self
        }).upsert_desired(person, false, adopted, at).set_employment_state(
            person,
            EmploymentState::Benched,
            at,
        ).append_staffing(
            person,
            StaffingAction::Benched,
            Some(self.people[person].department_id),
            None,
            "benched "@ + person,
            at,
        ).delete_fence(person).deduped().emitted(at, actor)
    }

    /// Whether the company's organization can be read whole: it has settings
    /// and a root.
    pub open spec fn readable(self) -> bool {
        self.settings is Some && self.company_root() is Some
    }

    /// The unit the ledger has somebody in: where they last were, else the unit
    /// they belong to.
    pub open spec fn ledger_placement(self, person: Text) -> Option<Text> {
        if self.activity.dom().contains(person) && self.activity[person].last_department_id
            is Some {
            self.activity[person].last_department_id
        } else {
            Some(self.people[person].department_id)
        }
    }

    /// The park a bench comes under: the one that waits, released, or the next.
    pub open spec fn bench_park(self, person: Text) -> Text {
        match self.ready_transition(person, TransitionAction::Park) {
            Some(id) => id,
            None => self.next_transition_id(person, TransitionAction::Park),
        }
    }

    /// A park that is released as it is made stands ready for a bench, unless
    /// one does.
    pub open spec fn park_prepared(self, person: Text, at: Text, actor: Text) -> CompanyModel {
        if self.ready_transition(person, TransitionAction::Park) is Some {
            self.emitted(at, actor)
        } else {
            self.counted().upsert_desired(
                person,
                self.desired(person),
                Some(self.bench_park(person)),
                at,
            ).insert_transition(
                self.bench_park(person),
                released_transition(
                    person,
                    TransitionAction::Park,
                    self.ledger_placement(person),
                    "Bench '"@ + person + "' after a bounded handoff."@,
                    at,
                ),
            ).emitted(at, actor)
        }
    }

    /// Whether a bench's park cannot be made ready: what it reads is not there.
    pub open spec fn park_unreadable(self) -> bool {
        !self.readable() || !self.activity_ledger
    }

    /// Whether a bench's park cannot be made ready: another transition is open,
    /// or its id is taken.
    pub open spec fn park_breaks(self, person: Text) -> bool {
        self.ready_transition(person, TransitionAction::Park) is None && (self.open_transition(
            person,
        ) is Some || self.next_taken(person, TransitionAction::Park))
    }
}

/// Whether somebody may be benched, and the unit they belong to.
fn check_bench(company: &Company, person_id: &str, actor: &str) -> (r: Result<
    String,
    BenchRefusal,
>)
    requires
        company.wf(),
    ensures
        match r {
            Ok(home) => company@.bench_refusal(person_id@, actor@) is None
                && company@.people.dom().contains(person_id@) && home@
                == company@.people[person_id@].department_id,
            Err(e) => company@.bench_refusal(person_id@, actor@) == Some(e),
        },
{
    if is_ceo(company, person_id) {
        return Err(BenchRefusal::ExecRootProtected);
    }
    match company.people.get(person_id) {
        None => Err(BenchRefusal::UnknownPerson),
        Some(row) => {
            if row.employment_state == EmploymentState::Departed {
                return Err(BenchRefusal::AlreadyDeparted);
            }
            if row.employment_state == EmploymentState::Benched {
                return Err(BenchRefusal::AlreadyBenched);
            }
            if actor_out_of_scope(company, actor, row.department_id.as_str()) {
                return Err(BenchRefusal::ActorOutOfScope);
            }
            Ok(row.department_id.clone())
        },
    }
}

/// Bench somebody. They keep their row and their unit.
pub fn bench_person(company: &mut Company, person_id: &str, at: &str, actor: &str) -> (r: Result<
    BenchOutcome,
    RowError,
>)
    requires
        old(company).wf(),
    ensures
        final(company).wf(),
        match r {
            Ok(BenchOutcome::Refused { reason }) => old(company)@.bench_refusal(
                person_id@,
                actor@,
            ) == Some(reason) && final(company)@ == old(company)@,
            Ok(BenchOutcome::Applied) => old(company)@.bench_refusal(person_id@, actor@) is None
                && final(company)@ == old(company)@.benched(person_id@, at@, actor@),
            Err(_) => false,
        },
{
    let home = match check_bench(company, person_id, actor) {
        Ok(home) => home,
        Err(reason) => {
            return Ok(BenchOutcome::Refused { reason });
        },
    };
    let adopted = company.ready_transition(person_id, TransitionAction::Park);
    if adopted.is_none() {
        let marker = cat2("superseded-by-bench:", person_id);
        company.supersede_open_transition(person_id, marker.as_str(), at);
    }
    let under = match &adopted {
        Some(id) => Some(id.as_str()),
        None => None,
    };
    company.upsert_desired(person_id, false, under, at);
    company.set_employment_state(person_id, EmploymentState::Benched, at);
    let reason = cat2("benched ", person_id);
    company.append_staffing(
        person_id,
        StaffingAction::Benched,
        Some(home.as_str()),
        None,
        reason.as_str(),
        at,
    );
    company.delete_fence(person_id);
    company.emit_once(at, actor);
    Ok(BenchOutcome::Applied)
}

/// Bench somebody who may be running: a park released as it is made stands
/// ready first, and the bench adopts it. The answer names that park.
pub fn bench_person_lifecycle(
    company: &mut Company,
    person_id: &str,
    at: &str,
    actor: &str,
) -> (r: Result<BenchLifecycleOutcome, RowError>)
    requires
        old(company).wf(),
        old(company)@.transition_seq < u64::MAX,
    ensures
        final(company).wf(),
        match r {
            Ok(BenchLifecycleOutcome::Refused { reason }) => old(company)@.bench_refusal(
                person_id@,
                actor@,
            ) == Some(reason) && final(company)@ == old(company)@,
            Ok(BenchLifecycleOutcome::Applied { completion }) => old(company)@.bench_refusal(
                person_id@,
                actor@,
            ) is None && !old(company)@.park_unreadable() && !old(company)@.park_breaks(person_id@)
                && (completion matches Some(key) && key.operation_id@ == old(company)@.bench_park(
                person_id@,
            ) && key.person_id@ == person_id@) && final(company)@ == old(company)@.park_prepared(
                person_id@,
                at@,
                actor@,
            ).benched(person_id@, at@, actor@),
            Err(e) => old(company)@.bench_refusal(person_id@, actor@) is None && final(company)@
                == old(company)@ && (if old(company)@.park_unreadable() {
                e == RowError::NoRows
            } else {
                old(company)@.park_breaks(person_id@) && e == RowError::Constraint
            }),
        },
{
    let home = match check_bench(company, person_id, actor) {
        Ok(home) => home,
        Err(reason) => {
            return Ok(BenchLifecycleOutcome::Refused { reason });
        },
    };
    if company.settings.is_none() || company_root(company).is_none() || !company.activity_ledger {
        return Err(RowError::NoRows);
    }
    let ready = company.ready_transition(person_id, TransitionAction::Park);
    if ready.is_none() && (company.open_transition(person_id).is_some() || company.next_taken(
        person_id,
        TransitionAction::Park,
    )) {
        return Err(RowError::Constraint);
    }
    let ghost before = company@;
    let operation_id = match ready {
        Some(id) => id,
        None => {
            let id = company.next_transition_id(person_id, TransitionAction::Park);
            let placement = match company.activity.get(person_id) {
                Some(row) => match &row.last_department_id {
                    Some(unit) => Some(unit.clone()),
                    None => Some(home),
                },
                None => Some(home),
            };
            let desired = company.desired(person_id);
            company.count_transition();
            company.upsert_desired(person_id, desired, Some(id.as_str()), at);
            let line = cat3("Bench '", person_id, "' after a bounded handoff.");
            let row = released(
                person_id,
                TransitionAction::Park,
                &placement,
                line.as_str(),
                at,
            );
            company.insert_transition(id.as_str(), row);
            id
        },
    };
    company.emit(at, actor);
    proof {
        assert(company@ == before.park_prepared(person_id@, at@, actor@));
        assert(company@.departments == before.departments);
        assert(company@.people == before.people);
    }
    match bench_person(company, person_id, at, actor) {
        Ok(BenchOutcome::Applied) => Ok(
            BenchLifecycleOutcome::Applied {
                completion: Some(
                    BenchCompletionKey { operation_id, person_id: owned(person_id) },
                ),
            },
        ),
        Ok(BenchOutcome::Refused { reason }) => Ok(BenchLifecycleOutcome::Refused { reason }),
        Err(e) => Err(e),
    }
}

} // verus!
