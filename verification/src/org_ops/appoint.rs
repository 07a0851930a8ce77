//! Giving a department another head.

use vstd::prelude::*;

use crate::company::{Company, CompanyModel, StaffingAction};
use crate::org_ops::guards::{
    actor_out_of_scope, department_is_company_root, person_heads_department_other_than,
    person_placement, RowError,
};
use crate::org_ops::refusals::{AppointOutcome, AppointRefusal};
use crate::organization::{EmploymentState, PersonKind};
use crate::text::{cat4, opt, same, Text};

verus! {

/// The staffing-history line of an appointment.
pub open spec fn appoint_line(successor: Text, department: Text) -> Text {
    "appointed "@ + successor + " to head "@ + department
}

impl CompanyModel {
    /// Why a unit does not get another head, if it does not.
    pub open spec fn appoint_refusal(
        self,
        department: Text,
        successor: Text,
        demote_to: Option<Text>,
        actor: Text,
    ) -> Option<AppointRefusal> {
        if !self.departments.dom().contains(department) {
            Some(AppointRefusal::UnknownDepartment)
        } else if self.company_root() == Some(department) {
            Some(AppointRefusal::RootHeadNotReassignable)
        } else if successor == self.departments[department].head_person_id {
            Some(AppointRefusal::AlreadySittingHead)
        } else if self.out_of_scope(actor, department) || (demote_to matches Some(d)
            && self.out_of_scope(actor, d)) {
            Some(AppointRefusal::ActorOutOfScope)
        } else if !self.people.dom().contains(successor) {
            Some(AppointRefusal::NotAMember)
        } else if self.people[successor].employment_state == EmploymentState::Departed {
            Some(AppointRefusal::DepartedSuccessor)
        } else if self.people[successor].department_id != department {
            Some(AppointRefusal::NotAMember)
        } else if self.heads_other_than(successor, department) {
            Some(AppointRefusal::AlreadyHeadsElsewhere)
        } else {
            None
        }
    }

    /// Whether the rows cannot take an appointment: the old head would come to
    /// a unit that is not there.
    pub open spec fn appoint_breaks(self, department: Text, demote_to: Option<Text>) -> bool {
        demote_to matches Some(d) && !self.departments.dom().contains(d)
            && self.people.dom().contains(self.departments[department].head_person_id)
    }

    /// What an appointment makes of the rows: the successor heads the unit, the
    /// old head is a worker, here or where they are sent. A move is a line of
    /// the staffing history of its own.
    pub open spec fn appointed(
        self,
        department: Text,
        successor: Text,
        demote_to: Option<Text>,
        at: Text,
        actor: Text,
    ) -> CompanyModel {
        let outgoing = self.departments[department].head_person_id;
        let reason = appoint_line(successor, department);
        let headed = self.set_department_head(department, successor, at).set_person_kind(
            successor,
            PersonKind::Head,
            at,
        ).set_person_kind(outgoing, PersonKind::Worker, at);
        let placed = (match demote_to {
            Some(d) => headed.move_person(outgoing, d, at),
            None => headed,
        }).append_staffing(
            successor,
            StaffingAction::AppointedHead,
            Some(department),
            Some(department),
            reason,
            at,
        ).append_staffing(
            outgoing,
            StaffingAction::SteppedDown,
            Some(department),
            Some(
                match demote_to {
                    Some(d) => d,
                    None => department,
                },
            ),
            reason,
            at,
        );
        (match demote_to {
            Some(d) => placed.append_staffing(
                outgoing,
                StaffingAction::Transferred,
                Some(department),
                Some(d),
                reason,
                at,
            ),
            None => placed,
        }).deduped().emitted(at, actor)
    }
}

/// Make a member of a department its head. The old head becomes a worker, and
/// comes to `demote_to_department_id` if one is given.
pub fn appoint_department_head(
    company: &mut Company,
    department_id: &str,
    successor_person_id: &str,
    demote_to_department_id: Option<&str>,
    at: &str,
    actor: &str,
) -> (r: Result<AppointOutcome, RowError>)
    requires
        old(company).wf(),
    ensures
        final(company).wf(),
        match r {
            Ok(AppointOutcome::Refused { reason }) => old(company)@.appoint_refusal(
                department_id@,
                successor_person_id@,
                opt(demote_to_department_id),
                actor@,
            ) == Some(reason) && final(company)@ == old(company)@,
            Ok(AppointOutcome::Applied) => old(company)@.appoint_refusal(
                department_id@,
                successor_person_id@,
                opt(demote_to_department_id),
                actor@,
            ) is None && !old(company)@.appoint_breaks(
                department_id@,
                opt(demote_to_department_id),
            ) && final(company)@ == old(company)@.appointed(
                department_id@,
                successor_person_id@,
                opt(demote_to_department_id),
                at@,
                actor@,
            ),
            Err(e) => old(company)@.appoint_refusal(
                department_id@,
                successor_person_id@,
                opt(demote_to_department_id),
                actor@,
            ) is None && old(company)@.appoint_breaks(
                department_id@,
                opt(demote_to_department_id),
            ) && e == RowError::Constraint && final(company)@ == old(company)@,
        },
{
    let outgoing = match company.departments.get(department_id) {
        Some(row) => row.head_person_id.clone(),
        None => {
            return Ok(AppointOutcome::Refused { reason: AppointRefusal::UnknownDepartment });
        },
    };
    let outgoing = outgoing.as_str();
    if department_is_company_root(company, department_id) {
        return Ok(AppointOutcome::Refused { reason: AppointRefusal::RootHeadNotReassignable });
    }
    if same(successor_person_id, outgoing) {
        return Ok(AppointOutcome::Refused { reason: AppointRefusal::AlreadySittingHead });
    }
    if actor_out_of_scope(company, actor, department_id) {
        return Ok(AppointOutcome::Refused { reason: AppointRefusal::ActorOutOfScope });
    }
    if let Some(demote_to) = demote_to_department_id {
        if actor_out_of_scope(company, actor, demote_to) {
            return Ok(AppointOutcome::Refused { reason: AppointRefusal::ActorOutOfScope });
        }
    }
    match person_placement(company, successor_person_id) {
        None => {
            return Ok(AppointOutcome::Refused { reason: AppointRefusal::NotAMember });
        },
        Some((employment, home)) => {
            if employment == EmploymentState::Departed {
                return Ok(AppointOutcome::Refused { reason: AppointRefusal::DepartedSuccessor });
            }
            if !same(home.as_str(), department_id) {
                return Ok(AppointOutcome::Refused { reason: AppointRefusal::NotAMember });
            }
        },
    }
    if person_heads_department_other_than(company, successor_person_id, department_id) {
        return Ok(AppointOutcome::Refused { reason: AppointRefusal::AlreadyHeadsElsewhere });
    }
    if let Some(demote_to) = demote_to_department_id {
        if !company.departments.has(demote_to) && company.people.has(outgoing) {
            return Err(RowError::Constraint);
        }
    }
    let reason = cat4("appointed ", successor_person_id, " to head ", department_id);
    let reason = reason.as_str();
    company.set_department_head(department_id, successor_person_id, at);
    company.set_person_kind(successor_person_id, PersonKind::Head, at);
    company.set_person_kind(outgoing, PersonKind::Worker, at);
    if let Some(demote_to) = demote_to_department_id {
        company.move_person(outgoing, demote_to, at);
    }
    company.append_staffing(
        successor_person_id,
        StaffingAction::AppointedHead,
        Some(department_id),
        Some(department_id),
        reason,
        at,
    );
    let landed = match demote_to_department_id {
        Some(demote_to) => demote_to,
        None => department_id,
    };
    company.append_staffing(
        outgoing,
        StaffingAction::SteppedDown,
        Some(department_id),
        Some(landed),
        reason,
        at,
    );
    if let Some(demote_to) = demote_to_department_id {
        company.append_staffing(
            outgoing,
            StaffingAction::Transferred,
            Some(department_id),
            Some(demote_to),
            reason,
            at,
        );
    }
    company.emit_once(at, actor);
    Ok(AppointOutcome::Applied)
}

} // verus!
