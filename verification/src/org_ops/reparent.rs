//! Hanging a department somewhere else.

use vstd::prelude::*;

use crate::company::{Company, CompanyModel};
use crate::org_ops::guards::{
    actor_out_of_scope, department_or_ancestor_is_paused, RowError,
};
use crate::org_ops::refusals::{ReparentOutcome, ReparentRefusal};
use crate::org_view::{beneath, is_beneath};
use crate::rows::chart::eligibility_view;
use crate::text::{owned, owned_opt, same, Text};

verus! {

impl CompanyModel {
    /// Why a unit does not come under another, if it does not. Both ends are
    /// asked for: who may not move it, and who may not move it there.
    pub open spec fn reparent_refusal(self, department: Text, parent: Text, actor: Text) -> Option<
        ReparentRefusal,
    > {
        if !self.departments.dom().contains(department) {
            Some(ReparentRefusal::UnknownDepartment)
        } else if self.departments[department].parent_id is None {
            Some(ReparentRefusal::ExecRootProtected)
        } else if !self.departments.dom().contains(parent) {
            Some(ReparentRefusal::UnknownNewParent)
        } else if self.stopped(parent) {
            Some(ReparentRefusal::NewParentPaused)
        } else if self.departments[department].parent_id == Some(parent) {
            Some(ReparentRefusal::AlreadyUnderParent)
        } else if beneath(self.org().departments, parent, department) {
            Some(ReparentRefusal::WouldCreateCycle)
        } else if self.out_of_scope(actor, department) {
            Some(ReparentRefusal::ActorOutOfScope)
        } else if self.out_of_scope(actor, parent) {
            Some(ReparentRefusal::NewParentOutOfScope)
        } else {
            None
        }
    }

    /// What a reparent makes of the rows.
    pub open spec fn reparented(self, department: Text, parent: Text, at: Text, actor: Text) -> CompanyModel {
        self.set_parent(department, parent, at).refresh_department_order(at).refresh_people_order(
            at,
        ).emitted(at, actor)
    }
}

/// Hang a unit, with everything beneath it, under another. Only the root never
/// moves.
pub fn reparent_department(
    company: &mut Company,
    department_id: &str,
    new_parent_id: &str,
    at: &str,
    actor: &str,
) -> (r: Result<ReparentOutcome, RowError>)
    requires
        old(company).wf(),
    ensures
        final(company).wf(),
        match r {
            Ok(ReparentOutcome::Refused { reason }) => old(company)@.reparent_refusal(
                department_id@,
                new_parent_id@,
                actor@,
            ) == Some(reason) && final(company)@ == old(company)@,
            Ok(ReparentOutcome::Applied { department_id: id }) => old(company)@.reparent_refusal(
                department_id@,
                new_parent_id@,
                actor@,
            ) is None && id@ == department_id@ && final(company)@ == old(company)@.reparented(
                department_id@,
                new_parent_id@,
                at@,
                actor@,
            ),
            Err(_) => false,
        },
{
    let current = match company.departments.get(department_id) {
        Some(row) => owned_opt(&row.parent_id),
        None => {
            return Ok(ReparentOutcome::Refused { reason: ReparentRefusal::UnknownDepartment });
        },
    };
    let current = match current {
        Some(parent) => parent,
        None => {
            return Ok(ReparentOutcome::Refused { reason: ReparentRefusal::ExecRootProtected });
        },
    };
    if !company.departments.has(new_parent_id) {
        return Ok(ReparentOutcome::Refused { reason: ReparentRefusal::UnknownNewParent });
    }
    if department_or_ancestor_is_paused(company, new_parent_id) {
        return Ok(ReparentOutcome::Refused { reason: ReparentRefusal::NewParentPaused });
    }
    if same(current.as_str(), new_parent_id) {
        return Ok(ReparentOutcome::Refused { reason: ReparentRefusal::AlreadyUnderParent });
    }
    let view = eligibility_view(company);
    if is_beneath(&view.departments, new_parent_id, department_id) {
        return Ok(ReparentOutcome::Refused { reason: ReparentRefusal::WouldCreateCycle });
    }
    if actor_out_of_scope(company, actor, department_id) {
        return Ok(ReparentOutcome::Refused { reason: ReparentRefusal::ActorOutOfScope });
    }
    if actor_out_of_scope(company, actor, new_parent_id) {
        return Ok(ReparentOutcome::Refused { reason: ReparentRefusal::NewParentOutOfScope });
    }
    company.set_parent(department_id, new_parent_id, at);
    company.refresh_department_order(at);
    company.refresh_people_order(at);
    company.emit(at, actor);
    Ok(ReparentOutcome::Applied { department_id: owned(department_id) })
}

} // verus!
