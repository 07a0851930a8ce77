//! Leaving the company: one person, a head with a successor, a whole unit.

use vstd::prelude::*;

use crate::company::{Company, CompanyModel, Entity, EventOp, StaffingAction, TransitionAction};
use crate::org_ops::guards::{
    actor_out_of_scope, authored_ledger_line, is_ceo, ledger_line,
    person_heads_department_other_than, person_placement, RowError,
};
use crate::org_ops::refusals::{
    direct_refusal, DirectOutcome, OffboardOutcome, OffboardRefusal, RemoveDepartmentOutcome,
};
use crate::org_ops::vacancy::department_headed_by;
use crate::organization::{EmploymentState, PersonKind};
use crate::rows::ledger::{awaiting, awaiting_transition, deadline_after, handoff_deadline};
use crate::rows::ordering::lemma_people_in;
use crate::text::{cat2, cat3, opt, owned_opt, same, seen, Text};

verus! {

// ---------------------------------------------------------------------------
// What a departure is
// ---------------------------------------------------------------------------

impl CompanyModel {
    /// Somebody has left the company: not wanted up, departed, at rest in a
    /// unit, and in the staffing history as gone from the unit they left. Their
    /// row stays.
    pub open spec fn departed(
        self,
        person: Text,
        rests: Text,
        left: Text,
        under: Option<Text>,
        reason: Text,
        at: Text,
    ) -> CompanyModel {
        self.upsert_desired(person, false, under, at).set_employment_state(
            person,
            EmploymentState::Departed,
            at,
        ).move_person(person, rests, at).append_staffing(
            person,
            StaffingAction::Offboarded,
            Some(left),
            None,
            reason,
            at,
        )
    }
}

/// Write that somebody has left the company. The one place that does, for a
/// departure with a handoff and for one without.
fn depart_person_rows(
    company: &mut Company,
    person_id: &str,
    department_id: &str,
    from_department_id: &str,
    active_transition_id: Option<&str>,
    reason: &str,
    at: &str,
)
    requires
        old(company).wf(),
    ensures
        final(company).wf(),
        final(company)@ == old(company)@.departed(
            person_id@,
            department_id@,
            from_department_id@,
            opt(active_transition_id),
            reason@,
            at@,
        ),
{
    company.upsert_desired(person_id, false, active_transition_id, at);
    company.set_employment_state(person_id, EmploymentState::Departed, at);
    company.move_person(person_id, department_id, at);
    company.append_staffing(
        person_id,
        StaffingAction::Offboarded,
        Some(from_department_id),
        None,
        reason,
        at,
    );
}

// ---------------------------------------------------------------------------
// One person
// ---------------------------------------------------------------------------

/// What a transition that an offboard cuts short says.
pub open spec fn offboard_marker(person: Text) -> Text {
    "superseded-by-offboard:"@ + person
}

impl CompanyModel {
    /// Why somebody is not offboarded, if they are not.
    pub open spec fn offboard_refusal(self, person: Text, actor: Text) -> Option<OffboardRefusal> {
        if self.is_ceo(person) {
            Some(OffboardRefusal::ExecRootProtected)
        } else if !self.people.dom().contains(person) {
            Some(OffboardRefusal::UnknownPerson)
        } else if self.people[person].employment_state == EmploymentState::Departed {
            Some(OffboardRefusal::AlreadyDeparted)
        } else if self.out_of_scope(actor, self.people[person].department_id) {
            Some(OffboardRefusal::ActorOutOfScope)
        } else if self.people[person].kind == PersonKind::Head {
            Some(OffboardRefusal::HeadNeedsSuccessor)
        } else {
            None
        }
    }

    /// Whether the rows cannot take an offboard: the transition it needs has an
    /// id that is taken.
    pub open spec fn offboard_breaks(self, person: Text) -> bool {
        self.ready_transition(person, TransitionAction::Offboard) is None && self.next_taken(
            person,
            TransitionAction::Offboard,
        )
    }

    /// What an offboard makes of the rows. A transition that waits, released,
    /// for this very offboard is adopted; else any open one gives way to one
    /// that waits for the person's handoff. The start decision stays: they have
    /// to run to hand off.
    pub open spec fn offboarded(self, person: Text, at: Text, actor: Text) -> CompanyModel {
        let home = self.people[person].department_id;
        let reason = ledger_line("offboarded"@, actor);
        (match self.ready_transition(person, TransitionAction::Offboard) {
            Some(id) => self.departed(person, home, home, Some(id), reason, at),
            None => {
                let id = self.next_transition_id(person, TransitionAction::Offboard);
                self.counted().supersede_open_transition(
                    person,
                    offboard_marker(person),
                    at,
                ).insert_transition(
                    id,
                    awaiting_transition(
                        person,
                        TransitionAction::Offboard,
                        home,
                        reason,
                        at,
                        handoff_deadline(at),
                    ),
                ).departed(person, home, home, Some(id), reason, at)
            },
        }).deduped().emitted(at, actor)
    }
}

/// Offboard somebody: a departure, not a park. A head needs a successor first;
/// see [`replace_head_and_offboard`].
pub fn offboard_person(company: &mut Company, person_id: &str, at: &str, actor: &str) -> (r: Result<
    OffboardOutcome,
    RowError,
>)
    requires
        old(company).wf(),
        old(company)@.transition_seq < u64::MAX,
    ensures
        final(company).wf(),
        match r {
            Ok(OffboardOutcome::Refused { reason }) => old(company)@.offboard_refusal(
                person_id@,
                actor@,
            ) == Some(reason) && final(company)@ == old(company)@,
            Ok(OffboardOutcome::Applied) => old(company)@.offboard_refusal(person_id@, actor@)
                is None && !old(company)@.offboard_breaks(person_id@) && final(company)@
                == old(company)@.offboarded(person_id@, at@, actor@),
            Err(e) => old(company)@.offboard_refusal(person_id@, actor@) is None
                && old(company)@.offboard_breaks(person_id@) && e == RowError::Constraint
                && final(company)@ == old(company)@,
        },
{
    if is_ceo(company, person_id) {
        return Ok(OffboardOutcome::Refused { reason: OffboardRefusal::ExecRootProtected });
    }
    let (employment, home, kind) = match company.people.get(person_id) {
        Some(row) => (row.employment_state, row.department_id.clone(), row.kind),
        None => {
            return Ok(OffboardOutcome::Refused { reason: OffboardRefusal::UnknownPerson });
        },
    };
    if employment == EmploymentState::Departed {
        return Ok(OffboardOutcome::Refused { reason: OffboardRefusal::AlreadyDeparted });
    }
    if actor_out_of_scope(company, actor, home.as_str()) {
        return Ok(OffboardOutcome::Refused { reason: OffboardRefusal::ActorOutOfScope });
    }
    if kind == PersonKind::Head {
        return Ok(OffboardOutcome::Refused { reason: OffboardRefusal::HeadNeedsSuccessor });
    }
    let reason = authored_ledger_line("offboarded", actor);
    let transition = match company.ready_transition(person_id, TransitionAction::Offboard) {
        Some(id) => id,
        None => {
            if company.next_taken(person_id, TransitionAction::Offboard) {
                return Err(RowError::Constraint);
            }
            let id = company.next_transition_id(person_id, TransitionAction::Offboard);
            company.count_transition();
            let marker = cat2("superseded-by-offboard:", person_id);
            company.supersede_open_transition(person_id, marker.as_str(), at);
            let deadline = deadline_after(at);
            let row = awaiting(
                person_id,
                TransitionAction::Offboard,
                home.as_str(),
                reason.as_str(),
                at,
                deadline.as_str(),
            );
            company.insert_transition(id.as_str(), row);
            id
        },
    };
    depart_person_rows(
        company,
        person_id,
        home.as_str(),
        home.as_str(),
        Some(transition.as_str()),
        reason.as_str(),
        at,
    );
    company.emit_once(at, actor);
    Ok(OffboardOutcome::Applied)
}

// ---------------------------------------------------------------------------
// A head
// ---------------------------------------------------------------------------

impl CompanyModel {
    /// Why a head is not replaced, if they are not: the code and a line for
    /// people.
    pub open spec fn replace_refusal(self, head: Text, successor: Text, actor: Text) -> Option<
        (Text, Text),
    > {
        if head == successor {
            Some(("same-successor"@, "name a different successor"@))
        } else if self.is_ceo(head) {
            Some(
                (
                    "exec-root-protected"@,
                    "the CEO always heads the company root and is never replaced here"@,
                ),
            )
        } else {
            match self.headed_by(head) {
                None => Some(
                    ("not-a-department-head"@, "the person does not head a department"@),
                ),
                Some(unit) => {
                    if self.out_of_scope(actor, unit) {
                        Some(
                            (
                                "actor-out-of-scope"@,
                                "the actor does not manage the department whose head they are replacing"@,
                            ),
                        )
                    } else if !self.people.dom().contains(successor) {
                        Some(("unknown-successor"@, "no such successor"@))
                    } else if self.people[successor].employment_state
                        == EmploymentState::Departed {
                        Some(("departed-successor"@, "the successor has departed"@))
                    } else if self.people[successor].department_id != unit {
                        Some(
                            (
                                "not-a-member"@,
                                "the successor must be an active member of that department"@,
                            ),
                        )
                    } else if self.heads_other_than(successor, unit) {
                        Some(
                            (
                                "already-heads-elsewhere"@,
                                "the successor already heads another department"@,
                            ),
                        )
                    } else if !self.people.dom().contains(head) {
                        Some(("unknown-person"@, "no such head"@))
                    } else {
                        None
                    }
                },
            }
        }
    }

    /// What becomes of the rows when somebody's open transition gives way and
    /// that is noted later.
    pub open spec fn superseded_row(self, person: Text, marker: Text, at: Text) -> CompanyModel {
        match self.open_transition(person) {
            Some(id) => self.release_pointer(person, id, at).cancel_row(id, marker, at),
            None => self,
        }
    }

    /// What replacing a head makes of the rows: the successor heads the unit,
    /// and the old head departs, with a transition that waits for their
    /// handoff. The unit is never without a head.
    pub open spec fn head_replaced(
        self,
        head: Text,
        successor: Text,
        at: Text,
        actor: Text,
    ) -> CompanyModel {
        let unit = self.headed_by(head)->0;
        let home = self.people[head].department_id;
        let reason = ledger_line("head replaced"@, actor);
        let id = self.next_transition_id(head, TransitionAction::Offboard);
        let replaced = self.superseded_row(head, offboard_marker(head), at).counted()
            .set_department_head(unit, successor, at).set_person_kind(
            successor,
            PersonKind::Head,
            at,
        ).set_person_kind(head, PersonKind::Worker, at).set_employment_state(
            head,
            EmploymentState::Departed,
            at,
        ).move_person(head, home, at).insert_transition(
            id,
            awaiting_transition(
                head,
                TransitionAction::Offboard,
                home,
                "offboarded "@ + head,
                at,
                handoff_deadline(at),
            ),
        ).upsert_desired(head, false, Some(id), at);
        (match self.open_transition(head) {
            Some(old_id) => replaced.touch(Entity::Transition, old_id, EventOp::Upsert),
            None => replaced,
        }).append_staffing(
            successor,
            StaffingAction::AppointedHead,
            Some(unit),
            Some(unit),
            reason,
            at,
        ).append_staffing(
            head,
            StaffingAction::SteppedDown,
            Some(unit),
            Some(home),
            reason,
            at,
        ).append_staffing(
            head,
            StaffingAction::Offboarded,
            Some(home),
            None,
            reason,
            at,
        ).deduped().emitted(at, actor)
    }
}

/// Replace the head of a unit and offboard them, in one decision.
pub fn replace_head_and_offboard(
    company: &mut Company,
    head_person_id: &str,
    successor_person_id: &str,
    at: &str,
    actor: &str,
) -> (r: Result<DirectOutcome, RowError>)
    requires
        old(company).wf(),
        old(company)@.transition_seq < u64::MAX,
    ensures
        final(company).wf(),
        match r {
            Ok(DirectOutcome::Refused { code, detail }) => old(company)@.replace_refusal(
                head_person_id@,
                successor_person_id@,
                actor@,
            ) == Some((code@, detail@)) && final(company)@ == old(company)@,
            Ok(DirectOutcome::Applied) => old(company)@.replace_refusal(
                head_person_id@,
                successor_person_id@,
                actor@,
            ) is None && !old(company)@.next_taken(head_person_id@, TransitionAction::Offboard)
                && final(company)@ == old(company)@.head_replaced(
                head_person_id@,
                successor_person_id@,
                at@,
                actor@,
            ),
            Err(e) => old(company)@.replace_refusal(
                head_person_id@,
                successor_person_id@,
                actor@,
            ) is None && old(company)@.next_taken(head_person_id@, TransitionAction::Offboard) && e
                == RowError::Constraint && final(company)@ == old(company)@,
        },
{
    if same(head_person_id, successor_person_id) {
        return Ok(direct_refusal("same-successor", "name a different successor"));
    }
    if is_ceo(company, head_person_id) {
        return Ok(direct_refusal(
            "exec-root-protected",
            "the CEO always heads the company root and is never replaced here",
        ));
    }
    let unit = match department_headed_by(company, head_person_id) {
        Some(unit) => unit,
        None => {
            return Ok(direct_refusal("not-a-department-head", "the person does not head a department"));
        },
    };
    let unit = unit.as_str();
    if actor_out_of_scope(company, actor, unit) {
        return Ok(direct_refusal(
            "actor-out-of-scope",
            "the actor does not manage the department whose head they are replacing",
        ));
    }
    match person_placement(company, successor_person_id) {
        None => {
            return Ok(direct_refusal("unknown-successor", "no such successor"));
        },
        Some((employment, home)) => {
            if employment == EmploymentState::Departed {
                return Ok(direct_refusal("departed-successor", "the successor has departed"));
            }
            if !same(home.as_str(), unit) {
                return Ok(direct_refusal(
                    "not-a-member",
                    "the successor must be an active member of that department",
                ));
            }
        },
    }
    if person_heads_department_other_than(company, successor_person_id, unit) {
        return Ok(direct_refusal(
            "already-heads-elsewhere",
            "the successor already heads another department",
        ));
    }
    let home = match person_placement(company, head_person_id) {
        Some((_, home)) => home,
        None => {
            return Ok(direct_refusal("unknown-person", "no such head"));
        },
    };
    let home = home.as_str();
    if company.next_taken(head_person_id, TransitionAction::Offboard) {
        return Err(RowError::Constraint);
    }
    let reason = authored_ledger_line("head replaced", actor);
    let reason = reason.as_str();
    let id = company.next_transition_id(head_person_id, TransitionAction::Offboard);
    let superseded = company.open_transition(head_person_id);
    let marker = cat2("superseded-by-offboard:", head_person_id);
    if let Some(open) = &superseded {
        company.release_pointer(head_person_id, open.as_str(), at);
        company.cancel_row(open.as_str(), marker.as_str(), at);
    }
    company.count_transition();
    company.set_department_head(unit, successor_person_id, at);
    company.set_person_kind(successor_person_id, PersonKind::Head, at);
    company.set_person_kind(head_person_id, PersonKind::Worker, at);
    company.set_employment_state(head_person_id, EmploymentState::Departed, at);
    company.move_person(head_person_id, home, at);
    let deadline = deadline_after(at);
    let line = cat2("offboarded ", head_person_id);
    let row = awaiting(
        head_person_id,
        TransitionAction::Offboard,
        home,
        line.as_str(),
        at,
        deadline.as_str(),
    );
    company.insert_transition(id.as_str(), row);
    company.upsert_desired(head_person_id, false, Some(id.as_str()), at);
    if let Some(open) = &superseded {
        company.touch(Entity::Transition, open.as_str(), EventOp::Upsert);
    }
    company.append_staffing(
        successor_person_id,
        StaffingAction::AppointedHead,
        Some(unit),
        Some(unit),
        reason,
        at,
    );
    company.append_staffing(
        head_person_id,
        StaffingAction::SteppedDown,
        Some(unit),
        Some(home),
        reason,
        at,
    );
    company.append_staffing(
        head_person_id,
        StaffingAction::Offboarded,
        Some(home),
        None,
        reason,
        at,
    );
    company.emit_once(at, actor);
    Ok(DirectOutcome::Applied)
}

// ---------------------------------------------------------------------------
// A unit and everything beneath it
// ---------------------------------------------------------------------------

impl CompanyModel {
    /// Why a unit is not removed, if it is not: the code and a line for people.
    pub open spec fn remove_refusal(self, department: Text, actor: Text) -> Option<(Text, Text)> {
        if !self.departments.dom().contains(department) {
            Some(("unknown-department"@, "no such department"@))
        } else if self.out_of_scope(actor, department) {
            Some(
                (
                    "actor-out-of-scope"@,
                    "the actor does not manage the department they are removing"@,
                ),
            )
        } else if self.departments[department].parent_id is None {
            Some(
                (
                    "root-department-protected"@,
                    "remove the company instead of its executive root"@,
                ),
            )
        } else {
            None
        }
    }

    /// Somebody leaves with the unit they are in. Nobody is left to hand off
    /// to, so their start decision and any open transition go at once; a head
    /// of a unit that is no more is no head.
    pub open spec fn left_behind(self, person: Text, rests: Text, reason: Text, at: Text) -> CompanyModel {
        let home = self.people[person].department_id;
        let freed = self.delete_fence(person).supersede_open_transition(
            person,
            "superseded-by-department-removal:"@ + home,
            at,
        );
        (if self.people[person].kind == PersonKind::Head {
            freed.set_person_kind(person, PersonKind::Worker, at)
        } else {
            freed
        }).departed(person, rests, home, None, reason, at)
    }

    /// These people leave, one after the other.
    pub open spec fn left_behind_all(
        self,
        people: Seq<Text>,
        rests: Text,
        reason: Text,
        at: Text,
    ) -> CompanyModel
        decreases people.len(),
    {
        if people.len() == 0 {
            self
        } else {
            self.left_behind_all(people.drop_last(), rests, reason, at).left_behind(
                people.last(),
                rests,
                reason,
                at,
            )
        }
    }

    /// These units go, one after the other.
    pub open spec fn delete_departments(self, departments: Seq<Text>) -> CompanyModel
        decreases departments.len(),
    {
        if departments.len() == 0 {
            self
        } else {
            self.delete_departments(departments.drop_last()).delete_department(
                departments.last(),
            )
        }
    }

    /// What removing a unit makes of the rows: everybody in it or beneath it
    /// departs, to rest in its parent; it and what hangs beneath it goes, the
    /// deepest first; everything has its place again.
    pub open spec fn department_removed(self, department: Text, at: Text, actor: Text) -> CompanyModel {
        let units = self.subtree_descending(department);
        self.left_behind_all(
            self.people_in(units),
            self.departments[department].parent_id->0,
            "department "@ + department + " removed"@,
            at,
        ).delete_departments(units).refresh_department_order(at).refresh_people_order(
            at,
        ).deduped().emitted(at, actor)
    }
}

fn leave_behind(company: &mut Company, person_id: &str, rests: &str, reason: &str, at: &str)
    requires
        old(company).wf(),
        old(company)@.people.dom().contains(person_id@),
    ensures
        final(company).wf(),
        final(company)@ == old(company)@.left_behind(person_id@, rests@, reason@, at@),
        forall|p: Text|
            old(company)@.people.dom().contains(p)
                ==> #[trigger] final(company)@.people.dom().contains(p),
{
    if let Some(row) = company.people.get(person_id) {
        let home = row.department_id.clone();
        let head = row.kind == PersonKind::Head;
        company.delete_fence(person_id);
        let marker = cat2("superseded-by-department-removal:", home.as_str());
        company.supersede_open_transition(person_id, marker.as_str(), at);
        if head {
            company.set_person_kind(person_id, PersonKind::Worker, at);
        }
        depart_person_rows(company, person_id, rests, home.as_str(), None, reason, at);
    }
}

fn leave_behind_all(
    company: &mut Company,
    people: &Vec<String>,
    rests: &str,
    reason: &str,
    at: &str,
)
    requires
        old(company).wf(),
        forall|i: int|
            0 <= i < people@.len() ==> old(company)@.people.dom().contains(
                #[trigger] seen(people@)[i],
            ),
    ensures
        final(company).wf(),
        final(company)@ == old(company)@.left_behind_all(seen(people@), rests@, reason@, at@),
{
    let ghost q = seen(people@);
    let mut i: usize = 0;
    while i < people.len()
        invariant
            i <= people@.len(),
            q == seen(people@),
            company.wf(),
            forall|j: int|
                0 <= j < people@.len() ==> company@.people.dom().contains(#[trigger] q[j]),
            company@ == old(company)@.left_behind_all(q.take(i as int), rests@, reason@, at@),
        decreases people@.len() - i,
    {
        proof {
            assert(q.take(i + 1).drop_last() =~= q.take(i as int));
            assert(q.take(i + 1).last() == people@[i as int]@);
            assert(q[i as int] == people@[i as int]@);
        }
        leave_behind(company, people[i].as_str(), rests, reason, at);
        i = i + 1;
    }
    proof {
        assert(q.take(i as int) =~= q);
    }
}

fn delete_departments(company: &mut Company, departments: &Vec<String>)
    requires
        old(company).wf(),
    ensures
        final(company).wf(),
        final(company)@ == old(company)@.delete_departments(seen(departments@)),
{
    let ghost q = seen(departments@);
    let mut i: usize = 0;
    while i < departments.len()
        invariant
            i <= departments@.len(),
            q == seen(departments@),
            company.wf(),
            company@ == old(company)@.delete_departments(q.take(i as int)),
        decreases departments@.len() - i,
    {
        proof {
            assert(q.take(i + 1).drop_last() =~= q.take(i as int));
            assert(q.take(i + 1).last() == departments@[i as int]@);
        }
        company.delete_department(departments[i].as_str());
        i = i + 1;
    }
    proof {
        assert(q.take(i as int) =~= q);
    }
}

/// Remove a unit and everything beneath it, and offboard everybody there. Units
/// are deleted; people never are.
pub fn remove_department_tree(company: &mut Company, department_id: &str, at: &str, actor: &str) -> (r:
    Result<RemoveDepartmentOutcome, RowError>)
    requires
        old(company).wf(),
    ensures
        final(company).wf(),
        match r {
            Ok(RemoveDepartmentOutcome::Refused { code, detail }) => old(company)@.remove_refusal(
                department_id@,
                actor@,
            ) == Some((code@, detail@)) && final(company)@ == old(company)@,
            Ok(
                RemoveDepartmentOutcome::Applied { removed_department_ids, departed_person_ids },
            ) => old(company)@.remove_refusal(department_id@, actor@) is None && seen(
                removed_department_ids@,
            ) == old(company)@.subtree_descending(department_id@) && seen(departed_person_ids@)
                == old(company)@.people_in(old(company)@.subtree_descending(department_id@))
                && final(company)@ == old(company)@.department_removed(
                department_id@,
                at@,
                actor@,
            ),
            Err(_) => false,
        },
{
    let parent = match company.departments.get(department_id) {
        Some(row) => owned_opt(&row.parent_id),
        None => {
            return Ok(
                RemoveDepartmentOutcome::Refused {
                    code: "unknown-department",
                    detail: "no such department",
                },
            );
        },
    };
    if actor_out_of_scope(company, actor, department_id) {
        return Ok(
            RemoveDepartmentOutcome::Refused {
                code: "actor-out-of-scope",
                detail: "the actor does not manage the department they are removing",
            },
        );
    }
    let parent = match parent {
        Some(parent) => parent,
        None => {
            return Ok(
                RemoveDepartmentOutcome::Refused {
                    code: "root-department-protected",
                    detail: "remove the company instead of its executive root",
                },
            );
        },
    };
    let removed_department_ids = company.subtree_descending(department_id);
    let departed_person_ids = company.people_in(&removed_department_ids);
    proof {
        lemma_people_in(company, seen(removed_department_ids@));
        assert forall|i: int| 0 <= i < departed_person_ids@.len() implies company@.people.dom().contains(
        #[trigger] seen(departed_person_ids@)[i]) by {
            assert(seen(departed_person_ids@).contains(seen(departed_person_ids@)[i]));
        }
    }
    let reason = cat3("department ", department_id, " removed");
    leave_behind_all(company, &departed_person_ids, parent.as_str(), reason.as_str(), at);
    delete_departments(company, &removed_department_ids);
    company.refresh_department_order(at);
    company.refresh_people_order(at);
    company.emit_once(at, actor);
    Ok(RemoveDepartmentOutcome::Applied { removed_department_ids, departed_person_ids })
}

} // verus!
