//! Moving people between units.

use vstd::prelude::*;

use crate::company::{Company, CompanyModel, StaffingAction, TransitionAction};
use crate::org_ops::decisions::{HeadMoveModel, HeadMoveRule, HeadVacancy, HeadVacancyModel};
use crate::org_ops::guards::{
    actor_out_of_scope, actor_out_of_scope_for_person, authored_ledger_line,
    department_or_ancestor_is_paused, is_ceo, ledger_line, RowError,
};
use crate::org_ops::refusals::{TransferOutcome, TransferRefusal, TransferRefusalModel};
use crate::org_ops::vacancy::{department_headed_by, vacancy_breaks, vacate_headship};
use crate::org_projection::{check_head_vacancy, vacancy_refusal};
use crate::organization::{EmploymentState, PersonKind};
use crate::rows::chart::eligibility_view;
use crate::text::{cat2, opt, owned, owned_slice, same, seen, Text};

verus! {

// ---------------------------------------------------------------------------
// May they move?
// ---------------------------------------------------------------------------

impl CompanyModel {
    /// Why nobody may come to a unit, if nobody may.
    pub open spec fn destination_refusal(self, destination: Text) -> Option<TransferRefusalModel> {
        if !self.departments.dom().contains(destination) {
            Some(TransferRefusalModel::UnknownDestination)
        } else if self.stopped(destination) {
            Some(TransferRefusalModel::DestinationPaused)
        } else {
            None
        }
    }

    /// Why somebody may not move, if they may not: they are not there, not at
    /// home where they should be, the CEO, departed, a head whose unit the rule
    /// does not let go of, or somebody who heads nothing and comes with a
    /// decision about it.
    pub open spec fn mover_refusal(
        self,
        person: Text,
        home: Option<Text>,
        missing_is_not_a_member: bool,
        rule: HeadMoveModel,
    ) -> Option<TransferRefusalModel> {
        if !self.people.dom().contains(person) {
            Some(
                if missing_is_not_a_member {
                    TransferRefusalModel::NotAMember
                } else {
                    TransferRefusalModel::UnknownPerson
                },
            )
        } else {
            let department = self.people[person].department_id;
            if (home matches Some(source) && department != source) {
                Some(TransferRefusalModel::NotAMember)
            } else if self.is_ceo(person) {
                Some(TransferRefusalModel::ExecRootProtected)
            } else if self.people[person].employment_state == EmploymentState::Departed {
                Some(TransferRefusalModel::PersonDeparted)
            } else {
                match rule {
                    HeadMoveModel::Refuse => if self.departments.dom().contains(department)
                        && self.departments[department].head_person_id == person {
                        Some(TransferRefusalModel::HeadNeedsSuccessor)
                    } else {
                        None
                    },
                    HeadMoveModel::Vacates(decision) => match vacancy_refusal(
                        self.org(),
                        self.headed_by(person),
                        person,
                        decision,
                    ) {
                        Some(e) => Some(TransferRefusalModel::HeadVacancy(e)),
                        None => None,
                    },
                }
            }
        }
    }

    /// Why a set of people from place `i` on may not move, if they may not: the
    /// first refusal stands for all.
    pub open spec fn batch_refusal(self, people: Seq<Text>, home: Text, i: int) -> Option<
        TransferRefusalModel,
    >
        decreases people.len() - i,
    {
        if i < 0 || i >= people.len() {
            None
        } else {
            match self.mover_refusal(people[i], Some(home), true, HeadMoveModel::Refuse) {
                Some(e) => Some(e),
                None => self.batch_refusal(people, home, i + 1),
            }
        }
    }

    /// Why a transfer is refused, if it is.
    pub open spec fn transfer_refusal(
        self,
        person: Text,
        destination: Text,
        actor: Text,
        vacates: Option<HeadVacancyModel>,
    ) -> Option<TransferRefusalModel> {
        if self.destination_refusal(destination) is Some {
            self.destination_refusal(destination)
        } else if self.mover_refusal(person, None, false, HeadMoveModel::Vacates(vacates))
            is Some {
            self.mover_refusal(person, None, false, HeadMoveModel::Vacates(vacates))
        } else if self.out_of_scope_for(actor, person) || self.out_of_scope(actor, destination) {
            Some(TransferRefusalModel::ActorOutOfScope)
        } else {
            None
        }
    }

    /// Whom a member move is about: those named, or everybody employed in the
    /// unit but its head.
    pub open spec fn batch(self, from: Text, named: Seq<Text>) -> Seq<Text> {
        if named.len() == 0 {
            self.ordinary_members(from)
        } else {
            named
        }
    }

    /// Why a member move is refused, if it is.
    pub open spec fn move_refusal(
        self,
        from: Text,
        destination: Text,
        people: Seq<Text>,
        actor: Text,
    ) -> Option<TransferRefusalModel> {
        if self.destination_refusal(destination) is Some {
            self.destination_refusal(destination)
        } else if self.batch_refusal(people, from, 0) is Some {
            self.batch_refusal(people, from, 0)
        } else if self.out_of_scope(actor, from) || self.out_of_scope(actor, destination) {
            Some(TransferRefusalModel::ActorOutOfScope)
        } else {
            None
        }
    }
}

/// Whether anybody may come to a unit.
fn validate_destination(company: &Company, destination_id: &str) -> (r: Result<
    (),
    TransferRefusal,
>)
    requires
        company.wf(),
    ensures
        match r {
            Ok(()) => company@.destination_refusal(destination_id@) is None,
            Err(e) => company@.destination_refusal(destination_id@) == Some(e@),
        },
{
    if !company.departments.has(destination_id) {
        return Err(TransferRefusal::UnknownDestination);
    }
    if department_or_ancestor_is_paused(company, destination_id) {
        return Err(TransferRefusal::DestinationPaused);
    }
    Ok(())
}

/// Whether somebody may move.
fn validate_mover(
    company: &Company,
    person_id: &str,
    require_home: Option<&str>,
    missing_is_not_a_member: bool,
    head_rule: HeadMoveRule<'_>,
) -> (r: Result<(), TransferRefusal>)
    requires
        company.wf(),
    ensures
        match r {
            Ok(()) => company@.mover_refusal(
                person_id@,
                opt(require_home),
                missing_is_not_a_member,
                head_rule@,
            ) is None,
            Err(e) => company@.mover_refusal(
                person_id@,
                opt(require_home),
                missing_is_not_a_member,
                head_rule@,
            ) == Some(e@),
        },
{
    let row = match company.people.get(person_id) {
        Some(row) => row,
        None => {
            return Err(
                if missing_is_not_a_member {
                    TransferRefusal::NotAMember
                } else {
                    TransferRefusal::UnknownPerson
                },
            );
        },
    };
    let department = row.department_id.as_str();
    if let Some(source) = require_home {
        if !same(department, source) {
            return Err(TransferRefusal::NotAMember);
        }
    }
    if is_ceo(company, person_id) {
        return Err(TransferRefusal::ExecRootProtected);
    }
    if row.employment_state == EmploymentState::Departed {
        return Err(TransferRefusal::PersonDeparted);
    }
    match head_rule {
        HeadMoveRule::Refuse => {
            if company.heads(person_id, department) {
                return Err(TransferRefusal::HeadNeedsSuccessor);
            }
        },
        HeadMoveRule::Vacates(decision) => {
            let view = eligibility_view(company);
            let headed = department_headed_by(company, person_id);
            let heads_now = match &headed {
                Some(unit) => Some(unit.as_str()),
                None => None,
            };
            match check_head_vacancy(&view, heads_now, person_id, decision) {
                Ok(()) => {},
                Err(e) => {
                    return Err(TransferRefusal::HeadVacancy(e));
                },
            }
        },
    }
    Ok(())
}

// ---------------------------------------------------------------------------
// Moving
// ---------------------------------------------------------------------------

/// What a transition a transfer cuts short says.
pub open spec fn transfer_marker(intent: Text) -> Text {
    "superseded-by-transfer:"@ + intent
}

impl CompanyModel {
    /// Somebody comes to a unit, and their open transition gives way; one that
    /// waits, released, for this very transfer does not, if it is adopted.
    pub open spec fn move_one(
        self,
        person: Text,
        destination: Text,
        intent: Text,
        reason: Text,
        adopt: bool,
        at: Text,
    ) -> CompanyModel {
        let from = if self.people.dom().contains(person) {
            Some(self.people[person].department_id)
        } else {
            None
        };
        (if adopt && self.ready_transition(person, TransitionAction::Transfer) is Some {
            self
        } else {
            self.supersede_open_transition(person, transfer_marker(intent), at)
        }).move_person(person, destination, at).append_staffing(
            person,
            StaffingAction::Transferred,
            from,
            Some(destination),
            reason,
            at,
        )
    }

    /// These people come to a unit, one after the other.
    pub open spec fn move_all(
        self,
        people: Seq<Text>,
        destination: Text,
        intent: Text,
        reason: Text,
        adopt: bool,
        at: Text,
    ) -> CompanyModel
        decreases people.len(),
    {
        if people.len() == 0 {
            self
        } else {
            self.move_all(people.drop_last(), destination, intent, reason, adopt, at).move_one(
                people.last(),
                destination,
                intent,
                reason,
                adopt,
                at,
            )
        }
    }

    /// What a transfer makes of the rows. A head who leaves their unit heads
    /// nothing once they land.
    pub open spec fn transferred(
        self,
        person: Text,
        destination: Text,
        intent: Text,
        at: Text,
        actor: Text,
        vacates: Option<HeadVacancyModel>,
    ) -> CompanyModel {
        let reason = ledger_line("transferred"@, actor);
        let moved = self.move_all(seq![person], destination, intent, reason, true, at)
            .refresh_people_order(at);
        (match vacates {
            Some(decision) => moved.vacated(person, decision, reason, at).set_person_kind(
                person,
                PersonKind::Worker,
                at,
            ),
            None => moved,
        }).deduped().emitted(at, actor)
    }

    /// What a member move makes of the rows.
    pub open spec fn members_moved(
        self,
        people: Seq<Text>,
        destination: Text,
        intent: Text,
        at: Text,
        actor: Text,
    ) -> CompanyModel {
        self.move_all(people, destination, intent, intent, false, at).refresh_people_order(
            at,
        ).emitted(at, actor)
    }
}

fn move_one(
    company: &mut Company,
    person_id: &str,
    destination_id: &str,
    intent: &str,
    reason: &str,
    adopt: bool,
    at: &str,
)
    requires
        old(company).wf(),
    ensures
        final(company).wf(),
        final(company)@ == old(company)@.move_one(
            person_id@,
            destination_id@,
            intent@,
            reason@,
            adopt,
            at@,
        ),
{
    let from = match company.people.get(person_id) {
        Some(row) => Some(row.department_id.clone()),
        None => None,
    };
    let adopted = adopt && company.ready_transition(
        person_id,
        TransitionAction::Transfer,
    ).is_some();
    if !adopted {
        let marker = cat2("superseded-by-transfer:", intent);
        company.supersede_open_transition(person_id, marker.as_str(), at);
    }
    company.move_person(person_id, destination_id, at);
    let from = match &from {
        Some(unit) => Some(unit.as_str()),
        None => None,
    };
    company.append_staffing(
        person_id,
        StaffingAction::Transferred,
        from,
        Some(destination_id),
        reason,
        at,
    );
}

/// Bring people to a unit and give everybody their places again.
fn move_touches(
    company: &mut Company,
    destination_id: &str,
    movers: &Vec<String>,
    intent: &str,
    reason: &str,
    adopt: bool,
    at: &str,
)
    requires
        old(company).wf(),
    ensures
        final(company).wf(),
        final(company)@ == old(company)@.move_all(
            seen(movers@),
            destination_id@,
            intent@,
            reason@,
            adopt,
            at@,
        ).refresh_people_order(at@),
{
    let ghost q = seen(movers@);
    let mut i: usize = 0;
    while i < movers.len()
        invariant
            i <= movers@.len(),
            q == seen(movers@),
            company.wf(),
            company@ == old(company)@.move_all(
                q.take(i as int),
                destination_id@,
                intent@,
                reason@,
                adopt,
                at@,
            ),
        decreases movers@.len() - i,
    {
        proof {
            assert(q.take(i + 1).drop_last() =~= q.take(i as int));
            assert(q.take(i + 1).last() == movers@[i as int]@);
        }
        move_one(company, movers[i].as_str(), destination_id, intent, reason, adopt, at);
        i = i + 1;
    }
    proof {
        assert(q.take(i as int) =~= q);
    }
    company.refresh_people_order(at);
}

/// A list of one.
fn just(person_id: &str) -> (r: Vec<String>)
    ensures
        seen(r@) == seq![person_id@],
{
    let mut r: Vec<String> = Vec::new();
    r.push(owned(person_id));
    proof {
        assert(seen(r@) =~= seq![person_id@]);
    }
    r
}

/// Transfer somebody to a unit. `intent` stands on a transition that gives way.
///
/// Both units are asked for: who manages only the one somebody leaves would
/// push people where they have no authority, who manages only the other would
/// pull them out of somebody else's.
pub fn transfer_person(
    company: &mut Company,
    person_id: &str,
    destination_id: &str,
    intent: &str,
    at: &str,
    actor: &str,
    head_vacates: Option<&HeadVacancy>,
) -> (r: Result<TransferOutcome, RowError>)
    requires
        old(company).wf(),
    ensures
        final(company).wf(),
        match r {
            Ok(TransferOutcome::Refused { reason }) => old(company)@.transfer_refusal(
                person_id@,
                destination_id@,
                actor@,
                opt(head_vacates),
            ) == Some(reason@) && final(company)@ == old(company)@,
            Ok(TransferOutcome::Applied { moved }) => old(company)@.transfer_refusal(
                person_id@,
                destination_id@,
                actor@,
                opt(head_vacates),
            ) is None && !(opt(head_vacates) matches Some(d) && old(company)@.vacancy_breaks(
                person_id@,
                d,
                destination_id@,
            )) && seen(moved@) == seq![person_id@] && final(company)@
                == old(company)@.transferred(
                person_id@,
                destination_id@,
                intent@,
                at@,
                actor@,
                opt(head_vacates),
            ),
            Err(e) => old(company)@.transfer_refusal(
                person_id@,
                destination_id@,
                actor@,
                opt(head_vacates),
            ) is None && (opt(head_vacates) matches Some(d) && old(company)@.vacancy_breaks(
                person_id@,
                d,
                destination_id@,
            )) && e == RowError::Constraint && final(company)@ == old(company)@,
        },
{
    if let Err(reason) = validate_destination(company, destination_id) {
        return Ok(TransferOutcome::Refused { reason });
    }
    if let Err(reason) = validate_mover(
        company,
        person_id,
        None,
        false,
        HeadMoveRule::Vacates(head_vacates),
    ) {
        return Ok(TransferOutcome::Refused { reason });
    }
    if actor_out_of_scope_for_person(company, actor, person_id) || actor_out_of_scope(
        company,
        actor,
        destination_id,
    ) {
        return Ok(TransferOutcome::Refused { reason: TransferRefusal::ActorOutOfScope });
    }
    if let Some(decision) = head_vacates {
        if vacancy_breaks(company, person_id, decision, destination_id) {
            return Err(RowError::Constraint);
        }
    }
    let reason = authored_ledger_line("transferred", actor);
    let moved = just(person_id);
    move_touches(company, destination_id, &moved, intent, reason.as_str(), true, at);
    if let Some(decision) = head_vacates {
        vacate_headship(company, person_id, decision, reason.as_str(), at);
        company.set_person_kind(person_id, PersonKind::Worker, at);
    }
    company.emit_once(at, actor);
    Ok(TransferOutcome::Applied { moved })
}

/// Move a set of members from one unit to another: all of them, or nobody. An
/// empty set means everybody employed in the unit but its head.
pub fn move_department_members(
    company: &mut Company,
    from_department_id: &str,
    destination_id: &str,
    person_ids: &[String],
    intent: &str,
    at: &str,
    actor: &str,
) -> (r: Result<TransferOutcome, RowError>)
    requires
        old(company).wf(),
    ensures
        final(company).wf(),
        match r {
            Ok(TransferOutcome::Refused { reason }) => old(company)@.move_refusal(
                from_department_id@,
                destination_id@,
                old(company)@.batch(from_department_id@, seen(person_ids@)),
                actor@,
            ) == Some(reason@) && final(company)@ == old(company)@,
            Ok(TransferOutcome::Applied { moved }) => old(company)@.move_refusal(
                from_department_id@,
                destination_id@,
                old(company)@.batch(from_department_id@, seen(person_ids@)),
                actor@,
            ) is None && seen(moved@) == old(company)@.batch(
                from_department_id@,
                seen(person_ids@),
            ) && final(company)@ == old(company)@.members_moved(
                old(company)@.batch(from_department_id@, seen(person_ids@)),
                destination_id@,
                intent@,
                at@,
                actor@,
            ),
            Err(_) => false,
        },
{
    if let Err(reason) = validate_destination(company, destination_id) {
        return Ok(TransferOutcome::Refused { reason });
    }
    proof {
        assert(seen(person_ids@).len() == person_ids@.len());
    }
    let movers = if person_ids.len() == 0 {
        company.ordinary_members(from_department_id)
    } else {
        owned_slice(person_ids)
    };
    let ghost q = seen(movers@);
    let mut i: usize = 0;
    while i < movers.len()
        invariant
            i <= movers@.len(),
            q == seen(movers@),
            company.wf(),
            *company == *old(company),
            company@.batch_refusal(q, from_department_id@, 0) == company@.batch_refusal(
                q,
                from_department_id@,
                i as int,
            ),
            company@.destination_refusal(destination_id@) is None,
            q == company@.batch(from_department_id@, seen(person_ids@)),
        decreases movers@.len() - i,
    {
        proof {
            assert(q[i as int] == movers@[i as int]@);
        }
        if let Err(reason) = validate_mover(
            company,
            movers[i].as_str(),
            Some(from_department_id),
            true,
            HeadMoveRule::Refuse,
        ) {
            return Ok(TransferOutcome::Refused { reason });
        }
        i = i + 1;
    }
    if actor_out_of_scope(company, actor, from_department_id) || actor_out_of_scope(
        company,
        actor,
        destination_id,
    ) {
        return Ok(TransferOutcome::Refused { reason: TransferRefusal::ActorOutOfScope });
    }
    move_touches(company, destination_id, &movers, intent, intent, false, at);
    company.emit(at, actor);
    Ok(TransferOutcome::Applied { moved: movers })
}

} // verus!
