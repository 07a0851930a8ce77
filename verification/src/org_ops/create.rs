//! Creating a department with its head and its first people, and hiring.

use vstd::prelude::*;

use crate::company::{Company, CompanyModel, StaffingAction};
use crate::org_ops::decisions::{
    CreateUnitModel, DepartmentCreateUnit, DepartmentStaffSeed, HeadDecision, HeadDecisionModel,
    HeadVacancy, HeadVacancyModel, StaffModel,
};
use crate::org_ops::guards::RowError;
use crate::org_ops::refusals::{CreateDepartmentOutcome, HireOutcome};
use crate::org_ops::seeds::{seed_comes_up, NewPersonSeed, OwnedNewPersonSeed, SeedModel};
use crate::org_ops::vacancy::{department_headed_by, vacancy_breaks, vacate_headship};
use crate::org_projection::{
    check_department_create, check_hire, create_refusal, hire_refusal, CreateModel,
    DepartmentCreateProposal, HireModel, HireProposal,
};
use crate::organization::{EmploymentState, PersonKind};
use crate::rows::chart::eligibility_view;
use crate::text::{cat4, opt, owned, seen, Text};

verus! {

// ---------------------------------------------------------------------------
// New people
// ---------------------------------------------------------------------------

impl CompanyModel {
    /// Somebody new comes to a unit: their row, their activity, the line of the
    /// staffing history, and, if they are staffed, the decision to start them.
    pub open spec fn seeded(
        self,
        id: Text,
        department: Text,
        seed: SeedModel,
        reason: Text,
        at: Text,
    ) -> CompanyModel {
        let there = self.insert_person(id, department, seed, at).upsert_desired_off(
            id,
            seed.employment_state,
            department,
            true,
            at,
        ).append_staffing(id, StaffingAction::Hired, None, Some(department), reason, at);
        if seed.employment_state == EmploymentState::Active {
            there.fence_started(id)
        } else {
            there
        }
    }

    /// A roster comes to a unit, one after the other.
    pub open spec fn seeded_all(
        self,
        staff: Seq<StaffModel>,
        department: Text,
        reason: Text,
        at: Text,
    ) -> CompanyModel
        decreases staff.len(),
    {
        if staff.len() == 0 {
            self
        } else {
            self.seeded_all(staff.drop_last(), department, reason, at).seeded(
                staff.last().person_id,
                department,
                staff.last().seed,
                reason,
                at,
            )
        }
    }
}

fn seed_person(
    company: &mut Company,
    id: &str,
    department: &str,
    seed: &NewPersonSeed<'_>,
    reason: &str,
    at: &str,
)
    requires
        old(company).wf(),
    ensures
        final(company).wf(),
        final(company)@ == old(company)@.seeded(id@, department@, seed@, reason@, at@),
{
    company.insert_person(id, department, seed, at);
    company.upsert_desired_off(id, seed.employment_state, department, true, at);
    company.append_staffing(id, StaffingAction::Hired, None, Some(department), reason, at);
    if seed_comes_up(seed.employment_state) {
        company.fence_started(id);
    }
}

fn seed_roster(
    company: &mut Company,
    staff: &[DepartmentStaffSeed],
    department: &str,
    reason: &str,
    at: &str,
)
    requires
        old(company).wf(),
    ensures
        final(company).wf(),
        final(company)@ == old(company)@.seeded_all(seen(staff@), department@, reason@, at@),
{
    let ghost q = seen(staff@);
    let mut i: usize = 0;
    while i < staff.len()
        invariant
            i <= staff@.len(),
            q == seen(staff@),
            company.wf(),
            company@ == old(company)@.seeded_all(q.take(i as int), department@, reason@, at@),
        decreases staff@.len() - i,
    {
        proof {
            assert(q.take(i + 1).drop_last() =~= q.take(i as int));
            assert(q.take(i + 1).last() == staff@[i as int]@);
        }
        let member = &staff[i];
        let seed = OwnedNewPersonSeed::as_ref(&member.seed);
        seed_person(company, member.person_id.as_str(), department, &seed, reason, at);
        i = i + 1;
    }
    proof {
        assert(q.take(i as int) =~= q);
    }
}

// ---------------------------------------------------------------------------
// Creating a department
// ---------------------------------------------------------------------------

impl CompanyModel {
    /// The head to be has left the unit they head, as the decision says. Whose
    /// unit goes waits in the new unit's parent.
    pub open spec fn head_freed(self, p: CreateModel) -> CompanyModel {
        let head = p.head.person_id();
        match p.vacates {
            Some(decision) => (match decision {
                HeadVacancyModel::Dissolve => self.move_person(head, p.parent_id, p.at),
                HeadVacancyModel::HandOver { .. } => self,
            }).vacated(head, decision, p.audit_reason, p.at),
            None => self,
        }
    }

    /// Somebody of the company comes to head the new unit.
    pub open spec fn head_appointed(self, head: Text, from: Option<Text>, p: CreateModel) -> CompanyModel {
        let there = self.move_person(head, p.department_id, p.at).set_person_kind(
            head,
            PersonKind::Head,
            p.at,
        ).append_staffing(
            head,
            StaffingAction::Transferred,
            from,
            Some(p.department_id),
            p.audit_reason,
            p.at,
        ).append_staffing(
            head,
            StaffingAction::AppointedHead,
            None,
            Some(p.department_id),
            p.audit_reason,
            p.at,
        );
        if there.people.dom().contains(head) && there.people[head].employment_state
            == EmploymentState::Active {
            there.fence_started(head)
        } else {
            there
        }
    }

    /// What a create makes of the rows: the head to be leaves their unit, the
    /// new unit is there, its head and its people are, and everything has its
    /// place again.
    pub open spec fn department_created(self, p: CreateModel, actor: Text) -> CompanyModel {
        let unit = self.head_freed(p).insert_department(
            p.department_id,
            p.parent_id,
            p.name,
            p.purpose,
            p.unit,
            p.head.person_id(),
            p.at,
        );
        (match p.head {
            HeadDecisionModel::AppointExisting { person_id } => unit.head_appointed(
                person_id,
                if self.people.dom().contains(person_id) {
                    Some(self.people[person_id].department_id)
                } else {
                    None
                },
                p,
            ),
            HeadDecisionModel::HireNew { person_id, seed } => unit.seeded(
                person_id,
                p.department_id,
                seed,
                p.audit_reason,
                p.at,
            ),
        }).seeded_all(p.staff, p.department_id, p.audit_reason, p.at).refresh_department_order(
            p.at,
        ).refresh_people_order(p.at).deduped().emitted(p.at, actor)
    }

    /// Whether the rows cannot take a create: the head to be cannot leave the
    /// unit they head, or heads a unit still.
    pub open spec fn create_breaks(self, p: CreateModel) -> bool {
        ||| (p.vacates matches Some(decision) && self.vacancy_breaks(
            p.head.person_id(),
            decision,
            p.parent_id,
        ))
        ||| self.head_freed(p).headed_by(p.head.person_id()) is Some
    }
}

/// What a create answers, and what it makes of the rows.
pub open spec fn create_answers(
    before: CompanyModel,
    p: CreateModel,
    actor: Text,
    r: Result<CreateDepartmentOutcome, RowError>,
    after: CompanyModel,
) -> bool {
    match r {
        Ok(CreateDepartmentOutcome::Refused { reason }) => create_refusal(before.org(), p) == Some(
            reason@,
        ) && after == before,
        Ok(CreateDepartmentOutcome::Applied { department_id }) => create_refusal(before.org(), p)
            is None && !before.create_breaks(p) && department_id@ == p.department_id && after
            == before.department_created(p, actor),
        Err(e) => create_refusal(before.org(), p) is None && before.create_breaks(p) && e
            == RowError::Constraint && after == before,
    }
}

fn free_head(company: &mut Company, proposal: &DepartmentCreateProposal<'_>)
    requires
        old(company).wf(),
    ensures
        final(company).wf(),
        final(company)@ == old(company)@.head_freed(proposal@),
{
    let head = proposal.head.person_id();
    if let Some(decision) = proposal.head_vacates {
        match decision {
            HeadVacancy::Dissolve => {
                company.move_person(head, proposal.parent_id, proposal.at);
            },
            HeadVacancy::HandOver { .. } => {},
        }
        vacate_headship(company, head, decision, proposal.audit_reason, proposal.at);
    }
}

fn appoint_head(
    company: &mut Company,
    head: &str,
    from: &Option<String>,
    proposal: &DepartmentCreateProposal<'_>,
)
    requires
        old(company).wf(),
    ensures
        final(company).wf(),
        final(company)@ == old(company)@.head_appointed(head@, opt(*from), proposal@),
{
    let at = proposal.at;
    company.move_person(head, proposal.department_id, at);
    company.set_person_kind(head, PersonKind::Head, at);
    let from = match from {
        Some(unit) => Some(unit.as_str()),
        None => None,
    };
    company.append_staffing(
        head,
        StaffingAction::Transferred,
        from,
        Some(proposal.department_id),
        proposal.audit_reason,
        at,
    );
    company.append_staffing(
        head,
        StaffingAction::AppointedHead,
        None,
        Some(proposal.department_id),
        proposal.audit_reason,
        at,
    );
    let active = match company.people.get(head) {
        Some(row) => row.employment_state == EmploymentState::Active,
        None => false,
    };
    if active {
        company.fence_started(head);
    }
}

/// Create what a proposal says.
fn create_proposed(
    company: &mut Company,
    proposal: &DepartmentCreateProposal<'_>,
    actor: &str,
) -> (r: Result<CreateDepartmentOutcome, RowError>)
    requires
        old(company).wf(),
    ensures
        final(company).wf(),
        create_answers(old(company)@, proposal@, actor@, r, final(company)@),
{
    let view = eligibility_view(company);
    if let Err(reason) = check_department_create(&view, proposal) {
        return Ok(CreateDepartmentOutcome::Refused { reason });
    }
    let head = proposal.head.person_id();
    if let Some(decision) = proposal.head_vacates {
        if vacancy_breaks(company, head, decision, proposal.parent_id) {
            return Err(RowError::Constraint);
        }
    }
    let mut next = company.copy_all();
    let origin = match company.people.get(head) {
        Some(row) => Some(row.department_id.clone()),
        None => None,
    };
    free_head(&mut next, proposal);
    if department_headed_by(&next, head).is_some() {
        return Err(RowError::Constraint);
    }
    next.insert_department(
        proposal.department_id,
        proposal.parent_id,
        proposal.name,
        proposal.purpose,
        proposal.unit,
        head,
        proposal.at,
    );
    match proposal.head {
        HeadDecision::AppointExisting { person_id } => {
            appoint_head(&mut next, person_id.as_str(), &origin, proposal);
        },
        HeadDecision::HireNew { person_id, seed } => {
            let seed = OwnedNewPersonSeed::as_ref(&**seed);
            seed_person(
                &mut next,
                person_id.as_str(),
                proposal.department_id,
                &seed,
                proposal.audit_reason,
                proposal.at,
            );
        },
    }
    seed_roster(
        &mut next,
        proposal.staff,
        proposal.department_id,
        proposal.audit_reason,
        proposal.at,
    );
    next.refresh_department_order(proposal.at);
    next.refresh_people_order(proposal.at);
    next.emit_once(proposal.at, actor);
    *company = next;
    Ok(CreateDepartmentOutcome::Applied { department_id: owned(proposal.department_id) })
}

/// Create a unit of either kind with its head and its first people. Whether it
/// may be is what [`check_department_create`] says of the company's shape.
pub fn create_department_with_staff_unit(
    company: &mut Company,
    department_id: &str,
    parent_id: &str,
    name: &str,
    purpose: &str,
    head: &HeadDecision,
    staff: &[DepartmentStaffSeed],
    unit: &DepartmentCreateUnit,
    head_vacates: Option<&HeadVacancy>,
    requester_person_id: Option<&str>,
    audit_reason: &str,
    at: &str,
    actor: &str,
) -> (r: Result<CreateDepartmentOutcome, RowError>)
    requires
        old(company).wf(),
    ensures
        final(company).wf(),
        create_answers(
            old(company)@,
            (CreateModel {
                department_id: department_id@,
                parent_id: parent_id@,
                name: name@,
                purpose: purpose@,
                head: head@,
                staff: seen(staff@),
                unit: unit@,
                requester: opt(requester_person_id),
                audit_reason: audit_reason@,
                at: at@,
                vacates: opt(head_vacates),
            }),
            actor@,
            r,
            final(company)@,
        ),
{
    let proposal = DepartmentCreateProposal {
        department_id,
        parent_id,
        name,
        purpose,
        head,
        staff,
        unit,
        requester_person_id,
        audit_reason,
        at,
        head_vacates,
    };
    create_proposed(company, &proposal, actor)
}

/// Create a department with its head and its first people.
pub fn create_department_with_staff(
    company: &mut Company,
    department_id: &str,
    parent_id: &str,
    name: &str,
    purpose: &str,
    head: &HeadDecision,
    staff: &[DepartmentStaffSeed],
    requester_person_id: Option<&str>,
    audit_reason: &str,
    at: &str,
    actor: &str,
) -> (r: Result<CreateDepartmentOutcome, RowError>)
    requires
        old(company).wf(),
    ensures
        final(company).wf(),
        create_answers(
            old(company)@,
            (CreateModel {
                department_id: department_id@,
                parent_id: parent_id@,
                name: name@,
                purpose: purpose@,
                head: head@,
                staff: seen(staff@),
                unit: CreateUnitModel::Department,
                requester: opt(requester_person_id),
                audit_reason: audit_reason@,
                at: at@,
                vacates: None,
            }),
            actor@,
            r,
            final(company)@,
        ),
{
    create_department_with_staff_unit(
        company,
        department_id,
        parent_id,
        name,
        purpose,
        head,
        staff,
        &DepartmentCreateUnit::Department,
        None,
        requester_person_id,
        audit_reason,
        at,
        actor,
    )
}

/// Create a department with its head alone, asked for by somebody of the
/// company.
pub fn create_department(
    company: &mut Company,
    department_id: &str,
    parent_id: &str,
    name: &str,
    purpose: &str,
    head: &HeadDecision,
    requester_person_id: &str,
    audit_reason: &str,
    at: &str,
    actor: &str,
) -> (r: Result<CreateDepartmentOutcome, RowError>)
    requires
        old(company).wf(),
    ensures
        final(company).wf(),
        create_answers(
            old(company)@,
            (CreateModel {
                department_id: department_id@,
                parent_id: parent_id@,
                name: name@,
                purpose: purpose@,
                head: head@,
                staff: Seq::empty(),
                unit: CreateUnitModel::Department,
                requester: Some(requester_person_id@),
                audit_reason: audit_reason@,
                at: at@,
                vacates: None,
            }),
            actor@,
            r,
            final(company)@,
        ),
{
    let staff: Vec<DepartmentStaffSeed> = Vec::new();
    proof {
        assert(seen(staff@) =~= Seq::<StaffModel>::empty());
    }
    create_department_with_staff(
        company,
        department_id,
        parent_id,
        name,
        purpose,
        head,
        staff.as_slice(),
        Some(requester_person_id),
        audit_reason,
        at,
        actor,
    )
}

// ---------------------------------------------------------------------------
// Hiring
// ---------------------------------------------------------------------------

/// The staffing-history line of a hire.
pub open spec fn hire_line(person: Text, department: Text) -> Text {
    "hired "@ + person + " into "@ + department
}

impl CompanyModel {
    /// What a hire makes of the rows.
    pub open spec fn hired(self, p: HireModel, actor: Text) -> CompanyModel {
        self.seeded(
            p.person_id,
            p.department_id,
            p.seed,
            hire_line(p.person_id, p.department_id),
            p.at,
        ).refresh_people_order(p.at).deduped().emitted(p.at, actor)
    }
}

/// What a hire answers, and what it makes of the rows.
pub open spec fn hire_answers(
    before: CompanyModel,
    p: HireModel,
    actor: Text,
    r: Result<HireOutcome, RowError>,
    after: CompanyModel,
) -> bool {
    match r {
        Ok(HireOutcome::Refused { reason }) => hire_refusal(before.org(), p) == Some(reason@)
            && after == before,
        Ok(HireOutcome::Applied) => hire_refusal(before.org(), p) is None && after == before.hired(
            p,
            actor,
        ),
        Err(_) => false,
    }
}

/// Hire somebody into a unit, for a manager of the company or for an operator
/// outside it. Whether it may be is what [`check_hire`] says of the company's
/// shape.
pub fn hire_person_authorized(
    company: &mut Company,
    person_id: &str,
    department_id: &str,
    seed: &NewPersonSeed<'_>,
    requester_person_id: Option<&str>,
    at: &str,
    actor: &str,
) -> (r: Result<HireOutcome, RowError>)
    requires
        old(company).wf(),
    ensures
        final(company).wf(),
        hire_answers(
            old(company)@,
            (HireModel {
                person_id: person_id@,
                department_id: department_id@,
                seed: seed@,
                requester: opt(requester_person_id),
                at: at@,
            }),
            actor@,
            r,
            final(company)@,
        ),
{
    let view = eligibility_view(company);
    let proposal = HireProposal { person_id, department_id, seed, requester_person_id, at };
    if let Err(reason) = check_hire(&view, &proposal) {
        return Ok(HireOutcome::Refused { reason });
    }
    let reason = cat4("hired ", person_id, " into ", department_id);
    seed_person(company, person_id, department_id, seed, reason.as_str(), at);
    company.refresh_people_order(at);
    company.emit_once(at, actor);
    Ok(HireOutcome::Applied)
}

/// Hire somebody into a unit, asked for by somebody of the company.
pub fn hire_person(
    company: &mut Company,
    person_id: &str,
    department_id: &str,
    seed: &NewPersonSeed<'_>,
    requester_person_id: &str,
    at: &str,
    actor: &str,
) -> (r: Result<HireOutcome, RowError>)
    requires
        old(company).wf(),
    ensures
        final(company).wf(),
        hire_answers(
            old(company)@,
            (HireModel {
                person_id: person_id@,
                department_id: department_id@,
                seed: seed@,
                requester: Some(requester_person_id@),
                at: at@,
            }),
            actor@,
            r,
            final(company)@,
        ),
{
    hire_person_authorized(
        company,
        person_id,
        department_id,
        seed,
        Some(requester_person_id),
        at,
        actor,
    )
}

} // verus!
