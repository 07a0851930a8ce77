//! Whether a department may be created or a person hired, and the manifest as
//! it would be. Nothing here reads or writes a row, so a caller can ask before
//! committing anything, and the writers ask the same functions.

use vstd::prelude::*;

use crate::isotime::{iso_value, parse_iso_millis};
use crate::org_ops::decisions::{
    CreateUnitModel, DepartmentCreateUnit, DepartmentStaffSeed, HeadDecision, HeadDecisionModel,
    HeadVacancy, HeadVacancyModel, StaffModel,
};
use crate::org_ops::refusals::{
    CreateDepartmentRefusal, CreateRefusalModel, HeadIneligibility, HeadVacancyRefusal,
    HeadVacancyRefusalModel, HireRefusal, HireRefusalModel, VacancyRefusal, VacancyRefusalModel,
};
use crate::org_ops::seeds::{
    entity_id, required_text, seed_rejection, valid_entity_id, validate_new_person_seed,
    NewPersonSeed, OwnedNewPersonSeed, SeedModel, ENTITY_ID_RULE,
};
use crate::org_view::{
    ceo, child_department_ids, children, department_headed_by_person,
    department_or_ancestor_is_paused, department_state, headed_by, is_ceo, manages,
    may_create_under, members_but, person_manages_department, person_may_create_under_department,
    shape_of, stopped, those_where, unit_members_other_than, OrgModel,
};
pub use crate::org_view::{OrgView, PersonView, UnitView};
use crate::organization::{
    DepartmentRecord, DepartmentRecordModel, EmploymentState, ManifestModel, OpenFields,
    OrganizationManifest, OrganizationPolicy, PersonKind, PersonRecord, PersonRecordModel,
    UnitState, ORGANIZATION_SCHEMA_VERSION, ROOT_DEPARTMENT_ID,
};
use crate::organization_spec::{echo, echo_text};
use crate::table::{Duplicate, Table};
use crate::text::{
    blank, cat2, cat3, decimal, decimal_text, is_blank, list_contains, opt, owned, owned_slice,
    same, seen, Text,
};

verus! {

// ---------------------------------------------------------------------------
// Leaving a headship
// ---------------------------------------------------------------------------

/// Why somebody may not leave the unit they head under this decision, if they
/// may not.
pub open spec fn vacancy_refusal(
    o: OrgModel,
    heads_now: Option<Text>,
    person: Text,
    decision: Option<HeadVacancyModel>,
) -> Option<HeadVacancyRefusalModel> {
    match (heads_now, decision) {
        (None, None) => None,
        (None, Some(_)) => Some(
            HeadVacancyRefusalModel::Invalid {
                department_id: Seq::empty(),
                because: VacancyRefusalModel::HeadsNothing,
            },
        ),
        (Some(vacated), None) => Some(
            HeadVacancyRefusalModel::Required {
                person_id: person,
                department_id: vacated,
                eligible_successor_ids: members_but(o, vacated, person),
            },
        ),
        (Some(vacated), Some(HeadVacancyModel::HandOver { successor_person_id })) => {
            if members_but(o, vacated, person).contains(successor_person_id) {
                None
            } else {
                Some(
                    HeadVacancyRefusalModel::Invalid {
                        department_id: vacated,
                        because: VacancyRefusalModel::SuccessorNotAMember { successor_person_id },
                    },
                )
            }
        },
        (Some(vacated), Some(HeadVacancyModel::Dissolve)) => {
            if members_but(o, vacated, person).len() > 0 {
                Some(
                    HeadVacancyRefusalModel::Invalid {
                        department_id: vacated,
                        because: VacancyRefusalModel::StillHasMembers {
                            member_person_ids: members_but(o, vacated, person),
                        },
                    },
                )
            } else if children(o.departments, vacated).len() > 0 {
                Some(
                    HeadVacancyRefusalModel::Invalid {
                        department_id: vacated,
                        because: VacancyRefusalModel::StillHasChildren {
                            child_department_ids: children(o.departments, vacated),
                        },
                    },
                )
            } else {
                None
            }
        },
    }
}

/// Whether somebody may leave the unit they head, given the caller's decision
/// about it. The one statement of the rule, for create and transfer alike.
pub fn check_head_vacancy(
    view: &OrgView,
    heads_now: Option<&str>,
    person_id: &str,
    decision: Option<&HeadVacancy>,
) -> (r: Result<(), HeadVacancyRefusal>)
    requires
        view.wf(),
    ensures
        match r {
            Ok(()) => vacancy_refusal(view@, opt(heads_now), person_id@, opt(decision)) is None,
            Err(e) => vacancy_refusal(view@, opt(heads_now), person_id@, opt(decision)) == Some(e@),
        },
{
    match (heads_now, decision) {
        (None, None) => Ok(()),
        (None, Some(_)) => Err(
            HeadVacancyRefusal::Invalid {
                department_id: String::new(),
                because: VacancyRefusal::HeadsNothing,
            },
        ),
        (Some(vacated), None) => Err(
            HeadVacancyRefusal::Required {
                person_id: owned(person_id),
                department_id: owned(vacated),
                eligible_successor_ids: unit_members_other_than(view, vacated, person_id),
            },
        ),
        (Some(vacated), Some(choice)) => {
            let members = unit_members_other_than(view, vacated, person_id);
            match choice {
                HeadVacancy::HandOver { successor_person_id } => {
                    if list_contains(members.as_slice(), successor_person_id.as_str()) {
                        Ok(())
                    } else {
                        Err(
                            HeadVacancyRefusal::Invalid {
                                department_id: owned(vacated),
                                because: VacancyRefusal::SuccessorNotAMember {
                                    successor_person_id: successor_person_id.clone(),
                                },
                            },
                        )
                    }
                },
                HeadVacancy::Dissolve => {
                    proof {
                        assert(members@.len() == seen(members@).len());
                    }
                    if members.len() > 0 {
                        return Err(
                            HeadVacancyRefusal::Invalid {
                                department_id: owned(vacated),
                                because: VacancyRefusal::StillHasMembers {
                                    member_person_ids: members,
                                },
                            },
                        );
                    }
                    let below = child_department_ids(view, vacated);
                    proof {
                        assert(below@.len() == seen(below@).len());
                    }
                    if below.len() > 0 {
                        return Err(
                            HeadVacancyRefusal::Invalid {
                                department_id: owned(vacated),
                                because: VacancyRefusal::StillHasChildren {
                                    child_department_ids: below,
                                },
                            },
                        );
                    }
                    Ok(())
                },
            }
        },
    }
}

// ---------------------------------------------------------------------------
// Proposals
// ---------------------------------------------------------------------------

/// Everything a department create decides from.
pub struct DepartmentCreateProposal<'a> {
    /// The new unit's id.
    pub department_id: &'a str,
    /// The unit it hangs beneath.
    pub parent_id: &'a str,
    /// Display name.
    pub name: &'a str,
    /// What it exists to do.
    pub purpose: &'a str,
    /// Who heads it.
    pub head: &'a HeadDecision,
    /// Its initial workers.
    pub staff: &'a [DepartmentStaffSeed],
    /// What kind of unit it is.
    pub unit: &'a DepartmentCreateUnit,
    /// Who asked, when the caller attests one.
    pub requester_person_id: Option<&'a str>,
    /// The staffing-history line of this create. It decides nothing.
    pub audit_reason: &'a str,
    /// The caller's clock.
    pub at: &'a str,
    /// What becomes of the unit an existing head heads already.
    pub head_vacates: Option<&'a HeadVacancy>,
}

/// Everything a department create decides from, as read.
pub struct CreateModel {
    /// The new unit's id.
    pub department_id: Text,
    /// The unit it hangs beneath.
    pub parent_id: Text,
    /// Display name.
    pub name: Text,
    /// What it exists to do.
    pub purpose: Text,
    /// Who heads it.
    pub head: HeadDecisionModel,
    /// Its initial workers.
    pub staff: Seq<StaffModel>,
    /// What kind of unit it is.
    pub unit: CreateUnitModel,
    /// Who asked.
    pub requester: Option<Text>,
    /// The staffing-history line.
    pub audit_reason: Text,
    /// The caller's clock.
    pub at: Text,
    /// What becomes of the unit an existing head heads already.
    pub vacates: Option<HeadVacancyModel>,
}

impl<'a> View for DepartmentCreateProposal<'a> {
    type V = CreateModel;

    open spec fn view(&self) -> CreateModel {
        CreateModel {
            department_id: self.department_id@,
            parent_id: self.parent_id@,
            name: self.name@,
            purpose: self.purpose@,
            head: self.head@,
            staff: seen(self.staff@),
            unit: self.unit@,
            requester: opt(self.requester_person_id),
            audit_reason: self.audit_reason@,
            at: self.at@,
            vacates: opt(self.head_vacates),
        }
    }
}

/// Everything a hire decides from.
pub struct HireProposal<'a> {
    /// The new person's id.
    pub person_id: &'a str,
    /// Where they land.
    pub department_id: &'a str,
    /// Their seed.
    pub seed: &'a NewPersonSeed<'a>,
    /// Who asked, when the caller attests one.
    pub requester_person_id: Option<&'a str>,
    /// The caller's clock.
    pub at: &'a str,
}

/// Everything a hire decides from, as read.
pub struct HireModel {
    /// The new person's id.
    pub person_id: Text,
    /// Where they land.
    pub department_id: Text,
    /// Their seed.
    pub seed: SeedModel,
    /// Who asked.
    pub requester: Option<Text>,
    /// The caller's clock.
    pub at: Text,
}

impl<'a> View for HireProposal<'a> {
    type V = HireModel;

    open spec fn view(&self) -> HireModel {
        HireModel {
            person_id: self.person_id@,
            department_id: self.department_id@,
            seed: self.seed@,
            requester: opt(self.requester_person_id),
            at: self.at@,
        }
    }
}

// ---------------------------------------------------------------------------
// May this department be created?
// ---------------------------------------------------------------------------

/// The detail of an id that is none.
pub open spec fn id_rule_text(id: Text) -> Text {
    ENTITY_ID_RULE@ + "; got "@ + echo_text(id)
}

/// The refusal of an id that is none.
pub open spec fn bad_id(field: Text, id: Text) -> CreateRefusalModel {
    CreateRefusalModel::InvalidSeed { field, detail: id_rule_text(id) }
}

/// The refusal of a seed, if it is no good, under a seed path.
pub open spec fn seed_refusal(
    seed: SeedModel,
    expected: PersonKind,
    prefix: Text,
) -> Option<CreateRefusalModel> {
    match seed_rejection(seed, expected) {
        Some(e) => Some(
            CreateRefusalModel::InvalidSeed { field: prefix + e.field, detail: e.detail },
        ),
        None => None,
    }
}

/// What is wrong with a contract's metadata, if anything is: a blank
/// engagement, a launch that is no timestamp, an end that is none or not after
/// the launch.
pub open spec fn contract_refusal(unit: CreateUnitModel) -> Option<CreateRefusalModel> {
    match unit {
        CreateUnitModel::Department => None,
        CreateUnitModel::Contract(c) => {
            if blank(c.engagement) {
                Some(
                    CreateRefusalModel::InvalidSeed {
                        field: "unit.transient.engagement"@,
                        detail: "a contract unit requires a non-blank engagement description"@,
                    },
                )
            } else {
                match iso_value(c.launched_at) {
                    None => Some(
                        CreateRefusalModel::InvalidSeed {
                            field: "unit.transient.launchedAt"@,
                            detail:
                                "launchedAt must be an ISO-8601 millisecond timestamp (YYYY-MM-DDTHH:MM:SS.sssZ); got "@
                                + echo_text(c.launched_at),
                        },
                    ),
                    Some(launched) => {
                        let late = match c.expires_at {
                            None => true,
                            Some(e) => iso_value(e) matches Some(expires) && launched < expires,
                        };
                        if late {
                            None
                        } else {
                            Some(
                                CreateRefusalModel::InvalidSeed {
                                    field: "unit.transient.expiresAt"@,
                                    detail:
                                        "expiresAt must be omitted, or an ISO-8601 millisecond timestamp strictly after launchedAt"@,
                                },
                            )
                        }
                    },
                }
            }
        },
    }
}

/// Why the head decision does not stand, if it does not.
pub open spec fn head_refusal(o: OrgModel, p: CreateModel) -> Option<CreateRefusalModel> {
    match p.head {
        HeadDecisionModel::AppointExisting { person_id } => {
            if !o.people.dom().contains(person_id) {
                Some(CreateRefusalModel::HeadDecisionRequired)
            } else if ceo(o.departments, person_id) {
                Some(CreateRefusalModel::ExecRootProtected { person_id })
            } else if (p.requester matches Some(r) && r != person_id && !manages(
                o,
                r,
                o.people[person_id].department,
            )) {
                Some(CreateRefusalModel::RequesterOutOfScope)
            } else if o.people[person_id].employment == EmploymentState::Departed {
                Some(
                    CreateRefusalModel::HeadNotEligible {
                        person_id,
                        because: HeadIneligibility::Departed,
                    },
                )
            } else {
                match vacancy_refusal(o, headed_by(o.departments, person_id), person_id, p.vacates) {
                    Some(e) => Some(CreateRefusalModel::HeadVacancy(e)),
                    None => {
                        if headed_by(o.departments, person_id) is None && o.people[person_id].kind
                            != PersonKind::Worker {
                            Some(
                                CreateRefusalModel::HeadNotEligible {
                                    person_id,
                                    because: HeadIneligibility::NotAWorker,
                                },
                            )
                        } else {
                            None
                        }
                    },
                }
            }
        },
        HeadDecisionModel::HireNew { person_id, seed } => {
            if o.people.dom().contains(person_id) {
                Some(CreateRefusalModel::DuplicatePersonId)
            } else if !entity_id(person_id) {
                Some(bad_id("head.personId"@, person_id))
            } else {
                seed_refusal(seed, PersonKind::Head, "head."@)
            }
        },
    }
}

/// Whether a roster id is the head's or one named before it.
pub open spec fn named_before(head: Text, staff: Seq<StaffModel>, i: int) -> bool {
    staff[i].person_id == head || exists|j: int|
        0 <= j < i && #[trigger] staff[j].person_id == staff[i].person_id
}

/// Why the roster from place `i` on does not stand, if it does not.
pub open spec fn roster_refusal(
    o: OrgModel,
    head: Text,
    staff: Seq<StaffModel>,
    i: int,
) -> Option<CreateRefusalModel>
    decreases staff.len() - i,
{
    if i < 0 || i >= staff.len() {
        None
    } else if !entity_id(staff[i].person_id) {
        Some(bad_id("staff["@ + decimal(i as nat) + "].personId"@, staff[i].person_id))
    } else if named_before(head, staff, i) || o.people.dom().contains(staff[i].person_id) {
        Some(CreateRefusalModel::DuplicatePersonId)
    } else {
        match seed_refusal(
            staff[i].seed,
            PersonKind::Worker,
            "staff["@ + decimal(i as nat) + "]."@,
        ) {
            Some(e) => Some(e),
            None => roster_refusal(o, head, staff, i + 1),
        }
    }
}

/// Why a department may not be created, if it may not. Which of several
/// refusals comes is decided by this order: contract metadata, the parent
/// unknown or stopped, the id taken, the requester, blank fields, the id's
/// shape, the head decision, the roster.
pub open spec fn create_refusal(o: OrgModel, p: CreateModel) -> Option<CreateRefusalModel> {
    if contract_refusal(p.unit) is Some {
        contract_refusal(p.unit)
    } else if !o.departments.dom().contains(p.parent_id) {
        Some(CreateRefusalModel::UnknownParent)
    } else if stopped(o.departments, p.parent_id) {
        Some(CreateRefusalModel::ParentPaused)
    } else if o.departments.dom().contains(p.department_id) {
        Some(CreateRefusalModel::DuplicateDepartmentId)
    } else if (p.requester matches Some(r) && !may_create_under(o, r, p.parent_id)) {
        Some(CreateRefusalModel::RequesterOutOfScope)
    } else if blank(p.department_id) {
        Some(
            CreateRefusalModel::InvalidSeed {
                field: "departmentId"@,
                detail: required_text("departmentId"@),
            },
        )
    } else if blank(p.name) {
        Some(
            CreateRefusalModel::InvalidSeed { field: "name"@, detail: required_text("name"@) },
        )
    } else if blank(p.purpose) {
        Some(
            CreateRefusalModel::InvalidSeed {
                field: "purpose"@,
                detail: required_text("purpose"@),
            },
        )
    } else if !entity_id(p.department_id) {
        Some(bad_id("departmentId"@, p.department_id))
    } else if head_refusal(o, p) is Some {
        head_refusal(o, p)
    } else {
        roster_refusal(o, p.head.person_id(), p.staff, 0)
    }
}

fn invalid(field: &str, detail: &str) -> (r: CreateDepartmentRefusal)
    ensures
        r@ == (CreateRefusalModel::InvalidSeed { field: field@, detail: detail@ }),
{
    CreateDepartmentRefusal::InvalidSeed { field: owned(field), detail: owned(detail) }
}

fn invalid_id(field: &str, id: &str) -> (r: CreateDepartmentRefusal)
    ensures
        r@ == bad_id(field@, id@),
{
    let shown = echo(id);
    let detail = cat3(ENTITY_ID_RULE, "; got ", shown.as_str());
    invalid(field, detail.as_str())
}

fn invalid_blank(field: &str) -> (r: CreateDepartmentRefusal)
    ensures
        r@ == (CreateRefusalModel::InvalidSeed { field: field@, detail: required_text(field@) }),
{
    let detail = cat2(field, " is required and must not be blank");
    invalid(field, detail.as_str())
}

fn check_contract(unit: &DepartmentCreateUnit) -> (r: Result<(), CreateDepartmentRefusal>)
    ensures
        match r {
            Ok(()) => contract_refusal(unit@) is None,
            Err(e) => contract_refusal(unit@) == Some(e@),
        },
{
    match unit {
        DepartmentCreateUnit::Department => Ok(()),
        DepartmentCreateUnit::Contract(transient) => {
            if is_blank(transient.engagement.as_str()) {
                return Err(
                    invalid(
                        "unit.transient.engagement",
                        "a contract unit requires a non-blank engagement description",
                    ),
                );
            }
            match parse_iso_millis(transient.launched_at.as_str()) {
                None => {
                    let shown = echo(transient.launched_at.as_str());
                    let detail = cat2(
                        "launchedAt must be an ISO-8601 millisecond timestamp (YYYY-MM-DDTHH:MM:SS.sssZ); got ",
                        shown.as_str(),
                    );
                    Err(invalid("unit.transient.launchedAt", detail.as_str()))
                },
                Some(launched) => {
                    let late = match &transient.expires_at {
                        None => true,
                        Some(expires_at) => match parse_iso_millis(expires_at.as_str()) {
                            Some(expires) => launched < expires,
                            None => false,
                        },
                    };
                    if late {
                        Ok(())
                    } else {
                        Err(
                            invalid(
                                "unit.transient.expiresAt",
                                "expiresAt must be omitted, or an ISO-8601 millisecond timestamp strictly after launchedAt",
                            ),
                        )
                    }
                },
            }
        },
    }
}

fn check_seed(seed: &NewPersonSeed<'_>, expected: PersonKind, prefix: &str) -> (r: Result<
    (),
    CreateDepartmentRefusal,
>)
    ensures
        match r {
            Ok(()) => seed_refusal(seed@, expected, prefix@) is None,
            Err(e) => seed_refusal(seed@, expected, prefix@) == Some(e@),
        },
{
    match validate_new_person_seed(seed, expected) {
        Ok(()) => Ok(()),
        Err(rejection) => {
            let moved = rejection.under(prefix);
            Err(
                CreateDepartmentRefusal::InvalidSeed { field: moved.field, detail: moved.detail },
            )
        },
    }
}

fn check_head(view: &OrgView, proposal: &DepartmentCreateProposal<'_>) -> (r: Result<
    (),
    CreateDepartmentRefusal,
>)
    requires
        view.wf(),
    ensures
        match r {
            Ok(()) => head_refusal(view@, proposal@) is None,
            Err(e) => head_refusal(view@, proposal@) == Some(e@),
        },
{
    match proposal.head {
        HeadDecision::AppointExisting { person_id } => {
            let appointee = match view.people.get(person_id.as_str()) {
                Some(a) => a,
                None => {
                    return Err(CreateDepartmentRefusal::HeadDecisionRequired);
                },
            };
            if is_ceo(view, person_id.as_str()) {
                return Err(
                    CreateDepartmentRefusal::ExecRootProtected { person_id: person_id.clone() },
                );
            }
            if let Some(requester) = proposal.requester_person_id {
                if !same(requester, person_id.as_str()) && !person_manages_department(
                    view,
                    requester,
                    appointee.department_id.as_str(),
                ) {
                    return Err(CreateDepartmentRefusal::RequesterOutOfScope);
                }
            }
            if appointee.employment_state == EmploymentState::Departed {
                return Err(
                    CreateDepartmentRefusal::HeadNotEligible {
                        person_id: person_id.clone(),
                        because: HeadIneligibility::Departed,
                    },
                );
            }
            let heads_now = department_headed_by_person(view, person_id.as_str());
            match check_head_vacancy(view, heads_now, person_id.as_str(), proposal.head_vacates) {
                Ok(()) => {},
                Err(e) => {
                    return Err(CreateDepartmentRefusal::HeadVacancy(e));
                },
            }
            if heads_now.is_none() && appointee.kind != PersonKind::Worker {
                return Err(
                    CreateDepartmentRefusal::HeadNotEligible {
                        person_id: person_id.clone(),
                        because: HeadIneligibility::NotAWorker,
                    },
                );
            }
            Ok(())
        },
        HeadDecision::HireNew { person_id, seed } => {
            if view.people.has(person_id.as_str()) {
                return Err(CreateDepartmentRefusal::DuplicatePersonId);
            }
            if !valid_entity_id(person_id.as_str()) {
                return Err(invalid_id("head.personId", person_id.as_str()));
            }
            let borrowed = OwnedNewPersonSeed::as_ref(&**seed);
            check_seed(&borrowed, PersonKind::Head, "head.")
        },
    }
}

fn roster_names_before(head: &str, staff: &[DepartmentStaffSeed], i: usize) -> (r: bool)
    requires
        i < staff@.len(),
    ensures
        r == named_before(head@, seen(staff@), i as int),
{
    if same(staff[i].person_id.as_str(), head) {
        return true;
    }
    let mut j: usize = 0;
    while j < i
        invariant
            j <= i < staff@.len(),
            forall|k: int|
                0 <= k < j ==> (#[trigger] seen(staff@)[k]).person_id != seen(
                    staff@,
                )[i as int].person_id,
        decreases i - j,
    {
        if same(staff[j].person_id.as_str(), staff[i].person_id.as_str()) {
            proof {
                assert(seen(staff@)[j as int].person_id == seen(staff@)[i as int].person_id);
            }
            return true;
        }
        j = j + 1;
    }
    false
}

fn check_roster(view: &OrgView, head: &str, staff: &[DepartmentStaffSeed]) -> (r: Result<
    (),
    CreateDepartmentRefusal,
>)
    requires
        view.wf(),
    ensures
        match r {
            Ok(()) => roster_refusal(view@, head@, seen(staff@), 0) is None,
            Err(e) => roster_refusal(view@, head@, seen(staff@), 0) == Some(e@),
        },
{
    let mut i: usize = 0;
    while i < staff.len()
        invariant
            i <= staff@.len(),
            view.wf(),
            roster_refusal(view@, head@, seen(staff@), 0) == roster_refusal(
                view@,
                head@,
                seen(staff@),
                i as int,
            ),
        decreases staff@.len() - i,
    {
        proof {
            assert(seen(staff@)[i as int] == staff@[i as int]@);
        }
        let member = &staff[i];
        let n = decimal_text(i as u64);
        if !valid_entity_id(member.person_id.as_str()) {
            let field = cat3("staff[", n.as_str(), "].personId");
            return Err(invalid_id(field.as_str(), member.person_id.as_str()));
        }
        if roster_names_before(head, staff, i) || view.people.has(member.person_id.as_str()) {
            return Err(CreateDepartmentRefusal::DuplicatePersonId);
        }
        let prefix = cat3("staff[", n.as_str(), "].");
        let borrowed = member.seed.as_ref();
        match check_seed(&borrowed, PersonKind::Worker, prefix.as_str()) {
            Ok(()) => {},
            Err(e) => {
                return Err(e);
            },
        }
        i = i + 1;
    }
    Ok(())
}

/// Whether a department may be created, or the exact refusal. The one
/// definition of the rules, for the writer and for a caller that asks first.
pub fn check_department_create(view: &OrgView, proposal: &DepartmentCreateProposal<'_>) -> (r:
    Result<(), CreateDepartmentRefusal>)
    requires
        view.wf(),
    ensures
        match r {
            Ok(()) => create_refusal(view@, proposal@) is None,
            Err(e) => create_refusal(view@, proposal@) == Some(e@),
        },
{
    match check_contract(proposal.unit) {
        Ok(()) => {},
        Err(e) => {
            return Err(e);
        },
    }
    match department_state(view, proposal.parent_id) {
        None => {
            return Err(CreateDepartmentRefusal::UnknownParent);
        },
        Some(_) => {},
    }
    if department_or_ancestor_is_paused(view, proposal.parent_id) {
        return Err(CreateDepartmentRefusal::ParentPaused);
    }
    if department_state(view, proposal.department_id).is_some() {
        return Err(CreateDepartmentRefusal::DuplicateDepartmentId);
    }
    if let Some(requester) = proposal.requester_person_id {
        if !person_may_create_under_department(view, requester, proposal.parent_id) {
            return Err(CreateDepartmentRefusal::RequesterOutOfScope);
        }
    }
    if is_blank(proposal.department_id) {
        return Err(invalid_blank("departmentId"));
    }
    if is_blank(proposal.name) {
        return Err(invalid_blank("name"));
    }
    if is_blank(proposal.purpose) {
        return Err(invalid_blank("purpose"));
    }
    if !valid_entity_id(proposal.department_id) {
        return Err(invalid_id("departmentId", proposal.department_id));
    }
    match check_head(view, proposal) {
        Ok(()) => {},
        Err(e) => {
            return Err(e);
        },
    }
    check_roster(view, proposal.head.person_id(), proposal.staff)
}

// ---------------------------------------------------------------------------
// May this person be hired?
// ---------------------------------------------------------------------------

/// Why somebody may not be hired, if they may not. Which of several refusals
/// comes is decided by this order: the id's shape, the seed, the destination
/// unknown or stopped, the requester, the id taken.
pub open spec fn hire_refusal(o: OrgModel, p: HireModel) -> Option<HireRefusalModel> {
    if !entity_id(p.person_id) {
        Some(
            HireRefusalModel::InvalidSeed { field: "personId"@, detail: id_rule_text(p.person_id) },
        )
    } else {
        match seed_rejection(p.seed, PersonKind::Worker) {
            Some(e) => Some(HireRefusalModel::InvalidSeed { field: e.field, detail: e.detail }),
            None => {
                if !o.departments.dom().contains(p.department_id) {
                    Some(HireRefusalModel::UnknownDepartment)
                } else if stopped(o.departments, p.department_id) {
                    Some(HireRefusalModel::DestinationPaused)
                } else if (p.requester matches Some(r) && !manages(o, r, p.department_id)) {
                    Some(HireRefusalModel::RequesterOutOfScope)
                } else if o.people.dom().contains(p.person_id) {
                    Some(HireRefusalModel::DuplicatePersonId)
                } else {
                    None
                }
            },
        }
    }
}

/// Whether somebody may be hired, or the exact refusal.
pub fn check_hire(view: &OrgView, proposal: &HireProposal<'_>) -> (r: Result<(), HireRefusal>)
    requires
        view.wf(),
    ensures
        match r {
            Ok(()) => hire_refusal(view@, proposal@) is None,
            Err(e) => hire_refusal(view@, proposal@) == Some(e@),
        },
{
    if !valid_entity_id(proposal.person_id) {
        let shown = echo(proposal.person_id);
        return Err(
            HireRefusal::InvalidSeed {
                field: owned("personId"),
                detail: cat3(ENTITY_ID_RULE, "; got ", shown.as_str()),
            },
        );
    }
    match validate_new_person_seed(proposal.seed, PersonKind::Worker) {
        Ok(()) => {},
        Err(rejection) => {
            return Err(
                HireRefusal::InvalidSeed { field: rejection.field, detail: rejection.detail },
            );
        },
    }
    match department_state(view, proposal.department_id) {
        None => {
            return Err(HireRefusal::UnknownDepartment);
        },
        Some(_) => {},
    }
    if department_or_ancestor_is_paused(view, proposal.department_id) {
        return Err(HireRefusal::DestinationPaused);
    }
    if let Some(requester) = proposal.requester_person_id {
        if !person_manages_department(view, requester, proposal.department_id) {
            return Err(HireRefusal::RequesterOutOfScope);
        }
    }
    if view.people.has(proposal.person_id) {
        return Err(HireRefusal::DuplicatePersonId);
    }
    Ok(())
}

// ---------------------------------------------------------------------------
// The manifest as it would be
// ---------------------------------------------------------------------------

/// A manifest with the person a seed describes, in a unit, last in order.
pub open spec fn with_person(
    m: ManifestModel,
    person: Text,
    department: Text,
    seed: SeedModel,
    at: Text,
) -> ManifestModel {
    ManifestModel {
        people: m.people.insert(
            person,
            PersonRecordModel {
                id: person,
                name: seed.name,
                title: seed.title,
                mandate: seed.mandate,
                kind: seed.kind,
                department_id: department,
                employment_state: seed.employment_state,
                activation: seed.activation,
                tools: seed.tools,
                prompts: seed.prompts,
                created_at: at,
                staffing_history: None,
                extra: Map::empty(),
            },
        ),
        people_order: m.people_order.push(person),
        ..m
    }
}

/// A manifest with the first `n` of a roster.
pub open spec fn with_roster(
    m: ManifestModel,
    staff: Seq<StaffModel>,
    department: Text,
    at: Text,
    n: nat,
) -> ManifestModel
    decreases n,
{
    if n == 0 {
        m
    } else {
        let member = staff[n - 1];
        with_person(
            with_roster(m, staff, department, at, (n - 1) as nat),
            member.person_id,
            department,
            member.seed,
            at,
        )
    }
}

/// Being another id than this.
pub open spec fn other_than(id: Text) -> spec_fn(Text) -> bool {
    |d: Text| d != id
}

/// A manifest in which a headship has ended: the successor promoted, or the
/// emptied unit gone.
pub open spec fn with_vacancy(
    m: ManifestModel,
    vacated: Text,
    decision: HeadVacancyModel,
) -> ManifestModel {
    match decision {
        HeadVacancyModel::HandOver { successor_person_id } => ManifestModel {
            departments: if m.departments.dom().contains(vacated) {
                m.departments.insert(
                    vacated,
                    DepartmentRecordModel {
                        head_person_id: successor_person_id,
                        ..m.departments[vacated]
                    },
                )
            } else {
                m.departments
            },
            people: if m.people.dom().contains(successor_person_id) {
                m.people.insert(
                    successor_person_id,
                    PersonRecordModel { kind: PersonKind::Head, ..m.people[successor_person_id] },
                )
            } else {
                m.people
            },
            ..m
        },
        HeadVacancyModel::Dissolve => ManifestModel {
            departments: m.departments.remove(vacated),
            department_order: those_where(m.department_order, other_than(vacated)),
            ..m
        },
    }
}

/// A manifest in which the head decision has been carried out.
pub open spec fn with_head(m: ManifestModel, p: CreateModel) -> ManifestModel {
    match p.head {
        HeadDecisionModel::AppointExisting { person_id } => {
            let left = match (p.vacates, headed_by(shape_of(m).departments, person_id)) {
                (Some(decision), Some(vacated)) => with_vacancy(m, vacated, decision),
                _ => m,
            };
            ManifestModel {
                people: left.people.insert(
                    person_id,
                    PersonRecordModel {
                        kind: PersonKind::Head,
                        department_id: p.department_id,
                        ..left.people[person_id]
                    },
                ),
                ..left
            }
        },
        HeadDecisionModel::HireNew { person_id, seed } => with_person(
            m,
            person_id,
            p.department_id,
            seed,
            p.at,
        ),
    }
}

/// A manifest in which a department has been created: the head decision
/// carried out, the unit last in order, and its roster after it.
pub open spec fn with_department(m: ManifestModel, p: CreateModel) -> ManifestModel {
    let headed = with_head(m, p);
    let placed = ManifestModel {
        departments: headed.departments.insert(
            p.department_id,
            DepartmentRecordModel {
                id: p.department_id,
                name: p.name,
                purpose: p.purpose,
                kind: Some(p.unit.kind()),
                transient: p.unit.transient(),
                parent_department_id: Some(p.parent_id),
                head_person_id: p.head.person_id(),
                state: UnitState::Active,
                created_at: p.at,
                extra: Map::empty(),
            },
        ),
        department_order: headed.department_order.push(p.department_id),
        ..headed
    };
    ManifestModel {
        updated_at: p.at,
        ..with_roster(placed, p.staff, p.department_id, p.at, p.staff.len())
    }
}

fn list_without(v: &Vec<String>, out_id: &str) -> (r: Vec<String>)
    ensures
        seen(r@) == those_where(seen(v@), other_than(out_id@)),
{
    let ghost p = other_than(out_id@);
    let ghost q = seen(v@);
    let mut out: Vec<String> = Vec::new();
    let mut i: usize = 0;
    while i < v.len()
        invariant
            i <= v@.len(),
            q == seen(v@),
            p == other_than(out_id@),
            seen(out@) == those_where(q.take(i as int), p),
        decreases v@.len() - i,
    {
        proof {
            assert(q.take(i + 1).drop_last() =~= q.take(i as int));
            assert(q.take(i + 1).last() == v@[i as int]@);
        }
        let ghost before = seen(out@);
        if !same(v[i].as_str(), out_id) {
            out.push(v[i].clone());
            proof {
                assert(seen(out@) =~= before.push(v@[i as int]@));
            }
        }
        i = i + 1;
    }
    proof {
        assert(q.take(i as int) =~= q);
    }
    out
}

/// End a headship in a manifest: promote the named successor, or take the
/// emptied unit out.
pub fn apply_head_vacancy(
    projected: &mut OrganizationManifest,
    vacated: &str,
    decision: &HeadVacancy,
)
    requires
        old(projected).wf(),
    ensures
        final(projected).wf(),
        final(projected)@ == with_vacancy(old(projected)@, vacated@, decision@),
{
    match decision {
        HeadVacancy::HandOver { successor_person_id } => {
            let unit = match projected.departments.get(vacated) {
                Some(u) => Some(u.duplicate()),
                None => None,
            };
            if let Some(u) = unit {
                let mut next = u;
                next.head_person_id = successor_person_id.clone();
                projected.departments.put(vacated, next);
            }
            let person = match projected.people.get(successor_person_id.as_str()) {
                Some(p) => Some(p.duplicate()),
                None => None,
            };
            if let Some(p) = person {
                let mut next = p;
                next.kind = PersonKind::Head;
                projected.people.put(successor_person_id.as_str(), next);
            }
        },
        HeadVacancy::Dissolve => {
            projected.departments.take_out(vacated);
            let order = list_without(&projected.department_order, vacated);
            projected.department_order = order;
        },
    }
}

/// Add the person a seed describes to a manifest.
fn insert_projected_person(
    projected: &mut OrganizationManifest,
    person_id: &str,
    department_id: &str,
    seed: &NewPersonSeed<'_>,
    at: &str,
)
    requires
        old(projected).wf(),
    ensures
        final(projected).wf(),
        final(projected)@ == with_person(
            old(projected)@,
            person_id@,
            department_id@,
            seed@,
            at@,
        ),
{
    let ghost before = seen(projected.people_order@);
    projected.people.put(
        person_id,
        PersonRecord {
            id: owned(person_id),
            name: owned(seed.name),
            title: owned(seed.title),
            mandate: owned(seed.mandate),
            kind: seed.kind,
            department_id: owned(department_id),
            employment_state: seed.employment_state,
            activation: owned(seed.activation),
            tools: owned_slice(seed.tools),
            prompts: owned_slice(seed.prompts),
            created_at: owned(at),
            staffing_history: None,
            extra: OpenFields::new(),
        },
    );
    projected.people_order.push(owned(person_id));
    proof {
        assert(seen(projected.people_order@) =~= before.push(person_id@));
    }
}

fn project_head(
    projected: &mut OrganizationManifest,
    manifest: &OrganizationManifest,
    proposal: &DepartmentCreateProposal<'_>,
)
    requires
        old(projected).wf(),
        manifest.wf(),
        old(projected)@ == manifest@,
        head_refusal(shape_of(manifest@), proposal@) is None,
    ensures
        final(projected).wf(),
        final(projected)@ == with_head(manifest@, proposal@),
{
    match proposal.head {
        HeadDecision::AppointExisting { person_id } => {
            if let Some(decision) = proposal.head_vacates {
                let view = OrgView::from_manifest(manifest);
                if let Some(vacated) = department_headed_by_person(&view, person_id.as_str()) {
                    apply_head_vacancy(projected, vacated, decision);
                }
            }
            let promoted = match projected.people.get(person_id.as_str()) {
                Some(p) => Some(p.duplicate()),
                None => None,
            };
            if let Some(p) = promoted {
                let mut next = p;
                next.kind = PersonKind::Head;
                next.department_id = owned(proposal.department_id);
                projected.people.put(person_id.as_str(), next);
            }
        },
        HeadDecision::HireNew { person_id, seed } => {
            let borrowed = OwnedNewPersonSeed::as_ref(&**seed);
            insert_projected_person(
                projected,
                person_id.as_str(),
                proposal.department_id,
                &borrowed,
                proposal.at,
            );
        },
    }
}

/// The manifest as it would be after this department create, or the exact
/// refusal.
pub fn project_department_create(
    manifest: &OrganizationManifest,
    proposal: &DepartmentCreateProposal<'_>,
) -> (r: Result<OrganizationManifest, CreateDepartmentRefusal>)
    requires
        manifest.wf(),
    ensures
        match r {
            Ok(projected) => projected.wf() && create_refusal(shape_of(manifest@), proposal@)
                is None && projected@ == with_department(manifest@, proposal@),
            Err(e) => create_refusal(shape_of(manifest@), proposal@) == Some(e@),
        },
{
    let view = OrgView::from_manifest(manifest);
    match check_department_create(&view, proposal) {
        Ok(()) => {},
        Err(e) => {
            return Err(e);
        },
    }
    let mut projected = manifest.copy_all();
    project_head(&mut projected, manifest, proposal);
    let ghost headed = projected@;
    let transient = match proposal.unit.transient() {
        Some(c) => Some(c.duplicate()),
        None => None,
    };
    projected.departments.put(
        proposal.department_id,
        DepartmentRecord {
            id: owned(proposal.department_id),
            name: owned(proposal.name),
            purpose: owned(proposal.purpose),
            kind: Some(proposal.unit.kind()),
            transient,
            parent_department_id: Some(owned(proposal.parent_id)),
            head_person_id: owned(proposal.head.person_id()),
            state: UnitState::Active,
            created_at: owned(proposal.at),
            extra: OpenFields::new(),
        },
    );
    projected.department_order.push(owned(proposal.department_id));
    proof {
        assert(seen(projected.department_order@) =~= headed.department_order.push(
            proposal@.department_id,
        ));
    }
    let ghost placed = projected@;
    let mut i: usize = 0;
    while i < proposal.staff.len()
        invariant
            i <= proposal.staff@.len(),
            projected.wf(),
            projected@ == with_roster(
                placed,
                proposal@.staff,
                proposal@.department_id,
                proposal@.at,
                i as nat,
            ),
        decreases proposal.staff@.len() - i,
    {
        let member = &proposal.staff[i];
        let borrowed = member.seed.as_ref();
        proof {
            assert(proposal@.staff[i as int] == proposal.staff@[i as int]@);
        }
        insert_projected_person(
            &mut projected,
            member.person_id.as_str(),
            proposal.department_id,
            &borrowed,
            proposal.at,
        );
        i = i + 1;
    }
    projected.updated_at = owned(proposal.at);
    Ok(projected)
}

/// The manifest as it would be after this hire, or the exact refusal.
pub fn project_hire(manifest: &OrganizationManifest, proposal: &HireProposal<'_>) -> (r: Result<
    OrganizationManifest,
    HireRefusal,
>)
    requires
        manifest.wf(),
    ensures
        match r {
            Ok(projected) => projected.wf() && hire_refusal(shape_of(manifest@), proposal@) is None
                && projected@ == (ManifestModel {
                updated_at: proposal@.at,
                ..with_person(
                    manifest@,
                    proposal@.person_id,
                    proposal@.department_id,
                    proposal@.seed,
                    proposal@.at,
                )
            }),
            Err(e) => hire_refusal(shape_of(manifest@), proposal@) == Some(e@),
        },
{
    let view = OrgView::from_manifest(manifest);
    match check_hire(&view, proposal) {
        Ok(()) => {},
        Err(e) => {
            return Err(e);
        },
    }
    let mut projected = manifest.copy_all();
    insert_projected_person(
        &mut projected,
        proposal.person_id,
        proposal.department_id,
        proposal.seed,
        proposal.at,
    );
    projected.updated_at = owned(proposal.at);
    Ok(projected)
}

/// A manifest without units or people, standing in for a company that has not
/// been created: a create there is refused for its parent, a hire for its
/// department, in the ordinary order.
pub fn empty_manifest(slug: &str) -> (r: OrganizationManifest)
    ensures
        r.wf(),
        r@ == (ManifestModel {
            schema_version: ORGANIZATION_SCHEMA_VERSION,
            kind: "organization"@,
            slug: slug@,
            name: Seq::empty(),
            purpose: Seq::empty(),
            root_department_id: ROOT_DEPARTMENT_ID@,
            policy: OrganizationPolicy {
                supervision_interval_ms: 0,
                acknowledgement_timeout_ms: 0,
                acknowledgement_retry_limit: 0,
                replacement_limit: 0,
            },
            department_order: Seq::empty(),
            people_order: Seq::empty(),
            departments: Map::empty(),
            people: Map::empty(),
            created_at: Seq::empty(),
            updated_at: Seq::empty(),
            extra: Map::empty(),
        }),
{
    let r = OrganizationManifest {
        schema_version: ORGANIZATION_SCHEMA_VERSION,
        kind: owned("organization"),
        slug: owned(slug),
        name: String::new(),
        purpose: String::new(),
        root_department_id: owned(ROOT_DEPARTMENT_ID),
        policy: OrganizationPolicy {
            supervision_interval_ms: 0,
            acknowledgement_timeout_ms: 0,
            acknowledgement_retry_limit: 0,
            replacement_limit: 0,
        },
        department_order: Vec::new(),
        people_order: Vec::new(),
        departments: Table::new(),
        people: Table::new(),
        created_at: String::new(),
        updated_at: String::new(),
        extra: OpenFields::new(),
    };
    proof {
        assert(seen(r.department_order@) =~= Seq::<Text>::empty());
        assert(seen(r.people_order@) =~= Seq::<Text>::empty());
    }
    r
}

} // verus!
