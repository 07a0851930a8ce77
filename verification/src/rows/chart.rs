//! The chart's rows: units, people and the staffing history.

use vstd::prelude::*;

use crate::company::{
    Company, CompanyModel, DepartmentModel, DepartmentRow, Entity, EventOp, PersonModel, PersonRow,
    StaffingAction, StaffingEntry, StaffingModel,
};
use crate::org_ops::decisions::{CreateUnitModel, DepartmentCreateUnit};
use crate::org_ops::seeds::{NewPersonSeed, SeedModel};
use crate::org_view::{MemberModel, OrgModel, OrgView, PersonView, UnitModel, UnitView};
use crate::organization::{EmploymentState, PersonKind, UnitState};
use crate::table::{listing, Duplicate};
use crate::text::{lemma_seen_push, opt, owned, owned_opt, owned_slice, Text};

verus! {

/// What a unit's row comes to in the shape of the company.
pub open spec fn unit_of_row(r: DepartmentModel) -> UnitModel {
    UnitModel { parent: r.parent_id, head: r.head_person_id, state: r.state }
}

/// What a person's row comes to in the shape of the company.
pub open spec fn member_of_row(r: PersonModel) -> MemberModel {
    MemberModel { kind: r.kind, employment: r.employment_state, department: r.department_id }
}

impl CompanyModel {
    /// The shape of the company.
    pub open spec fn org(self) -> OrgModel {
        OrgModel {
            departments: self.departments.map_values(|r: DepartmentModel| unit_of_row(r)),
            people: self.people.map_values(|r: PersonModel| member_of_row(r)),
        }
    }

    /// The place behind every unit.
    pub open spec fn next_department_ordinal(self) -> u64 {
        listing(self.departments.dom()).len() as u64
    }

    /// The place behind everybody.
    pub open spec fn next_person_ordinal(self) -> u64 {
        listing(self.people.dom()).len() as u64
    }

    /// A unit comes under another, behind everything else.
    pub open spec fn set_parent(self, id: Text, parent: Text, at: Text) -> CompanyModel {
        (if self.departments.dom().contains(id) {
            CompanyModel {
                departments: self.departments.insert(
                    id,
                    DepartmentModel { parent_id: Some(parent), ordinal: self.next_department_ordinal(), updated_at: at, ..self.departments[id] },
                ),
                ..self
            }
        } else {
            self
        }).touch(Entity::Department, id, EventOp::Upsert)
    }

    /// A unit comes to be headed by somebody else.
    pub open spec fn set_department_head(self, id: Text, head: Text, at: Text) -> CompanyModel {
        (if self.departments.dom().contains(id) {
            CompanyModel {
                departments: self.departments.insert(
                    id,
                    DepartmentModel { head_person_id: head, updated_at: at, ..self.departments[id] },
                ),
                ..self
            }
        } else {
            self
        }).touch(Entity::Department, id, EventOp::Upsert)
    }

    /// A unit is stopped or set running.
    pub open spec fn set_department_state(self, id: Text, state: UnitState, at: Text) -> CompanyModel {
        (if self.departments.dom().contains(id) {
            CompanyModel {
                departments: self.departments.insert(
                    id,
                    DepartmentModel { state, updated_at: at, ..self.departments[id] },
                ),
                ..self
            }
        } else {
            self
        }).touch(Entity::Department, id, EventOp::Upsert)
    }

    /// A new unit, running, behind every other.
    pub open spec fn insert_department(
        self,
        id: Text,
        parent: Text,
        name: Text,
        purpose: Text,
        unit: CreateUnitModel,
        head: Text,
        at: Text,
    ) -> CompanyModel {
        CompanyModel {
            departments: self.departments.insert(
                id,
                DepartmentModel {
                    parent_id: Some(parent),
                    name,
                    purpose,
                    kind: unit.kind(),
                    transient: unit.transient(),
                    state: UnitState::Active,
                    head_person_id: head,
                    ordinal: self.next_department_ordinal(),
                    created_at: at,
                    updated_at: at,
                },
            ),
            ..self
        }.touch(Entity::Department, id, EventOp::Upsert)
    }

    /// A unit goes.
    pub open spec fn delete_department(self, id: Text) -> CompanyModel {
        CompanyModel { departments: self.departments.remove(id), ..self }.touch(
            Entity::Department,
            id,
            EventOp::Delete,
        )
    }

    /// A new person, behind everybody.
    pub open spec fn insert_person(self, id: Text, department: Text, seed: SeedModel, at: Text) -> CompanyModel {
        CompanyModel {
            people: self.people.insert(
                id,
                PersonModel {
                    name: seed.name,
                    title: seed.title,
                    mandate: seed.mandate,
                    kind: seed.kind,
                    employment_state: seed.employment_state,
                    department_id: department,
                    activation: seed.activation,
                    tools: seed.tools,
                    prompts: seed.prompts,
                    ordinal: self.next_person_ordinal(),
                    created_at: at,
                    updated_at: at,
                },
            ),
            ..self
        }.touch(Entity::Person, id, EventOp::Upsert)
    }

    /// Somebody comes to a unit.
    pub open spec fn move_person(self, id: Text, department: Text, at: Text) -> CompanyModel {
        (if self.people.dom().contains(id) {
            CompanyModel {
                people: self.people.insert(
                    id,
                    PersonModel { department_id: department, updated_at: at, ..self.people[id] },
                ),
                ..self
            }
        } else {
            self
        }).touch(Entity::Person, id, EventOp::Upsert)
    }

    /// Somebody gets another structural role.
    pub open spec fn set_person_kind(self, id: Text, kind: PersonKind, at: Text) -> CompanyModel {
        (if self.people.dom().contains(id) {
            CompanyModel {
                people: self.people.insert(
                    id,
                    PersonModel { kind, updated_at: at, ..self.people[id] },
                ),
                ..self
            }
        } else {
            self
        }).touch(Entity::Person, id, EventOp::Upsert)
    }

    /// Somebody is staffed differently.
    pub open spec fn set_employment_state(self, id: Text, employment: EmploymentState, at: Text) -> CompanyModel {
        (if self.people.dom().contains(id) {
            CompanyModel {
                people: self.people.insert(
                    id,
                    PersonModel { employment_state: employment, updated_at: at, ..self.people[id] },
                ),
                ..self
            }
        } else {
            self
        }).touch(Entity::Person, id, EventOp::Upsert)
    }

    /// One more line of the staffing history. It is a feed of its own and
    /// touches nothing.
    pub open spec fn append_staffing(
        self,
        person: Text,
        action: StaffingAction,
        from: Option<Text>,
        to: Option<Text>,
        reason: Text,
        at: Text,
    ) -> CompanyModel {
        CompanyModel {
            staffing: self.staffing.push(
                StaffingModel {
                    person_id: person,
                    action,
                    from_department_id: from,
                    to_department_id: to,
                    reason,
                    at,
                },
            ),
            ..self
        }
    }
}

/// The shape of a company, from the structural columns of its rows alone.
pub fn eligibility_view(company: &Company) -> (r: OrgView)
    requires
        company.wf(),
    ensures
        r.wf(),
        r@ == company@.org(),
{
    let mut values: Vec<UnitView> = Vec::new();
    let mut i: usize = 0;
    while i < company.departments.keys.len()
        invariant
            i <= company.departments.keys@.len(),
            company.wf(),
            values.len() == i,
            forall|j: int|
                0 <= j < i ==> (#[trigger] values@[j])@ == unit_of_row(
                    company.departments.values@[j]@,
                ),
        decreases company.departments.keys@.len() - i,
    {
        let row = &company.departments.values[i];
        values.push(
            UnitView {
                parent_department_id: owned_opt(&row.parent_id),
                head_person_id: row.head_person_id.clone(),
                state: row.state,
            },
        );
        i = i + 1;
    }
    let departments = company.departments.with_values(
        values,
        Ghost(|r: DepartmentModel| unit_of_row(r)),
    );
    let mut people_values: Vec<PersonView> = Vec::new();
    let mut k: usize = 0;
    while k < company.people.keys.len()
        invariant
            k <= company.people.keys@.len(),
            company.wf(),
            people_values.len() == k,
            forall|j: int|
                0 <= j < k ==> (#[trigger] people_values@[j])@ == member_of_row(
                    company.people.values@[j]@,
                ),
        decreases company.people.keys@.len() - k,
    {
        let row = &company.people.values[k];
        people_values.push(
            PersonView {
                kind: row.kind,
                employment_state: row.employment_state,
                department_id: row.department_id.clone(),
            },
        );
        k = k + 1;
    }
    let people = company.people.with_values(
        people_values,
        Ghost(|r: PersonModel| member_of_row(r)),
    );
    OrgView { departments, people }
}

/// A text that may be missing, owned.
pub fn owned_option(o: Option<&str>) -> (r: Option<String>)
    ensures
        opt(r) == opt(o),
{
    match o {
        Some(s) => Some(owned(s)),
        None => None,
    }
}

impl Company {
    /// The place behind every unit.
    pub fn next_department_ordinal(&self) -> (r: u64)
        requires
            self.wf(),
        ensures
            r == self@.next_department_ordinal(),
    {
        self.departments.len() as u64
    }

    /// The place behind everybody.
    pub fn next_person_ordinal(&self) -> (r: u64)
        requires
            self.wf(),
        ensures
            r == self@.next_person_ordinal(),
    {
        self.people.len() as u64
    }

    /// Put a unit under another, behind everything else.
    pub fn set_parent(&mut self, id: &str, parent: &str, at: &str)
        requires
            old(self).wf(),
        ensures
            final(self).wf(),
            final(self)@ == old(self)@.set_parent(id@, parent@, at@),
    {
        let ordinal: u64 = self.next_department_ordinal();
        if let Some(row) = self.departments.get(id) {
            let mut row = row.duplicate();
            row.parent_id = Some(owned(parent));
            row.ordinal = ordinal;
            row.updated_at = owned(at);
            self.departments.put(id, row);
        }
        self.touch(Entity::Department, id, EventOp::Upsert);
    }

    /// Give a unit another head.
    pub fn set_department_head(&mut self, id: &str, head: &str, at: &str)
        requires
            old(self).wf(),
        ensures
            final(self).wf(),
            final(self)@ == old(self)@.set_department_head(id@, head@, at@),
    {
        if let Some(row) = self.departments.get(id) {
            let mut row = row.duplicate();
            row.head_person_id = owned(head);
            row.updated_at = owned(at);
            self.departments.put(id, row);
        }
        self.touch(Entity::Department, id, EventOp::Upsert);
    }

    /// Stop a unit or set it running.
    pub fn set_department_state(&mut self, id: &str, state: UnitState, at: &str)
        requires
            old(self).wf(),
        ensures
            final(self).wf(),
            final(self)@ == old(self)@.set_department_state(id@, state, at@),
    {
        if let Some(row) = self.departments.get(id) {
            let mut row = row.duplicate();
            row.state = state;
            row.updated_at = owned(at);
            self.departments.put(id, row);
        }
        self.touch(Entity::Department, id, EventOp::Upsert);
    }

    /// Write a new unit, running, behind every other.
    pub fn insert_department(
        &mut self,
        id: &str,
        parent: &str,
        name: &str,
        purpose: &str,
        unit: &DepartmentCreateUnit,
        head: &str,
        at: &str,
    )
        requires
            old(self).wf(),
        ensures
            final(self).wf(),
            final(self)@ == old(self)@.insert_department(
                id@,
                parent@,
                name@,
                purpose@,
                unit@,
                head@,
                at@,
            ),
    {
        let transient = match unit {
            DepartmentCreateUnit::Department => None,
            DepartmentCreateUnit::Contract(metadata) => Some(metadata.duplicate()),
        };
        let row = DepartmentRow {
            parent_id: Some(owned(parent)),
            name: owned(name),
            purpose: owned(purpose),
            kind: unit.kind(),
            transient,
            state: UnitState::Active,
            head_person_id: owned(head),
            ordinal: self.next_department_ordinal(),
            created_at: owned(at),
            updated_at: owned(at),
        };
        self.departments.put(id, row);
        self.touch(Entity::Department, id, EventOp::Upsert);
    }

    /// Take a unit out.
    pub fn delete_department(&mut self, id: &str)
        requires
            old(self).wf(),
        ensures
            final(self).wf(),
            final(self)@ == old(self)@.delete_department(id@),
    {
        self.departments.take_out(id);
        self.touch(Entity::Department, id, EventOp::Delete);
    }

    /// Write a new person, behind everybody.
    pub fn insert_person(&mut self, id: &str, department: &str, seed: &NewPersonSeed<'_>, at: &str)
        requires
            old(self).wf(),
        ensures
            final(self).wf(),
            final(self)@ == old(self)@.insert_person(id@, department@, seed@, at@),
    {
        let row = PersonRow {
            name: owned(seed.name),
            title: owned(seed.title),
            mandate: owned(seed.mandate),
            kind: seed.kind,
            employment_state: seed.employment_state,
            department_id: owned(department),
            activation: owned(seed.activation),
            tools: owned_slice(seed.tools),
            prompts: owned_slice(seed.prompts),
            ordinal: self.next_person_ordinal(),
            created_at: owned(at),
            updated_at: owned(at),
        };
        self.people.put(id, row);
        self.touch(Entity::Person, id, EventOp::Upsert);
    }

    /// Put somebody into a unit.
    pub fn move_person(&mut self, id: &str, department: &str, at: &str)
        requires
            old(self).wf(),
        ensures
            final(self).wf(),
            final(self)@ == old(self)@.move_person(id@, department@, at@),
    {
        if let Some(row) = self.people.get(id) {
            let mut row = row.duplicate();
            row.department_id = owned(department);
            row.updated_at = owned(at);
            self.people.put(id, row);
        }
        self.touch(Entity::Person, id, EventOp::Upsert);
    }

    /// Give somebody another structural role.
    pub fn set_person_kind(&mut self, id: &str, kind: PersonKind, at: &str)
        requires
            old(self).wf(),
        ensures
            final(self).wf(),
            final(self)@ == old(self)@.set_person_kind(id@, kind, at@),
    {
        if let Some(row) = self.people.get(id) {
            let mut row = row.duplicate();
            row.kind = kind;
            row.updated_at = owned(at);
            self.people.put(id, row);
        }
        self.touch(Entity::Person, id, EventOp::Upsert);
    }

    /// Staff somebody differently.
    pub fn set_employment_state(&mut self, id: &str, employment: EmploymentState, at: &str)
        requires
            old(self).wf(),
        ensures
            final(self).wf(),
            final(self)@ == old(self)@.set_employment_state(id@, employment, at@),
    {
        if let Some(row) = self.people.get(id) {
            let mut row = row.duplicate();
            row.employment_state = employment;
            row.updated_at = owned(at);
            self.people.put(id, row);
        }
        self.touch(Entity::Person, id, EventOp::Upsert);
    }

    /// Write one more line of the staffing history.
    pub fn append_staffing(
        &mut self,
        person: &str,
        action: StaffingAction,
        from: Option<&str>,
        to: Option<&str>,
        reason: &str,
        at: &str,
    )
        requires
            old(self).wf(),
        ensures
            final(self).wf(),
            final(self)@ == old(self)@.append_staffing(
                person@,
                action,
                opt(from),
                opt(to),
                reason@,
                at@,
            ),
    {
        let entry = StaffingEntry {
            person_id: owned(person),
            action,
            from_department_id: owned_option(from),
            to_department_id: owned_option(to),
            reason: owned(reason),
            at: owned(at),
        };
        proof {
            lemma_seen_push(self.staffing@, entry);
        }
        self.staffing.push(entry);
    }
}

} // verus!
