//! What a caller decides when a chart change needs a decision.

use vstd::prelude::*;

use crate::org_ops::seeds::{OwnedNewPersonSeed, SeedModel};
use crate::organization::{ContractMetadata, ContractModel, UnitKind};
use crate::text::{opt, Text};

verus! {

/// The head decision a department is created with. There is no headless
/// department.
#[derive(Debug, Clone, PartialEq, Eq)]
pub enum HeadDecision {
    /// Appoint an existing person, who moves into the department they head.
    AppointExisting {
        /// The existing person's id.
        person_id: String,
    },
    /// Hire a new person as the head.
    HireNew {
        /// The new person's id.
        person_id: String,
        /// Their seed.
        seed: Box<OwnedNewPersonSeed>,
    },
}

/// A head decision, as read.
pub enum HeadDecisionModel {
    /// Appoint an existing person.
    AppointExisting {
        /// The existing person's id.
        person_id: Text,
    },
    /// Hire a new person.
    HireNew {
        /// The new person's id.
        person_id: Text,
        /// Their seed.
        seed: SeedModel,
    },
}

impl View for HeadDecision {
    type V = HeadDecisionModel;

    open spec fn view(&self) -> HeadDecisionModel {
        match *self {
            HeadDecision::AppointExisting { person_id } => HeadDecisionModel::AppointExisting {
                person_id: person_id@,
            },
            HeadDecision::HireNew { person_id, seed } => HeadDecisionModel::HireNew {
                person_id: person_id@,
                seed: (*seed)@,
            },
        }
    }
}

impl HeadDecisionModel {
    /// The head's id, whichever decision this is.
    pub open spec fn person_id(self) -> Text {
        match self {
            HeadDecisionModel::AppointExisting { person_id } => person_id,
            HeadDecisionModel::HireNew { person_id, .. } => person_id,
        }
    }
}

impl HeadDecision {
    /// The head's id, whichever decision this is.
    pub fn person_id(&self) -> (r: &str)
        ensures
            r@ == self@.person_id(),
    {
        match self {
            HeadDecision::AppointExisting { person_id } => person_id.as_str(),
            HeadDecision::HireNew { person_id, .. } => person_id.as_str(),
        }
    }
}

/// What becomes of the department somebody already heads when they leave it.
#[derive(Debug, Clone, PartialEq, Eq)]
pub enum HeadVacancy {
    /// Promote this member of the vacated department to head it.
    HandOver {
        /// A member of the vacated department, employed, not the outgoing head.
        successor_person_id: String,
    },
    /// Remove the emptied department.
    Dissolve,
}

/// A vacancy decision, as read.
pub enum HeadVacancyModel {
    /// Promote this member.
    HandOver {
        /// The member.
        successor_person_id: Text,
    },
    /// Remove the emptied department.
    Dissolve,
}

impl View for HeadVacancy {
    type V = HeadVacancyModel;

    open spec fn view(&self) -> HeadVacancyModel {
        match *self {
            HeadVacancy::HandOver { successor_person_id } => HeadVacancyModel::HandOver {
                successor_person_id: successor_person_id@,
            },
            HeadVacancy::Dissolve => HeadVacancyModel::Dissolve,
        }
    }
}

/// One new worker of a department's initial roster.
#[derive(Debug, Clone, PartialEq, Eq)]
pub struct DepartmentStaffSeed {
    /// Their id.
    pub person_id: String,
    /// Their seed.
    pub seed: OwnedNewPersonSeed,
}

/// One new worker of a department's initial roster, as read.
pub struct StaffModel {
    /// Their id.
    pub person_id: Text,
    /// Their seed.
    pub seed: SeedModel,
}

impl View for DepartmentStaffSeed {
    type V = StaffModel;

    open spec fn view(&self) -> StaffModel {
        StaffModel { person_id: self.person_id@, seed: self.seed@ }
    }
}

/// The kind of unit a create makes: always a child, never the root.
#[derive(Debug, Clone, PartialEq, Eq)]
pub enum DepartmentCreateUnit {
    /// An ordinary department.
    Department,
    /// A transient contract.
    Contract(ContractMetadata),
}

/// The kind of unit a create makes, as read.
pub enum CreateUnitModel {
    /// An ordinary department.
    Department,
    /// A transient contract.
    Contract(ContractModel),
}

impl View for DepartmentCreateUnit {
    type V = CreateUnitModel;

    open spec fn view(&self) -> CreateUnitModel {
        match *self {
            DepartmentCreateUnit::Department => CreateUnitModel::Department,
            DepartmentCreateUnit::Contract(metadata) => CreateUnitModel::Contract(metadata@),
        }
    }
}

impl CreateUnitModel {
    /// The unit's kind.
    pub open spec fn kind(self) -> UnitKind {
        match self {
            CreateUnitModel::Department => UnitKind::Department,
            CreateUnitModel::Contract(_) => UnitKind::Contract,
        }
    }

    /// What a contract carries.
    pub open spec fn transient(self) -> Option<ContractModel> {
        match self {
            CreateUnitModel::Department => None,
            CreateUnitModel::Contract(metadata) => Some(metadata),
        }
    }
}

impl DepartmentCreateUnit {
    /// The unit's kind.
    pub fn kind(&self) -> (r: UnitKind)
        ensures
            r == self@.kind(),
    {
        match self {
            DepartmentCreateUnit::Department => UnitKind::Department,
            DepartmentCreateUnit::Contract(_) => UnitKind::Contract,
        }
    }

    /// What a contract carries.
    pub fn transient(&self) -> (r: Option<&ContractMetadata>)
        ensures
            opt(r) == self@.transient(),
    {
        match self {
            DepartmentCreateUnit::Department => None,
            DepartmentCreateUnit::Contract(metadata) => Some(metadata),
        }
    }
}

/// How a movement verb treats somebody who heads their own department.
#[derive(Debug, Clone, Copy)]
pub enum HeadMoveRule<'a> {
    /// A head may go, carrying the caller's decision about their department.
    Vacates(Option<&'a HeadVacancy>),
    /// A head never goes by this verb.
    Refuse,
}

/// How a movement verb treats a head, as read.
pub enum HeadMoveModel {
    /// A head may go, carrying the caller's decision.
    Vacates(Option<HeadVacancyModel>),
    /// A head never goes by this verb.
    Refuse,
}

impl<'a> View for HeadMoveRule<'a> {
    type V = HeadMoveModel;

    open spec fn view(&self) -> HeadMoveModel {
        match *self {
            HeadMoveRule::Vacates(decision) => HeadMoveModel::Vacates(opt(decision)),
            HeadMoveRule::Refuse => HeadMoveModel::Refuse,
        }
    }
}

} // verus!
