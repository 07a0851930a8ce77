//! The decisions by which a company's chart changes. Each asks its questions
//! first and then changes every row it changes, or none.

pub mod appoint;
pub mod attach;
pub mod bench;
pub mod create;
pub mod decisions;
pub mod departures;
pub mod guards;
pub mod lifecycle;
pub mod pause;
pub mod refusals;
pub mod reparent;
pub mod seeds;
pub mod shutdown;
pub mod transfer;
pub mod vacancy;

pub use crate::org_ops::appoint::appoint_department_head;
pub use crate::org_ops::attach::prepare_ceo_only;
pub use crate::org_ops::bench::{bench_person, bench_person_lifecycle};
pub use crate::org_ops::create::{
    create_department, create_department_with_staff, create_department_with_staff_unit,
    hire_person, hire_person_authorized,
};
pub use crate::org_ops::decisions::{
    DepartmentCreateUnit, DepartmentStaffSeed, HeadDecision, HeadMoveRule, HeadVacancy,
};
pub use crate::org_ops::departures::{
    offboard_person, remove_department_tree, replace_head_and_offboard,
};
pub use crate::org_ops::guards::{
    actor_names_a_person, department_is_company_root, is_ceo, RowError,
};
pub use crate::org_ops::lifecycle::{
    reactivate_executive_root, recall_person, start_person, wake_person,
};
pub use crate::org_ops::pause::{pause_department, resume_department, resume_departments};
pub use crate::org_ops::refusals::{
    AppointOutcome, AppointRefusal, BenchCompletionKey, BenchLifecycleOutcome, BenchOutcome,
    BenchRefusal, CreateDepartmentOutcome, CreateDepartmentRefusal, DirectOutcome,
    HeadIneligibility, HeadVacancyRefusal, HireOutcome, HireRefusal, OffboardOutcome,
    OffboardRefusal, PauseOutcome, PauseRefusal, RemoveDepartmentOutcome, ReparentOutcome,
    ReparentRefusal, ShutdownOutcome, ShutdownRefusal, TransferOutcome, TransferRefusal,
    VacancyRefusal,
};
pub use crate::org_ops::reparent::reparent_department;
pub use crate::org_ops::seeds::{
    valid_entity_id, valid_prompt_template, validate_new_person_seed, NewPersonSeed,
    OwnedNewPersonSeed, SeedRejection, ENTITY_ID_RULE,
};
pub use crate::org_ops::shutdown::{shutdown_person, ShutdownKind};
pub use crate::org_ops::transfer::{move_department_members, transfer_person};
