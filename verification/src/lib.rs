//! The organization core: the rules by which a company's chart of departments
//! and people may change, and the row changes each decision makes.

pub mod company;
pub mod error;
pub mod isotime;
pub mod laws;
pub mod order;
pub mod org_ops;
pub mod org_projection;
pub mod org_settings;
pub mod org_view;
pub mod organization;
pub mod organization_spec;
pub mod rows;
pub mod table;
pub mod text;
