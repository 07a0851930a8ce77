//! Reading and changing the rows of a company. Each change says what becomes
//! of the rows and notes what it touched; a decision is a run of changes, and
//! ends by turning what was noted into events.

pub mod chart;
pub mod feed;
pub mod ledger;
pub mod ordering;
