//! The error of a whole-company operation.

use vstd::prelude::*;

use crate::text::{owned, Text};

verus! {

/// Why a whole-company operation did nothing.
#[derive(Debug, Clone, PartialEq, Eq)]
pub enum ChiefdError {
    /// The company as it is rules the operation out.
    Refused {
        /// The machine code.
        code: String,
        /// One line for people.
        detail: String,
    },
}

/// Why a whole-company operation did nothing, as read.
pub struct ErrorModel {
    /// The machine code.
    pub code: Text,
    /// One line for people.
    pub detail: Text,
}

impl View for ChiefdError {
    type V = ErrorModel;

    open spec fn view(&self) -> ErrorModel {
        match *self {
            ChiefdError::Refused { code, detail } => ErrorModel { code: code@, detail: detail@ },
        }
    }
}

impl ChiefdError {
    /// A refusal with this code and detail.
    pub fn refused(code: &str, detail: &str) -> (r: Self)
        ensures
            r@ == (ErrorModel { code: code@, detail: detail@ }),
    {
        ChiefdError::Refused { code: owned(code), detail: owned(detail) }
    }

    /// The machine code.
    pub fn code(&self) -> (r: &str)
        ensures
            r@ == self@.code,
    {
        match self {
            ChiefdError::Refused { code, .. } => code.as_str(),
        }
    }
}

} // verus!
