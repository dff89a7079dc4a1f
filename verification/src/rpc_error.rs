//! The errors the work-unit service reports to its clients.
use vstd::prelude::*;

verus! {

/// Why a work-unit request of a client failed.
#[derive(Debug)]
pub enum MinehouseError {
    WorkUnitNotFound,
    AlreadyLocked,
    NotLocked,
    DeadlineTooShort,
    NotYourWorkUnit,
    WorkUnitTimeout,
    SqlxError(String),
}

/// The text of an error.
pub open spec fn minehouse_error_text(error: MinehouseError) -> Seq<char> {
    match error {
        MinehouseError::WorkUnitNotFound => "work unit not found"@,
        MinehouseError::AlreadyLocked => "work unit already locked"@,
        MinehouseError::NotLocked => "work  unit not locked"@,
        MinehouseError::DeadlineTooShort => "deadline too short"@,
        MinehouseError::NotYourWorkUnit => "not your work unit"@,
        MinehouseError::WorkUnitTimeout => "timed out waiting for work unit"@,
        MinehouseError::SqlxError(detail) => "sqlx error: "@ + detail@,
    }
}

impl MinehouseError {
    /// The error's text.
    pub fn message(&self) -> (text: String)
        ensures
            text@ == minehouse_error_text(*self),
    {
        match self {
            MinehouseError::WorkUnitNotFound => String::from_str("work unit not found"),
            MinehouseError::AlreadyLocked => String::from_str("work unit already locked"),
            MinehouseError::NotLocked => String::from_str("work  unit not locked"),
            MinehouseError::DeadlineTooShort => String::from_str("deadline too short"),
            MinehouseError::NotYourWorkUnit => String::from_str("not your work unit"),
            MinehouseError::WorkUnitTimeout => String::from_str("timed out waiting for work unit"),
            MinehouseError::SqlxError(detail) => crate::ids::concat("sqlx error: ", detail.as_str()),
        }
    }
}

} // verus!
