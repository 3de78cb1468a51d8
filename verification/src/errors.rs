//! Error taxonomy for every operation the library exposes.

use vstd::prelude::*;

verus! {

use vstd::string::StringExecFns;

/// One failure category per kind of trouble an operation can meet.
/// `StateConflict` marks the no-op cases (start while running, stop while
/// stopped, delete while running) that a caller may render without alarm.
#[derive(Debug, PartialEq, Eq)]
pub enum AppError {
    Tauri(String),
    IoError(String),
    Process(String),
    Store(String),
    InvalidInput(String),
    Custom(String),
    TomlError(String),
    StateConflict(String),
}

/// The human-readable rendering of an error.
pub open spec fn message_of(e: &AppError) -> Seq<char> {
    match e {
        AppError::Tauri(m) => "Tauri error: "@ + m@,
        AppError::IoError(m) => "IO error: "@ + m@,
        AppError::Process(m) => "Process error: "@ + m@,
        AppError::Store(m) => "Store error: "@ + m@,
        AppError::InvalidInput(m) => "Invalid input: "@ + m@,
        AppError::Custom(m) => "Error: "@ + m@,
        AppError::TomlError(m) => "Toml error: "@ + m@,
        AppError::StateConflict(m) => "State conflict: "@ + m@,
    }
}

impl AppError {
    /// Renders the error for a caller, category first.
    pub fn to_message(&self) -> (r: String)
        ensures
            r@ == message_of(self),
    {
        match self {
            AppError::Tauri(m) => String::from_str("Tauri error: ").concat(m.as_str()),
            AppError::IoError(m) => String::from_str("IO error: ").concat(m.as_str()),
            AppError::Process(m) => String::from_str("Process error: ").concat(
                m.as_str(),
            ),
            AppError::Store(m) => String::from_str("Store error: ").concat(m.as_str()),
            AppError::InvalidInput(m) => String::from_str("Invalid input: ").concat(
                m.as_str(),
            ),
            AppError::Custom(m) => String::from_str("Error: ").concat(m.as_str()),
            AppError::TomlError(m) => String::from_str("Toml error: ").concat(
                m.as_str(),
            ),
            AppError::StateConflict(m) => String::from_str("State conflict: ").concat(
                m.as_str(),
            ),
        }
    }
}

impl<'a> From<&'a str> for AppError {
    fn from(err: &'a str) -> (r: Self) {
        AppError::Custom(String::from_str(err))
    }
}

impl<'a> vstd::std_specs::convert::FromSpecImpl<&'a str> for AppError {
    open spec fn obeys_from_spec() -> bool {
        false
    }

    open spec fn from_spec(err: &'a str) -> Self {
        arbitrary()
    }
}

impl From<String> for AppError {
    fn from(err: String) -> (r: Self) {
        AppError::Custom(err)
    }
}

impl vstd::std_specs::convert::FromSpecImpl<String> for AppError {
    open spec fn obeys_from_spec() -> bool {
        true
    }

    open spec fn from_spec(err: String) -> Self {
        AppError::Custom(err)
    }
}

} // verus!
