//! The closed set of ways in which one provider call can fail.

use vstd::prelude::*;

verus! {

/// Why a provider call produced no temperature.
#[derive(Debug, PartialEq, Eq, Clone, Copy, Structural)]
pub enum ApiError {
    /// The provider does not know the location.
    LocationNotFound,
    /// The deadline passed before the provider answered.
    Timeout,
    /// Anything else: a transport fault, a malformed or unexpected answer.
    Other,
}

/// `std::io::Error`: only taken, never read.
#[verifier::external_type_specification]
#[verifier::external_body]
pub struct ExIoError(std::io::Error);

impl ApiError {
    /// The variant's name.
    pub open spec fn label_text(self) -> Seq<char> {
        match self {
            ApiError::LocationNotFound => "LocationNotFound"@,
            ApiError::Timeout => "Timeout"@,
            ApiError::Other => "Other"@,
        }
    }

    /// A sentence for each variant.
    pub open spec fn description_text(self) -> Seq<char> {
        match self {
            ApiError::LocationNotFound => "Location wasnt found"@,
            ApiError::Timeout => "Connection timed out"@,
            ApiError::Other => "Other error"@,
        }
    }

    /// The variant's name, as it is shown to a reader.
    pub fn label(&self) -> (text: String)
        ensures
            text@ == self.label_text(),
    {
        match self {
            ApiError::LocationNotFound => String::from_str("LocationNotFound"),
            ApiError::Timeout => String::from_str("Timeout"),
            ApiError::Other => String::from_str("Other"),
        }
    }

    /// A short description of the failure.
    pub fn description(&self) -> (text: &'static str)
        ensures
            text@ == self.description_text(),
    {
        match self {
            ApiError::LocationNotFound => "Location wasnt found",
            ApiError::Timeout => "Connection timed out",
            ApiError::Other => "Other error",
        }
    }
}

impl vstd::std_specs::convert::FromSpecImpl<std::io::Error> for ApiError {
    open spec fn obeys_from_spec() -> bool {
        true
    }

    open spec fn from_spec(err: std::io::Error) -> ApiError {
        ApiError::Other
    }
}

impl From<std::io::Error> for ApiError {
    /// An I/O fault that was not classified more closely counts as `Other`.
    fn from(err: std::io::Error) -> (e: ApiError) {
        ApiError::Other
    }
}

} // verus!
