use vstd::prelude::*;

verus! {

/// Why a request could not be answered.
#[derive(Clone, Copy, Debug, PartialEq, Eq, Structural)]
pub enum ServiceError {
    /// A provider could not be reached or did not answer with JSON.
    UpstreamUnavailable,
    /// A provider answered, but a field that the service needs is missing
    /// or has the wrong type.
    UpstreamSchemaMismatch,
    /// The request held a malformed coordinate or date.
    InvalidInput,
}

} // verus!
