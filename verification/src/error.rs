use vstd::prelude::*;

verus! {

/// Every failure an operation of the cache can report.
#[derive(Debug, Clone, Copy, PartialEq, Eq, Structural)]
pub enum CacheError {
    Unauthenticated,
    Unauthorized,
    TierUnavailable,
    PolicyDenied,
    Miss,
    PopulationFailed,
    Timeout,
    Cancelled,
    StaleGeneration,
    SerializationFailed,
    ConfigurationError,
}

} // verus!
