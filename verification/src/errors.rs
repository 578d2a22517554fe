use vstd::prelude::*;

verus! {

/// Why a run stops: the connection string is missing from the environment,
/// the store cannot be reached, or a read or write at the store failed.
#[derive(Clone, Copy, Debug, PartialEq, Eq, Structural)]
pub enum RunError {
    ConfigurationError,
    ConnectionError,
    QueryError,
}

} // verus!
