//! Failures of discovery and synchronization.
use vstd::prelude::*;

verus! {

/// Why a chain fetch, a discovery run or a checkpoint operation failed.
#[derive(Debug, PartialEq, Eq)]
pub enum AMMError {
    /// The chain endpoint could not be reached or timed out.
    MiddlewareError(String),
    /// A contract call was rejected by the chain.
    ContractError(String),
    /// The batch was too large to execute (gas or response size); the
    /// window is split and retried.
    GasOrSizeError,
    /// The response for this address did not have the expected shape.
    BatchRequestError(ethers::types::H160),
    /// The pool at this address has a zero token or a zero reserve.
    PoolDataError(ethers::types::H160),
    /// A checkpoint could not be read or written.
    CheckpointError(String),
}

impl AMMError {
    /// Whether this failure asks for a smaller batch.
    pub fn is_too_large(&self) -> (r: bool)
        ensures
            r == (*self is GasOrSizeError),
    {
        match self {
            AMMError::GasOrSizeError => true,
            _ => false,
        }
    }
}

} // verus!
