use vstd::prelude::*;

verus! {

/// Why a connection was rejected.
#[derive(Clone, Copy, Debug, PartialEq, Eq, Structural)]
pub enum RejectReason {
    /// The access lists do not permit the address.
    DeniedByAccessList,
    /// The address connects too often; it may try again after this many
    /// milliseconds.
    RateLimited(u64),
}

/// What the gateway decides of one connection attempt.
#[derive(Clone, Copy, Debug, PartialEq, Eq, Structural)]
pub enum AdmissionDecision {
    Admit,
    Reject(RejectReason),
}

} // verus!
