//! The rule that decides whether a proposal overwrites the stored register.

use crate::codec::VersionedValue;
use vstd::prelude::*;

verus! {

/// A proposal wins only with a ballot strictly greater than the current one;
/// a tie loses.
pub open spec fn beats(proposal_ballot: u64, current_ballot: u64) -> bool {
    proposal_ballot > current_ballot
}

/// What the rule decided for one proposal.
#[derive(Debug, Clone, PartialEq, Eq)]
pub enum Decision {
    /// The proposal becomes the stored state.
    Accept,
    /// The proposal lost to the state it carries.
    Reject(VersionedValue),
}

/// Whether a proposal with `proposal_ballot` defeats a register at `current_ballot`.
pub fn wins(proposal_ballot: u64, current_ballot: u64) -> (r: bool)
    ensures
        r == beats(proposal_ballot, current_ballot),
{
    proposal_ballot > current_ballot
}

/// Applies the rule to a proposal and the current state of its register.
pub fn resolve(current: VersionedValue, proposal: &VersionedValue) -> (r: Decision)
    ensures
        r is Accept <==> beats(proposal.ballot, current.ballot),
        r matches Decision::Reject(c) ==> c@ == current@,
{
    if wins(proposal.ballot, current.ballot) {
        Decision::Accept
    } else {
        Decision::Reject(current)
    }
}

} // verus!
