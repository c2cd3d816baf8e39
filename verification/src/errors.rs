use vstd::prelude::*;

verus! {

/// Why an operation was refused. A failing call never mutates the state it
/// was called on; the host aborts the whole call on any error.
#[derive(Clone, Copy, Debug, PartialEq, Eq, Structural)]
pub enum Error {
    /// The caller lacks the role (admin or emergency identity) the call needs.
    NotAuthorized,
    /// A principal amount was zero or negative.
    InvalidAmount,
    /// The requested tier id has never been configured.
    UnknownTier,
    /// The staked amount is below the tier's minimum.
    BelowTierMinimum,
    /// The user's staked principal is smaller than the amount requested.
    InsufficientStake,
    /// An upgrade was scheduled to unlock in the past.
    InvalidUnlockTime,
    /// No upgrade is currently scheduled.
    NoUpgradeScheduled,
    /// A timelocked action was attempted before its waiting period ended,
    /// or an upgrade hash did not match the scheduled one.
    TimelockNotExpired,
    /// A state migration did not increase the stored version.
    VersionNotNewer,
    /// No proposal exists under the given id.
    UnknownProposal,
    /// The voter already voted on this proposal.
    AlreadyVoted,
    /// The proposal is not in a state that allows this transition.
    ProposalNotActive,
    /// A listed delegator has no active delegation to the voter.
    InvalidDelegator,
    /// A delegator tried to delegate to itself.
    SelfDelegation,
    /// The proposer's voting power is below the configured minimum.
    InsufficientProposalPower,
    /// The proposal's voting window has not ended yet.
    VotingPeriodNotEnded,
}

} // verus!
