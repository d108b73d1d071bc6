use vstd::prelude::*;

verus! {

/// Errors returned by the contract's operations.
#[derive(Clone, Copy, Debug, PartialEq, Eq, Structural)]
pub enum ContractError {
    GrantNotFound,
    Unauthorized,
    InvalidInput,
    InvalidState,
    NotFound,
    AlreadyVoted,
    MilestoneNotFound,
    MilestoneIndexOutOfBounds,
    AutoApproveNotEnabled,
    AutoApproveGracePeriodNotPassed,
    AutoApproveInsufficientVotes,
    NotVerifier,
    KycRequired,
    TimerNotFound,
    DependencyNotSatisfied,
    Reentrancy,
    DeadlinePassed,
    TreasuryNotConfigured,
    ContractPaused,
    AlreadyOnWaitlist,
    WaitlistFull,
    NotOnWaitlist,
    ContributorNotFound,
    RateLimitExceeded,
}

} // verus!
