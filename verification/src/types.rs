use vstd::prelude::*;

verus! {

/// Lifecycle status of a grant.
#[derive(Clone, Copy, Debug, PartialEq, Eq, Structural)]
pub enum GrantStatus {
    Active,
    Completed,
    Cancelled,
}

/// Lifecycle state of a milestone.
#[derive(Clone, Copy, Debug, PartialEq, Eq, Structural)]
pub enum MilestoneState {
    Pending,
    Submitted,
    Approved,
    Rejected,
    Paid,
}

/// One funder's contribution to a grant's escrow.
#[derive(Clone, Copy, Debug, PartialEq, Eq, Structural)]
pub struct GrantFund {
    pub funder: u64,
    pub amount: i128,
}

/// A grant: its owner, budget, evaluators, funders and progress.
///
/// Accounts are `u64` handles; text is held as bytes.
#[derive(Clone, Debug, PartialEq, Eq)]
pub struct Grant {
    pub id: u64,
    pub owner: u64,
    pub title: Vec<u8>,
    pub description: Vec<u8>,
    pub token: u64,
    pub status: GrantStatus,
    pub total_amount: i128,
    pub milestone_amount: i128,
    pub reviewers: Vec<u64>,
    pub total_milestones: u32,
    pub milestones_paid_out: u32,
    pub escrow_balance: i128,
    pub funders: Vec<GrantFund>,
    pub reason: Option<Vec<u8>>,
    pub timestamp: u64,
}

/// One milestone of a grant.
#[derive(Clone, Debug, PartialEq, Eq)]
pub struct Milestone {
    pub idx: u32,
    pub description: Vec<u8>,
    pub amount: i128,
    pub state: MilestoneState,
    pub approvals: u32,
    pub rejections: u32,
    pub status_updated_at: u64,
    pub proof_url: Option<Vec<u8>>,
    pub submission_timestamp: u64,
    pub deadline: Option<u64>,
    pub reviewer_count_snapshot: u32,
}

/// A registered contributor's profile.
#[derive(Clone, Debug, PartialEq, Eq)]
pub struct ContributorProfile {
    pub contributor: u64,
    pub name: Vec<u8>,
    pub reputation_score: u64,
    pub total_earned: i128,
    pub milestones_completed: u32,
    pub milestones_rejected: u32,
    pub grants_count: u32,
    pub registered_at: u64,
}

} // verus!
