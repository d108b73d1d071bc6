use stellar_grants::access_control::{grant_role, has_role, Role, RoleRegistry};
use stellar_grants::clawback::{self, ClawbackStatus, ClawbackStore, ClawbackTransfer};
use stellar_grants::escrow_multisig::{self, EscrowStore, REQUEST_LIFETIME_SECS};
use stellar_grants::fees::ProtocolConfig;
use stellar_grants::store::GrantStore;
use stellar_grants::types::{Grant, GrantStatus, Milestone, MilestoneState};
use stellar_grants::ContractError;

const SECONDS_PER_WEEK: u64 = 604_800;
const WINDOW: u64 = 7 * 24 * 3600;

fn b(s: &str) -> Vec<u8> {
    s.as_bytes().to_vec()
}

fn escrow_setup() -> (EscrowStore, u64) {
    let cfg = ProtocolConfig {
        protocol_fee_bps: 0,
        reviewer_reward_pool_bps: 0,
        revenue_share_pool_bps: 0,
        multisig_escrow_threshold: 2,
        kyc_payout_threshold: 0,
    };
    (EscrowStore::new(Some(cfg)), 1u64)
}

#[test]
fn test_create_request() {
    let (mut es, grant_id) = escrow_setup();
    let recipient = 50u64;
    let result = escrow_multisig::create_request(&mut es, grant_id, 0, 1000, recipient, 100);
    assert!(result.is_ok());
    let request = escrow_multisig::get_request(&es, grant_id, 0).unwrap();
    assert_eq!(request.amount, 1000);
    assert_eq!(request.recipient, recipient);
    assert!(!request.executed);
    assert_eq!(request.approvals.len(), 0);
    assert_eq!(request.expires_at, 100 + REQUEST_LIFETIME_SECS);
}

#[test]
fn test_approve_accumulates() {
    let (mut es, grant_id) = escrow_setup();
    escrow_multisig::create_request(&mut es, grant_id, 0, 1000, 50, 0).unwrap();
    escrow_multisig::approve(&mut es, 11, grant_id, 0, 1).unwrap();
    assert_eq!(escrow_multisig::get_request(&es, grant_id, 0).unwrap().approvals.len(), 1);
    assert!(!escrow_multisig::is_approved(&es, grant_id, 0));
    escrow_multisig::approve(&mut es, 12, grant_id, 0, 2).unwrap();
    assert_eq!(escrow_multisig::get_request(&es, grant_id, 0).unwrap().approvals.len(), 2);
    assert!(escrow_multisig::is_approved(&es, grant_id, 0));
}

#[test]
fn test_duplicate_approval_rejected() {
    let (mut es, grant_id) = escrow_setup();
    escrow_multisig::create_request(&mut es, grant_id, 0, 1000, 50, 0).unwrap();
    escrow_multisig::approve(&mut es, 11, grant_id, 0, 1).unwrap();
    let result = escrow_multisig::approve(&mut es, 11, grant_id, 0, 1);
    assert_eq!(result, Err(ContractError::AlreadyVoted));
}

#[test]
fn test_execute_before_threshold_rejected() {
    let (mut es, grant_id) = escrow_setup();
    escrow_multisig::create_request(&mut es, grant_id, 0, 1000, 50, 0).unwrap();
    escrow_multisig::approve(&mut es, 11, grant_id, 0, 1).unwrap();
    let result = escrow_multisig::execute_release(&mut es, grant_id, 0, 2);
    assert_eq!(result, Err(ContractError::Unauthorized));
}

#[test]
fn test_execute_already_executed_rejected() {
    let (mut es, grant_id) = escrow_setup();
    escrow_multisig::create_request(&mut es, grant_id, 0, 1000, 50, 0).unwrap();
    escrow_multisig::approve(&mut es, 11, grant_id, 0, 1).unwrap();
    escrow_multisig::approve(&mut es, 12, grant_id, 0, 1).unwrap();
    assert_eq!(escrow_multisig::execute_release(&mut es, grant_id, 0, 2), Ok((50, 1000)));
    let result = escrow_multisig::execute_release(&mut es, grant_id, 0, 3);
    assert_eq!(result, Err(ContractError::InvalidState));
}

#[test]
fn test_approve_after_expiry_rejected() {
    let (mut es, grant_id) = escrow_setup();
    escrow_multisig::create_request(&mut es, grant_id, 0, 1000, 50, 0).unwrap();
    let result = escrow_multisig::approve(&mut es, 11, grant_id, 0, SECONDS_PER_WEEK * 3);
    assert_eq!(result, Err(ContractError::InvalidState));
}

#[test]
fn escrow_missing_request_and_config() {
    let mut es = EscrowStore::new(None);
    assert_eq!(escrow_multisig::approve(&mut es, 11, 1, 0, 0), Err(ContractError::InvalidState));
    assert_eq!(escrow_multisig::execute_release(&mut es, 1, 0, 0), Err(ContractError::InvalidState));
    escrow_multisig::create_request(&mut es, 1, 0, 10, 50, 0).unwrap();
    escrow_multisig::approve(&mut es, 11, 1, 0, 0).unwrap();
    assert!(!escrow_multisig::is_approved(&es, 1, 0));
    assert_eq!(escrow_multisig::execute_release(&mut es, 1, 0, 0), Err(ContractError::Unauthorized));
}

fn clawback_setup(with_treasury: bool) -> (GrantStore, RoleRegistry, ClawbackStore, u64, u64, u64, u64) {
    let mut store = GrantStore::new();
    let admin = 1u64;
    let protocol_admin = 2u64;
    let arbiter = 3u64;
    let owner = 4u64;
    store.global_admin = Some(admin);
    if with_treasury {
        store.treasury = Some(admin);
    }
    let mut roles = RoleRegistry::new();
    grant_role(&mut roles, &store, admin, protocol_admin, Role::ProtocolAdmin).unwrap();
    grant_role(&mut roles, &store, admin, arbiter, Role::DisputeArbiter).unwrap();
    store.set_grant(
        1,
        Grant {
            id: 1,
            owner,
            title: b("Test Grant"),
            description: b("Test"),
            token: 77,
            status: GrantStatus::Active,
            total_amount: 1000,
            milestone_amount: 500,
            reviewers: vec![],
            total_milestones: 2,
            milestones_paid_out: 1,
            escrow_balance: 500,
            funders: vec![],
            reason: None,
            timestamp: 0,
        },
    );
    store.set_milestone(
        1,
        0,
        Milestone {
            idx: 0,
            description: b("Milestone"),
            amount: 500,
            state: MilestoneState::Paid,
            approvals: 1,
            rejections: 0,
            status_updated_at: 0,
            proof_url: None,
            submission_timestamp: 0,
            deadline: None,
            reviewer_count_snapshot: 0,
        },
    );
    (store, roles, ClawbackStore::new(WINDOW), admin, protocol_admin, arbiter, owner)
}

#[test]
fn test_initiate_clawback_success() {
    let (store, roles, mut cs, _, _, arbiter, _) = clawback_setup(false);
    let result = clawback::initiate(&mut cs, &store, &roles, arbiter, 1, 0, b("Plagiarism detected"), 0);
    assert!(result.is_ok());
    let request = clawback::get_request(&cs, 1, 0);
    assert!(request.is_some());
    assert_eq!(request.unwrap().status, ClawbackStatus::Pending);
}

#[test]
fn test_initiate_unauthorized() {
    let (store, roles, mut cs, _, _, _, _) = clawback_setup(false);
    let result = clawback::initiate(&mut cs, &store, &roles, 99, 1, 0, b("Test"), 0);
    assert_eq!(result, Err(ContractError::Unauthorized));
}

#[test]
fn test_approve_clawback_success() {
    let (store, roles, mut cs, _, protocol_admin, arbiter, _) = clawback_setup(false);
    clawback::initiate(&mut cs, &store, &roles, arbiter, 1, 0, b("Test"), 0).unwrap();
    clawback::approve(&mut cs, &roles, protocol_admin, 1, 0).unwrap();
    let request = clawback::get_request(&cs, 1, 0).unwrap();
    assert_eq!(request.status, ClawbackStatus::Pending);
    assert_eq!(request.approvals.len(), 1);
    clawback::approve(&mut cs, &roles, arbiter, 1, 0).unwrap();
    let request = clawback::get_request(&cs, 1, 0).unwrap();
    assert_eq!(request.status, ClawbackStatus::Approved);
    assert_eq!(request.approvals.len(), 2);
}

#[test]
fn test_dispute_clawback_success() {
    let (store, roles, mut cs, _, protocol_admin, arbiter, owner) = clawback_setup(true);
    clawback::initiate(&mut cs, &store, &roles, arbiter, 1, 0, b("Test"), 0).unwrap();
    clawback::approve(&mut cs, &roles, protocol_admin, 1, 0).unwrap();
    clawback::approve(&mut cs, &roles, arbiter, 1, 0).unwrap();
    let result = clawback::dispute(&mut cs, &store, owner, 1, 0, 10);
    assert!(result.is_ok());
    assert_eq!(clawback::get_request(&cs, 1, 0).unwrap().status, ClawbackStatus::DisputedByContributor);
}

#[test]
fn test_dispute_after_window_fails() {
    let (store, roles, mut cs, _, protocol_admin, arbiter, owner) = clawback_setup(true);
    clawback::initiate(&mut cs, &store, &roles, arbiter, 1, 0, b("Test"), 0).unwrap();
    clawback::approve(&mut cs, &roles, protocol_admin, 1, 0).unwrap();
    clawback::approve(&mut cs, &roles, arbiter, 1, 0).unwrap();
    let result = clawback::dispute(&mut cs, &store, owner, 1, 0, WINDOW + 1);
    assert_eq!(result, Err(ContractError::DeadlinePassed));
}

#[test]
fn test_execute_before_window_fails() {
    let (store, roles, mut cs, _, protocol_admin, arbiter, _) = clawback_setup(true);
    clawback::initiate(&mut cs, &store, &roles, arbiter, 1, 0, b("Test"), 0).unwrap();
    clawback::approve(&mut cs, &roles, protocol_admin, 1, 0).unwrap();
    clawback::approve(&mut cs, &roles, arbiter, 1, 0).unwrap();
    let result = clawback::execute(&mut cs, &store, 1, 0, 0);
    assert_eq!(result, Err(ContractError::DeadlinePassed));
}

#[test]
fn test_execute_success() {
    let (store, roles, mut cs, admin, protocol_admin, arbiter, owner) = clawback_setup(true);
    clawback::initiate(&mut cs, &store, &roles, arbiter, 1, 0, b("Test"), 0).unwrap();
    clawback::approve(&mut cs, &roles, protocol_admin, 1, 0).unwrap();
    clawback::approve(&mut cs, &roles, arbiter, 1, 0).unwrap();
    let result = clawback::execute(&mut cs, &store, 1, 0, WINDOW + 1);
    assert_eq!(result, Ok(ClawbackTransfer { token: 77, from: owner, to: admin, amount: 500 }));
    assert_eq!(clawback::get_request(&cs, 1, 0).unwrap().status, ClawbackStatus::Executed);
}

#[test]
fn test_cancel_success() {
    let (store, roles, mut cs, _, _, arbiter, _) = clawback_setup(false);
    clawback::initiate(&mut cs, &store, &roles, arbiter, 1, 0, b("Test"), 0).unwrap();
    let result = clawback::cancel(&mut cs, &roles, arbiter, 1, 0);
    assert!(result.is_ok());
    assert_eq!(clawback::get_request(&cs, 1, 0).unwrap().status, ClawbackStatus::Cancelled);
}

#[test]
fn test_cancel_after_execute_fails() {
    let (store, roles, mut cs, _, protocol_admin, arbiter, _) = clawback_setup(true);
    clawback::initiate(&mut cs, &store, &roles, arbiter, 1, 0, b("Test"), 0).unwrap();
    clawback::approve(&mut cs, &roles, protocol_admin, 1, 0).unwrap();
    clawback::approve(&mut cs, &roles, arbiter, 1, 0).unwrap();
    clawback::execute(&mut cs, &store, 1, 0, WINDOW + 1).unwrap();
    let result = clawback::cancel(&mut cs, &roles, arbiter, 1, 0);
    assert_eq!(result, Err(ContractError::InvalidState));
}

#[test]
fn clawback_other_errors() {
    let (store, roles, mut cs, admin, protocol_admin, arbiter, owner) = clawback_setup(false);
    assert_eq!(clawback::initiate(&mut cs, &store, &roles, arbiter, 9, 0, b("x"), 0), Err(ContractError::GrantNotFound));
    assert_eq!(clawback::initiate(&mut cs, &store, &roles, arbiter, 1, 5, b("x"), 0), Err(ContractError::MilestoneNotFound));
    clawback::initiate(&mut cs, &store, &roles, arbiter, 1, 0, b("x"), 0).unwrap();
    assert_eq!(clawback::initiate(&mut cs, &store, &roles, arbiter, 1, 0, b("x"), 0), Err(ContractError::InvalidState));
    assert_eq!(clawback::approve(&mut cs, &roles, owner, 1, 0), Err(ContractError::Unauthorized));
    clawback::approve(&mut cs, &roles, protocol_admin, 1, 0).unwrap();
    assert_eq!(clawback::approve(&mut cs, &roles, protocol_admin, 1, 0), Err(ContractError::AlreadyVoted));
    assert_eq!(clawback::dispute(&mut cs, &store, 99, 1, 0, 0), Err(ContractError::Unauthorized));
    assert_eq!(clawback::cancel(&mut cs, &roles, owner, 1, 0), Err(ContractError::Unauthorized));
    clawback::approve(&mut cs, &roles, arbiter, 1, 0).unwrap();
    assert_eq!(clawback::execute(&mut cs, &store, 1, 0, WINDOW + 1), Err(ContractError::TreasuryNotConfigured));
    assert_eq!(clawback::approve(&mut cs, &roles, admin, 1, 0), Err(ContractError::InvalidState));
    assert!(has_role(&roles, arbiter, Role::DisputeArbiter));
    assert!(!has_role(&roles, arbiter, Role::ProtocolAdmin));
}

#[test]
fn only_global_admin_grants_roles() {
    let store = GrantStore::new();
    let mut roles = RoleRegistry::new();
    assert_eq!(grant_role(&mut roles, &store, 1, 2, Role::ProtocolAdmin), Err(ContractError::Unauthorized));
    assert!(!has_role(&roles, 2, Role::ProtocolAdmin));
}
