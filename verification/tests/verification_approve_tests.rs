use stellar_grants::auto_approve::{can_auto_approve, get_config, get_record, set_config, try_auto_approve, AutoApproveConfig, AutoApproveStore};
use stellar_grants::contributor_verification::{
    attest, get_attestation, is_verified, require_verified, revoke, set_verifier, VerificationAttestation, VerificationLevel,
    VerificationStatus, VerificationStore,
};
use stellar_grants::fees::ProtocolConfig;
use stellar_grants::store::GrantStore;
use stellar_grants::types::{Grant, GrantStatus, Milestone, MilestoneState};
use stellar_grants::ContractError;

fn b(s: &str) -> Vec<u8> {
    s.as_bytes().to_vec()
}

#[test]
fn test_attest_and_is_verified() {
    let mut store = GrantStore::new();
    let mut vs = VerificationStore::new();
    let admin = 1u64;
    let verifier = 2u64;
    let subject = 3u64;
    store.global_admin = Some(admin);
    set_verifier(&mut vs, &store, admin, verifier).unwrap();
    attest(&mut vs, verifier, subject, VerificationLevel::IdVerified, None, Vec::new(), 0).unwrap();
    assert!(is_verified(&vs, subject, VerificationLevel::EmailVerified, 0));
    assert!(is_verified(&vs, subject, VerificationLevel::IdVerified, 0));
    assert!(!is_verified(&vs, subject, VerificationLevel::FullKyc, 0));
}

#[test]
fn test_expired_attestation_is_unverified() {
    let mut store = GrantStore::new();
    let mut vs = VerificationStore::new();
    store.global_admin = Some(1);
    set_verifier(&mut vs, &store, 1, 2).unwrap();
    attest(&mut vs, 2, 3, VerificationLevel::FullKyc, Some(5), Vec::new(), 10).unwrap();
    assert!(!is_verified(&vs, 3, VerificationLevel::FullKyc, 10));
}

#[test]
fn test_revoke_marks_unverified() {
    let store = GrantStore::new();
    let mut vs = VerificationStore::new();
    let verifier = 2u64;
    let subject = 3u64;
    vs.verifier = Some(verifier);
    vs.attestations.insert(
        subject,
        VerificationAttestation {
            subject,
            verifier,
            level: VerificationLevel::FullKyc,
            status: VerificationStatus::Verified,
            attested_at: 0,
            expires_at: None,
            attestation_hash: Vec::new(),
        },
    );
    revoke(&mut vs, &store, verifier, subject).unwrap();
    assert!(!is_verified(&vs, subject, VerificationLevel::FullKyc, 0));
    assert_eq!(get_attestation(&vs, subject).unwrap().status, VerificationStatus::Revoked);
}

#[test]
fn test_unauthorized_attester_rejected() {
    let mut store = GrantStore::new();
    let mut vs = VerificationStore::new();
    store.global_admin = Some(1);
    set_verifier(&mut vs, &store, 1, 2).unwrap();
    let result = attest(&mut vs, 4, 3, VerificationLevel::FullKyc, None, Vec::new(), 0);
    assert_eq!(result, Err(ContractError::NotVerifier));
}

#[test]
fn test_payout_below_threshold_skips_check() {
    let vs = VerificationStore::new();
    let cfg = ProtocolConfig {
        protocol_fee_bps: 0,
        reviewer_reward_pool_bps: 0,
        revenue_share_pool_bps: 0,
        multisig_escrow_threshold: 2,
        kyc_payout_threshold: 10_000,
    };
    let subject = 3u64;
    let payout_amount = cfg.kyc_payout_threshold.saturating_sub(1);
    let result = if payout_amount > cfg.kyc_payout_threshold {
        require_verified(&vs, subject, VerificationLevel::FullKyc, 0)
    } else {
        Ok(())
    };
    assert_eq!(result, Ok(()));
    assert!(!is_verified(&vs, subject, VerificationLevel::FullKyc, 0));
}

#[test]
fn verification_edge_cases() {
    let mut store = GrantStore::new();
    let mut vs = VerificationStore::new();
    store.global_admin = Some(1);
    assert_eq!(set_verifier(&mut vs, &store, 5, 2), Err(ContractError::Unauthorized));
    assert!(is_verified(&vs, 3, VerificationLevel::Unverified, 0));
    assert_eq!(require_verified(&vs, 3, VerificationLevel::EmailVerified, 0), Err(ContractError::KycRequired));
    assert_eq!(revoke(&mut vs, &store, 1, 3), Err(ContractError::KycRequired));
    assert_eq!(revoke(&mut vs, &store, 8, 3), Err(ContractError::Unauthorized));
    set_verifier(&mut vs, &store, 1, 2).unwrap();
    attest(&mut vs, 2, 3, VerificationLevel::EmailVerified, Some(100), b("h"), 0).unwrap();
    assert!(is_verified(&vs, 3, VerificationLevel::EmailVerified, 100));
    assert!(!is_verified(&vs, 3, VerificationLevel::EmailVerified, 101));
    assert!(!is_verified(&vs, 3, VerificationLevel::IdVerified, 50));
}

fn auto_setup() -> (GrantStore, AutoApproveStore, u64, u64) {
    let mut store = GrantStore::new();
    let owner = 1u64;
    let grant_id = 1u64;
    store.set_grant(
        grant_id,
        Grant {
            id: grant_id,
            owner,
            title: b("Test Grant"),
            description: b("Desc"),
            token: 9,
            status: GrantStatus::Active,
            total_amount: 1_000_000,
            milestone_amount: 500_000,
            reviewers: Vec::new(),
            total_milestones: 2,
            milestones_paid_out: 0,
            escrow_balance: 0,
            funders: Vec::new(),
            reason: None,
            timestamp: 0,
        },
    );
    store.set_milestone(
        grant_id,
        0,
        Milestone {
            idx: 0,
            description: b("M1"),
            amount: 500_000,
            state: MilestoneState::Submitted,
            approvals: 0,
            rejections: 0,
            status_updated_at: 0,
            proof_url: None,
            submission_timestamp: 1000,
            deadline: None,
            reviewer_count_snapshot: 0,
        },
    );
    (store, AutoApproveStore::new(), owner, grant_id)
}

fn cfg(grant_id: u64, owner: u64, grace_period_seconds: u64, min_votes_required: u32) -> AutoApproveConfig {
    AutoApproveConfig { grant_id, enabled: true, grace_period_seconds, min_votes_required, set_by: owner, set_at: 0 }
}

fn set_votes(store: &mut GrantStore, grant_id: u64, approvals: u32, rejections: u32) {
    let mut m = store.get_milestone(grant_id, 0).unwrap().clone();
    m.approvals = approvals;
    m.rejections = rejections;
    store.set_milestone(grant_id, 0, m);
}

#[test]
fn test_set_and_get_config() {
    let (store, mut aa, owner, grant_id) = auto_setup();
    let result = set_config(&mut aa, &store, owner, grant_id, cfg(grant_id, owner, 3600, 3));
    assert_eq!(result, Ok(()));
    let stored = get_config(&aa, grant_id).unwrap();
    assert!(stored.enabled);
    assert_eq!(stored.grace_period_seconds, 3600);
    assert_eq!(stored.min_votes_required, 3);
}

#[test]
fn test_set_config_rejects_zero_params() {
    let (store, mut aa, owner, grant_id) = auto_setup();
    let result = set_config(&mut aa, &store, owner, grant_id, cfg(grant_id, owner, 0, 0));
    assert_eq!(result, Err(ContractError::InvalidInput));
}

#[test]
fn test_try_auto_approve_not_enabled() {
    let (mut store, mut aa, _, grant_id) = auto_setup();
    let result = try_auto_approve(&mut aa, &mut store, 55, grant_id, 0, 0);
    assert_eq!(result, Err(ContractError::AutoApproveNotEnabled));
}

#[test]
fn test_try_auto_approve_grace_period_not_passed() {
    let (mut store, mut aa, owner, grant_id) = auto_setup();
    set_config(&mut aa, &store, owner, grant_id, cfg(grant_id, owner, 3600, 1)).unwrap();
    set_votes(&mut store, grant_id, 2, 0);
    let result = try_auto_approve(&mut aa, &mut store, 55, grant_id, 0, 0);
    assert_eq!(result, Err(ContractError::AutoApproveGracePeriodNotPassed));
}

#[test]
fn test_try_auto_approve_insufficient_votes() {
    let (mut store, mut aa, owner, grant_id) = auto_setup();
    set_config(&mut aa, &store, owner, grant_id, cfg(grant_id, owner, 0, 5)).unwrap();
    set_votes(&mut store, grant_id, 1, 1);
    let result = try_auto_approve(&mut aa, &mut store, 55, grant_id, 0, 5000);
    assert_eq!(result, Err(ContractError::AutoApproveInsufficientVotes));
}

#[test]
fn test_try_auto_approve_success() {
    let (mut store, mut aa, owner, grant_id) = auto_setup();
    let caller = 55u64;
    set_config(&mut aa, &store, owner, grant_id, cfg(grant_id, owner, 0, 2)).unwrap();
    set_votes(&mut store, grant_id, 3, 1);
    let result = try_auto_approve(&mut aa, &mut store, caller, grant_id, 0, 1000);
    assert_eq!(result, Ok(true));
    let record = get_record(&aa, grant_id, 0).unwrap();
    assert_eq!(record.triggered_by, caller);
    assert_eq!(record.votes_at_trigger, 4);
    assert_eq!(store.get_milestone(grant_id, 0).unwrap().state, MilestoneState::Approved);
}

#[test]
fn test_try_auto_approve_rejects_already_triggered() {
    let (mut store, mut aa, owner, grant_id) = auto_setup();
    set_config(&mut aa, &store, owner, grant_id, cfg(grant_id, owner, 0, 1)).unwrap();
    set_votes(&mut store, grant_id, 2, 0);
    assert_eq!(try_auto_approve(&mut aa, &mut store, 55, grant_id, 0, 1000), Ok(true));
    assert_eq!(try_auto_approve(&mut aa, &mut store, 55, grant_id, 0, 1000), Ok(false));
}

#[test]
fn test_can_auto_approve() {
    let (mut store, mut aa, owner, grant_id) = auto_setup();
    assert!(!can_auto_approve(&aa, &store, grant_id, 0, 1000));
    set_config(&mut aa, &store, owner, grant_id, cfg(grant_id, owner, 0, 1)).unwrap();
    set_votes(&mut store, grant_id, 1, 0);
    assert!(can_auto_approve(&aa, &store, grant_id, 0, 1000));
}

#[test]
fn auto_approve_rejects_when_rejections_lead() {
    let (mut store, mut aa, owner, grant_id) = auto_setup();
    set_config(&mut aa, &store, owner, grant_id, cfg(grant_id, owner, 10, 2)).unwrap();
    set_votes(&mut store, grant_id, 1, 1);
    assert_eq!(try_auto_approve(&mut aa, &mut store, 55, grant_id, 0, 1009), Err(ContractError::AutoApproveGracePeriodNotPassed));
    assert_eq!(try_auto_approve(&mut aa, &mut store, 55, grant_id, 0, 1010), Ok(true));
    assert_eq!(store.get_milestone(grant_id, 0).unwrap().state, MilestoneState::Rejected);
    assert!(!can_auto_approve(&aa, &store, grant_id, 0, 2000));
}

#[test]
fn auto_approve_other_errors() {
    let (mut store, mut aa, owner, grant_id) = auto_setup();
    assert_eq!(set_config(&mut aa, &store, 2, grant_id, cfg(grant_id, 2, 1, 1)), Err(ContractError::Unauthorized));
    assert_eq!(set_config(&mut aa, &store, owner, 9, cfg(9, owner, 1, 1)), Err(ContractError::GrantNotFound));
    set_config(&mut aa, &store, owner, grant_id, cfg(grant_id, owner, 0, 1)).unwrap();
    assert_eq!(try_auto_approve(&mut aa, &mut store, 55, grant_id, 2, 0), Err(ContractError::MilestoneIndexOutOfBounds));
    assert_eq!(try_auto_approve(&mut aa, &mut store, 55, grant_id, 1, 0), Err(ContractError::MilestoneNotFound));
    let mut m = store.get_milestone(grant_id, 0).unwrap().clone();
    m.state = MilestoneState::Pending;
    store.set_milestone(grant_id, 0, m);
    assert_eq!(try_auto_approve(&mut aa, &mut store, 55, grant_id, 0, 5000), Ok(false));
}
