use stellar_grants::audit::{get_log, get_recent, log, log_length, AuditAction, AuditLog};
use stellar_grants::reentrancy::{protect, protect_external_call, with_non_reentrant, ReentrancyGuards, ReentrancyKey};
use stellar_grants::ContractError;

#[test]
fn test_protect_succeeds_when_guard_not_held() {
    let guards = ReentrancyGuards::new();
    assert_eq!(protect(&guards), Ok(()));
}

#[test]
fn test_protect_fails_when_guard_held() {
    let mut guards = ReentrancyGuards::new();
    guards.external_call_guard = true;
    assert_eq!(protect(&guards), Err(ContractError::Reentrancy));
}

#[test]
fn test_protect_external_call_succeeds() {
    let mut guards = ReentrancyGuards::new();
    let result = protect_external_call(&mut guards, |_g: &ReentrancyGuards| Ok(42i128));
    assert_eq!(result, Ok(42));
    assert!(!guards.is_held(ReentrancyKey::ExternalCallGuard));
}

#[test]
fn test_protect_external_call_clears_guard_on_error() {
    let mut guards = ReentrancyGuards::new();
    let result: Result<i128, ContractError> = protect_external_call(&mut guards, |_g: &ReentrancyGuards| Err(ContractError::InvalidInput));
    assert_eq!(result, Err(ContractError::InvalidInput));
    assert!(!guards.is_held(ReentrancyKey::ExternalCallGuard));
}

#[test]
fn test_protect_external_call_rejects_reentry() {
    let mut guards = ReentrancyGuards::new();
    guards.external_call_guard = true;
    let result: Result<i128, ContractError> = protect_external_call(&mut guards, |_g: &ReentrancyGuards| Ok(0));
    assert_eq!(result, Err(ContractError::Reentrancy));
}

#[test]
fn test_nested_protect_inside_external_call_detects_reentrancy() {
    let mut guards = ReentrancyGuards::new();
    let result: Result<(), ContractError> = protect_external_call(&mut guards, |g: &ReentrancyGuards| protect(g));
    assert_eq!(result, Err(ContractError::Reentrancy));
    assert!(!guards.is_held(ReentrancyKey::ExternalCallGuard));
}

#[test]
fn non_reentrant_entry_holds_and_releases_guard() {
    let mut guards = ReentrancyGuards::new();
    let seen = with_non_reentrant(&mut guards, |g: &ReentrancyGuards| g.is_held(ReentrancyKey::EntryGuard));
    assert!(seen);
    assert!(!guards.is_held(ReentrancyKey::EntryGuard));
}

fn setup() -> (AuditLog, u64, u64) {
    (AuditLog::new(), 77u64, 42u64)
}

fn log_simple(al: &mut AuditLog, grant_id: u64, action: AuditAction, actor: u64, milestone_idx: Option<u32>, amount: Option<i128>) {
    log(al, grant_id, action, actor, milestone_idx, amount, 0, 0);
}

fn check_single(action: AuditAction) {
    let (mut al, actor, grant_id) = setup();
    log_simple(&mut al, grant_id, action, actor, None, None);
    let entries = get_log(&al, grant_id);
    assert_eq!(entries.len(), 1);
    assert_eq!(entries[0].action, action);
    assert_eq!(entries[0].actor, actor);
}

#[test]
fn log_grant_created() {
    check_single(AuditAction::GrantCreated);
}

#[test]
fn log_grant_funded_with_amount() {
    let (mut al, actor, grant_id) = setup();
    log_simple(&mut al, grant_id, AuditAction::GrantFunded, actor, None, Some(5_000));
    let entry = get_log(&al, grant_id)[0];
    assert_eq!(entry.action, AuditAction::GrantFunded);
    assert_eq!(entry.amount, Some(5_000));
}

#[test]
fn log_milestone_submitted_with_index() {
    let (mut al, actor, grant_id) = setup();
    log_simple(&mut al, grant_id, AuditAction::MilestoneSubmitted, actor, Some(0), None);
    let entry = get_log(&al, grant_id)[0];
    assert_eq!(entry.action, AuditAction::MilestoneSubmitted);
    assert_eq!(entry.milestone_idx, Some(0));
}

#[test]
fn log_milestone_approved() {
    check_single(AuditAction::MilestoneApproved);
}

#[test]
fn log_milestone_rejected() {
    check_single(AuditAction::MilestoneRejected);
}

#[test]
fn log_milestone_paid() {
    check_single(AuditAction::MilestonePaid);
}

#[test]
fn log_dispute_raised() {
    check_single(AuditAction::DisputeRaised);
}

#[test]
fn log_dispute_resolved() {
    check_single(AuditAction::DisputeResolved);
}

#[test]
fn log_grant_cancelled() {
    check_single(AuditAction::GrantCancelled);
}

#[test]
fn log_grant_completed() {
    check_single(AuditAction::GrantCompleted);
}

#[test]
fn log_admin_changed() {
    check_single(AuditAction::AdminChanged);
}

#[test]
fn log_contract_paused() {
    check_single(AuditAction::ContractPaused);
}

#[test]
fn log_contract_unpaused() {
    check_single(AuditAction::ContractUnpaused);
}

#[test]
fn get_recent_empty_log_returns_empty() {
    let (al, _, grant_id) = setup();
    assert_eq!(get_recent(&al, grant_id, 5).len(), 0);
}

#[test]
fn get_recent_zero_n_returns_empty() {
    let (mut al, actor, grant_id) = setup();
    log_simple(&mut al, grant_id, AuditAction::GrantCreated, actor, None, None);
    assert_eq!(get_recent(&al, grant_id, 0).len(), 0);
}

#[test]
fn get_recent_n_greater_than_len_returns_all() {
    let (mut al, actor, grant_id) = setup();
    for i in 0..3u32 {
        log_simple(&mut al, grant_id, AuditAction::MilestoneSubmitted, actor, Some(i), None);
    }
    assert_eq!(get_recent(&al, grant_id, 100).len(), 3);
}

#[test]
fn get_recent_exact_n_matches_log_length() {
    let (mut al, actor, grant_id) = setup();
    for i in 0..4u32 {
        log_simple(&mut al, grant_id, AuditAction::MilestoneApproved, actor, Some(i), None);
    }
    let result = get_recent(&al, grant_id, 4);
    assert_eq!(result.len(), 4);
    assert_eq!(result[0].milestone_idx, Some(0));
    assert_eq!(result[3].milestone_idx, Some(3));
}

#[test]
fn get_recent_returns_last_n_oldest_first() {
    let (mut al, actor, grant_id) = setup();
    for i in 0..5u32 {
        log_simple(&mut al, grant_id, AuditAction::MilestoneSubmitted, actor, Some(i), None);
    }
    let result = get_recent(&al, grant_id, 3);
    assert_eq!(result.len(), 3);
    assert_eq!(result[0].milestone_idx, Some(2));
    assert_eq!(result[1].milestone_idx, Some(3));
    assert_eq!(result[2].milestone_idx, Some(4));
}

#[test]
fn log_is_append_only_length_grows_monotonically() {
    let (mut al, actor, grant_id) = setup();
    let mut expected_len = 0usize;
    for action in [
        AuditAction::GrantCreated,
        AuditAction::GrantFunded,
        AuditAction::MilestoneSubmitted,
        AuditAction::MilestoneApproved,
        AuditAction::MilestonePaid,
    ] {
        log_simple(&mut al, grant_id, action, actor, None, None);
        expected_len += 1;
        assert_eq!(get_log(&al, grant_id).len(), expected_len);
    }
}

#[test]
fn log_entries_are_never_overwritten() {
    let (mut al, actor, grant_id) = setup();
    log_simple(&mut al, grant_id, AuditAction::GrantCreated, actor, None, None);
    log_simple(&mut al, grant_id, AuditAction::GrantFunded, actor, None, None);
    let entries = get_log(&al, grant_id);
    assert_eq!(entries[0].action, AuditAction::GrantCreated);
    assert_eq!(entries[1].action, AuditAction::GrantFunded);
}

#[test]
fn log_entries_preserve_order_across_grants() {
    let (mut al, actor, _) = setup();
    let g1 = 1u64;
    let g2 = 2u64;
    log_simple(&mut al, g1, AuditAction::GrantCreated, actor, None, None);
    log_simple(&mut al, g2, AuditAction::GrantCreated, actor, None, None);
    log_simple(&mut al, g1, AuditAction::GrantFunded, actor, None, None);
    assert_eq!(get_log(&al, g1).len(), 2);
    assert_eq!(get_log(&al, g1)[0].action, AuditAction::GrantCreated);
    assert_eq!(get_log(&al, g1)[1].action, AuditAction::GrantFunded);
    assert_eq!(get_log(&al, g2).len(), 1);
    assert_eq!(get_log(&al, g2)[0].action, AuditAction::GrantCreated);
}

#[test]
fn log_length_empty_is_zero() {
    let (al, _, grant_id) = setup();
    assert_eq!(log_length(&al, grant_id), 0);
}

#[test]
fn log_length_matches_get_log() {
    let (mut al, actor, grant_id) = setup();
    for i in 0..7u32 {
        log_simple(&mut al, grant_id, AuditAction::MilestoneSubmitted, actor, Some(i), None);
    }
    assert_eq!(log_length(&al, grant_id), 7);
    assert_eq!(get_log(&al, grant_id).len(), 7);
}

#[test]
fn entry_records_grant_id() {
    let (mut al, actor, grant_id) = setup();
    log_simple(&mut al, grant_id, AuditAction::GrantCreated, actor, None, None);
    assert_eq!(get_log(&al, grant_id)[0].grant_id, grant_id);
}

#[test]
fn entry_records_timestamp_and_ledger() {
    let (mut al, actor, grant_id) = setup();
    log(&mut al, grant_id, AuditAction::GrantCreated, actor, None, None, 1_700_000_000, 1000);
    let entry = get_log(&al, grant_id)[0];
    assert_eq!(entry.timestamp, 1_700_000_000);
    assert_eq!(entry.ledger_sequence, 1000);
}

#[test]
fn different_actors_tracked_correctly() {
    let (mut al, _, grant_id) = setup();
    let alice = 5u64;
    let bob = 6u64;
    log_simple(&mut al, grant_id, AuditAction::GrantCreated, alice, None, None);
    log_simple(&mut al, grant_id, AuditAction::GrantFunded, bob, None, None);
    let entries = get_log(&al, grant_id);
    assert_eq!(entries[0].actor, alice);
    assert_eq!(entries[1].actor, bob);
}
