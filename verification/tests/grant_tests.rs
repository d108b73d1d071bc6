use stellar_grants::batch::{cancel_refunds_fit, try_cancel_grant};
use stellar_grants::grant_records::{get_audit_log, get_snapshot, get_snapshot_list, get_split_recipients, log, RecordStore, SnapshotTrigger, SplitRecipient};
use stellar_grants::snapshot::capture;
use stellar_grants::split_payment::register_split;
use stellar_grants::store::GrantStore;
use stellar_grants::types::{Grant, GrantFund, GrantStatus};
use stellar_grants::ContractError;

fn b(s: &str) -> Vec<u8> {
    s.as_bytes().to_vec()
}

fn grant(id: u64, owner: u64, reviewers: Vec<u64>, funders: Vec<GrantFund>, total_amount: i128, escrow_balance: i128) -> Grant {
    Grant {
        id,
        owner,
        title: b("Title"),
        description: b("Description"),
        token: 500,
        status: GrantStatus::Active,
        total_amount,
        milestone_amount: 1000,
        reviewers,
        total_milestones: 1,
        milestones_paid_out: 0,
        escrow_balance,
        funders,
        reason: None,
        timestamp: 0,
    }
}

#[test]
fn test_grant_cancel_success_multiple_funders() {
    let mut store = GrantStore::new();
    let owner = 1u64;
    let funders = vec![GrantFund { funder: 21, amount: 600 }, GrantFund { funder: 22, amount: 400 }];
    store.set_grant(1, grant(1, owner, vec![], funders, 1000, 1000));
    let refunds = try_cancel_grant(&mut store, 1, owner, b("Project discontinued"), 50).unwrap();
    assert_eq!(refunds, vec![600, 400]);
    let updated = store.get_grant(1).unwrap();
    assert_eq!(updated.status, GrantStatus::Cancelled);
    assert_eq!(updated.escrow_balance, 0);
    assert_eq!(updated.reason, Some(b("Project discontinued")));
}

#[test]
fn test_grant_cancel_unauthorized() {
    let mut store = GrantStore::new();
    store.set_grant(1, grant(1, 1, vec![], vec![], 1000, 1000));
    let result = try_cancel_grant(&mut store, 1, 2, b("test"), 5);
    assert_eq!(result, Err(ContractError::Unauthorized));
}

#[test]
fn test_try_cancel_grant_checked_add_overflow() {
    let mut store = GrantStore::new();
    let owner = 1u64;
    let funders = vec![GrantFund { funder: 21, amount: i128::MAX }, GrantFund { funder: 22, amount: 100 }];
    store.set_grant(1, grant(1, owner, vec![], funders, i128::MAX, 1000));
    let result = try_cancel_grant(&mut store, 1, owner, b("cancel test"), 5);
    assert_eq!(result, Err(ContractError::InvalidInput));
    assert_eq!(store.get_grant(1).unwrap().status, GrantStatus::Active);
}

#[test]
fn cancel_refunds_add_up_to_escrow() {
    let mut store = GrantStore::new();
    let owner = 1u64;
    let funders = vec![
        GrantFund { funder: 21, amount: 3 },
        GrantFund { funder: 22, amount: 3 },
        GrantFund { funder: 23, amount: 3 },
    ];
    store.set_grant(1, grant(1, owner, vec![], funders, 9, 100));
    let refunds = try_cancel_grant(&mut store, 1, owner, b("r"), 5).unwrap();
    assert_eq!(refunds, vec![33, 33, 34]);
    assert_eq!(refunds.iter().sum::<i128>(), 100);
}

#[test]
fn cancel_errors() {
    let mut store = GrantStore::new();
    store.global_admin = Some(9);
    assert_eq!(try_cancel_grant(&mut store, 1, 1, b("r"), 5), Err(ContractError::GrantNotFound));
    store.set_grant(1, grant(1, 1, vec![], vec![GrantFund { funder: 21, amount: 0 }], 10, 10));
    assert_eq!(try_cancel_grant(&mut store, 1, 9, b("r"), 5), Err(ContractError::InvalidInput));
    store.set_grant(2, grant(2, 1, vec![], vec![], 10, 0));
    assert_eq!(try_cancel_grant(&mut store, 2, 9, b("r"), 5), Ok(vec![]));
    assert_eq!(try_cancel_grant(&mut store, 2, 9, b("r"), 5), Err(ContractError::InvalidState));
}

#[test]
fn prop_cancel_refund_sum_equals_escrow() {
    for (contributions, escrow) in [(vec![1i128, 2, 3], 10i128), (vec![7], 1_000_000), (vec![1_000_000, 1, 999_999, 5], 9_999_999)] {
        let mut store = GrantStore::new();
        let funders: Vec<GrantFund> = contributions.iter().enumerate().map(|(i, &a)| GrantFund { funder: 100 + i as u64, amount: a }).collect();
        store.set_grant(1, grant(1, 1, vec![], funders, 1, escrow));
        let refunds = try_cancel_grant(&mut store, 1, 1, b("r"), 5).unwrap();
        assert_eq!(refunds.iter().sum::<i128>(), escrow);
        assert!(refunds.iter().all(|&r| r >= 0));
    }
}

#[test]
fn test_audit_log_sharding_across_pages() {
    let mut rs = RecordStore::new();
    let grant_id = 1u64;
    let actor = 77u64;
    for i in 0..250u64 {
        log(&mut rs, grant_id, b("ACTION"), actor, i);
    }
    let entries = get_audit_log(&rs, grant_id);
    assert_eq!(entries.len(), 250);
    assert_eq!(entries[0].timestamp, 0);
    assert_eq!(entries[249].timestamp, 249);
    assert!(entries.iter().enumerate().all(|(i, e)| e.timestamp == i as u64 && e.actor == actor));
    assert_eq!(get_audit_log(&rs, 2).len(), 0);
}

#[test]
fn test_snapshot_capture_authorization() {
    let mut store = GrantStore::new();
    let mut rs = RecordStore::new();
    let owner = 1u64;
    let reviewer = 2u64;
    let unrelated = 3u64;
    let grant_id = 1u64;
    store.set_grant(grant_id, grant(grant_id, owner, vec![reviewer], vec![], 1000, 1000));

    assert_eq!(capture(&mut rs, &store, grant_id, SnapshotTrigger::Manual, unrelated, 10), Err(ContractError::Unauthorized));
    assert_eq!(capture(&mut rs, &store, grant_id, SnapshotTrigger::Manual, owner, 11), Ok(1));
    assert_eq!(capture(&mut rs, &store, grant_id, SnapshotTrigger::MilestoneSubmitted, reviewer, 12), Ok(2));
    let list = get_snapshot_list(&rs, grant_id);
    assert_eq!(list.len(), 2);
    let s = get_snapshot(&rs, grant_id, 2).unwrap();
    assert_eq!(s.captured_by, reviewer);
    assert_eq!(s.grant_state.title, b("Title"));
    assert_eq!(capture(&mut rs, &store, 9, SnapshotTrigger::Manual, owner, 13), Err(ContractError::GrantNotFound));
}

#[test]
fn test_register_split_status_guard_and_event() {
    let mut store = GrantStore::new();
    let mut rs = RecordStore::new();
    let owner = 1u64;
    let grant_id = 1u64;
    store.set_grant(grant_id, grant(grant_id, owner, vec![], vec![], 1000, 1000));
    let recipients = vec![SplitRecipient { recipient: 31, basis_points: 6000 }, SplitRecipient { recipient: 32, basis_points: 4000 }];

    assert_eq!(register_split(&mut rs, &store, owner, grant_id, 0, recipients.clone()), Ok(()));
    assert_eq!(get_split_recipients(&rs, grant_id, 0), Some(recipients.clone()));

    let mut g = store.get_grant(grant_id).unwrap().clone();
    g.status = GrantStatus::Cancelled;
    store.set_grant(grant_id, g);
    assert_eq!(register_split(&mut rs, &store, owner, grant_id, 0, recipients), Err(ContractError::InvalidState));
}

#[test]
fn register_split_rejects_bad_shares() {
    let mut store = GrantStore::new();
    let mut rs = RecordStore::new();
    store.set_grant(1, grant(1, 1, vec![], vec![], 1000, 1000));
    assert_eq!(register_split(&mut rs, &store, 1, 1, 0, vec![]), Err(ContractError::InvalidInput));
    assert_eq!(
        register_split(&mut rs, &store, 1, 1, 0, vec![SplitRecipient { recipient: 2, basis_points: 0 }, SplitRecipient { recipient: 3, basis_points: 10_000 }]),
        Err(ContractError::InvalidInput)
    );
    assert_eq!(
        register_split(&mut rs, &store, 1, 1, 0, vec![SplitRecipient { recipient: 2, basis_points: u32::MAX }, SplitRecipient { recipient: 3, basis_points: 10_001 }]),
        Err(ContractError::InvalidInput)
    );
    assert_eq!(register_split(&mut rs, &store, 1, 1, 0, vec![SplitRecipient { recipient: 2, basis_points: 9_999 }]), Err(ContractError::InvalidInput));
    assert_eq!(register_split(&mut rs, &store, 2, 1, 0, vec![SplitRecipient { recipient: 2, basis_points: 10_000 }]), Err(ContractError::Unauthorized));
    assert_eq!(register_split(&mut rs, &store, 1, 5, 0, vec![SplitRecipient { recipient: 2, basis_points: 10_000 }]), Err(ContractError::GrantNotFound));
    assert_eq!(get_split_recipients(&rs, 1, 0), None);
}

#[test]
fn cancel_shares_round_toward_zero() {
    let mut store = GrantStore::new();
    let funders = vec![GrantFund { funder: 21, amount: -3 }, GrantFund { funder: 22, amount: 13 }];
    store.set_grant(1, grant(1, 1, vec![], funders, 10, 7));
    let refunds = try_cancel_grant(&mut store, 1, 1, b("r"), 5).unwrap();
    assert_eq!(refunds, vec![-2, 9]);
    assert_eq!(refunds.iter().sum::<i128>(), 7);
}

#[test]
fn test_cancel_refunds_fit() {
    let f = |funder: u64, amount: i128| GrantFund { funder, amount };
    assert!(cancel_refunds_fit(&vec![f(1, 300), f(2, 700)], 1000));
    assert!(cancel_refunds_fit(&vec![f(1, 300), f(2, -700)], 1000));
    assert!(cancel_refunds_fit(&vec![], 1000));
    assert!(cancel_refunds_fit(&vec![f(1, i128::MAX), f(2, 1)], 1000));
    // each product fits, but the shares add up past i128::MAX
    assert!(!cancel_refunds_fit(&vec![f(1, 1), f(2, 1), f(3, -1)], i128::MAX));
}
