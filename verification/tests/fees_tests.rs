use stellar_grants::fees::{compute_fee, deduct_and_split_fee, net_of_fee, total_fees_collected, FeeLedger, ProtocolConfig};
use stellar_grants::math::basis_points_of;
use stellar_grants::ContractError;

fn config(protocol_fee_bps: u32, reviewer_reward_pool_bps: u32, revenue_share_pool_bps: u32) -> ProtocolConfig {
    ProtocolConfig {
        protocol_fee_bps,
        reviewer_reward_pool_bps,
        revenue_share_pool_bps,
        multisig_escrow_threshold: 2,
        kyc_payout_threshold: 10_000,
    }
}

#[test]
fn fees_test_compute_fee_zero_bps() {
    let result = compute_fee(1_000_000, 0).unwrap();
    assert_eq!(result, 0);
}

#[test]
fn fees_test_compute_fee_one_percent() {
    let result = compute_fee(1_000_000, 100).unwrap();
    assert_eq!(result, 10_000);
}

#[test]
fn fees_test_compute_fee_large_amount() {
    let result = compute_fee(100_000_000, 250).unwrap();
    assert_eq!(result, 2_500_000);
}

#[test]
fn fees_test_compute_fee_negative_gross_returns_zero() {
    let result = compute_fee(-1, 100).unwrap();
    assert_eq!(result, 0);
}

#[test]
fn fees_test_fee_accumulation_across_calls() {
    assert_eq!(compute_fee(1_000_000, 100).unwrap(), 10_000);
    assert_eq!(compute_fee(2_000_000, 100).unwrap(), 20_000);
}

#[test]
fn test_net_of_fee_subtracts_correctly() {
    let net = net_of_fee(1_000_000, 100).unwrap();
    assert_eq!(net, 990_000);
}

#[test]
fn test_deduct_and_split_fee_respects_reviewer_reward_split() {
    let token = 7u64;
    let cfg = config(1000, 5000, 0);
    let mut ledger = FeeLedger::new();
    let net = deduct_and_split_fee(&cfg, &mut ledger, token, 1_000_000).unwrap();
    assert_eq!(net, 900_000);
    assert_eq!(ledger.reviewer_pool_balance(token), 50_000);
    assert_eq!(total_fees_collected(&ledger, token), 50_000);
}

#[test]
fn test_deduct_and_split_fee_respects_both_splits() {
    let token = 7u64;
    let cfg = config(1000, 3000, 2000);
    let mut ledger = FeeLedger::new();
    let net = deduct_and_split_fee(&cfg, &mut ledger, token, 1_000_000).unwrap();
    assert_eq!(net, 900_000);
    assert_eq!(ledger.reviewer_pool_balance(token), 30_000);
    assert_eq!(ledger.revenue_pool_balance(token), 20_000);
    assert_eq!(total_fees_collected(&ledger, token), 50_000);
}

#[test]
fn test_deduct_and_split_zero_fee_no_ops() {
    let token = 7u64;
    let cfg = config(0, 5000, 0);
    let mut ledger = FeeLedger::new();
    let net = deduct_and_split_fee(&cfg, &mut ledger, token, 1_000_000).unwrap();
    assert_eq!(net, 1_000_000);
    assert_eq!(total_fees_collected(&ledger, token), 0);
}

#[test]
fn test_deduct_and_split_no_revenue_share_leaves_more_to_treasury() {
    let token = 7u64;
    let cfg = config(500, 2000, 0);
    let mut ledger = FeeLedger::new();
    let net = deduct_and_split_fee(&cfg, &mut ledger, token, 100_000).unwrap();
    assert_eq!(net, 95_000);
    assert_eq!(total_fees_collected(&ledger, token), 4000);
}

#[test]
fn fee_split_conserves_the_fee() {
    let token = 3u64;
    let cfg = config(333, 4444, 1111);
    let mut ledger = FeeLedger::new();
    let gross: i128 = 987_654_321;
    let net = deduct_and_split_fee(&cfg, &mut ledger, token, gross).unwrap();
    let fee = gross - net;
    assert_eq!(fee, compute_fee(gross, 333).unwrap());
    let parts = ledger.reviewer_pool_balance(token) + ledger.revenue_pool_balance(token) + total_fees_collected(&ledger, token);
    assert_eq!(parts, fee);
}

#[test]
fn fee_split_rejects_bad_bps() {
    let mut ledger = FeeLedger::new();
    assert_eq!(deduct_and_split_fee(&config(10_001, 0, 0), &mut ledger, 1, 1_000), Err(ContractError::InvalidInput));
    assert_eq!(deduct_and_split_fee(&config(100, 10_001, 0), &mut ledger, 1, 1_000_000), Err(ContractError::InvalidInput));
    assert_eq!(total_fees_collected(&ledger, 1), 0);
    assert_eq!(deduct_and_split_fee(&config(100, 0, 0), &mut ledger, 1, -5), Ok(0));
}

#[test]
fn fee_split_other_tokens_untouched() {
    let mut ledger = FeeLedger::new();
    deduct_and_split_fee(&config(1000, 5000, 0), &mut ledger, 1, 1_000_000).unwrap();
    assert_eq!(ledger.reviewer_pool_balance(2), 0);
    assert_eq!(total_fees_collected(&ledger, 2), 0);
}

#[test]
fn compute_fee_rejects_excess_bps() {
    assert_eq!(compute_fee(1_000, 10_001), Err(ContractError::InvalidInput));
    assert_eq!(net_of_fee(1_000, 10_001), Err(ContractError::InvalidInput));
    assert_eq!(compute_fee(1_000, 10_000), Ok(1_000));
    assert_eq!(compute_fee(999, 1), Ok(0));
}

#[test]
fn prop_basis_points_100pct() {
    for amount in [0i128, 1, 7, 1_000_000, i128::MAX / 3, i128::MAX] {
        assert_eq!(basis_points_of(amount, 10_000).unwrap(), amount);
    }
}

#[test]
fn prop_basis_points_zero_bps() {
    for amount in [0i128, 1, 7, 1_000_000, i128::MAX] {
        assert_eq!(basis_points_of(amount, 0).unwrap(), 0);
    }
}

#[test]
fn prop_basis_points_imax_1bp() {
    let result = basis_points_of(i128::MAX, 1);
    assert!(result.is_ok(), "must not overflow for i128::MAX, 1bp");
    let val = result.unwrap();
    assert!(val > 0, "result must be positive");
}

#[test]
fn prop_basis_points_invalid_bps() {
    for (amount, bps) in [(0i128, 10_001u32), (5, 20_000), (i128::MAX, u32::MAX)] {
        assert!(basis_points_of(amount, bps).is_err());
    }
}

#[test]
fn prop_basis_points_partition_never_exceeds_total() {
    let total: i128 = i128::MAX / 2;
    let shares = [2_500u32, 2_500, 1_000, 4_000];
    let mut sum = 0i128;
    for &bps in &shares {
        let part = basis_points_of(total, bps).unwrap();
        sum = sum.saturating_add(part);
    }
    assert!(sum <= total);
}

#[test]
fn basis_points_round_toward_zero() {
    assert_eq!(basis_points_of(-15_000, 1), Ok(-1));
    assert_eq!(basis_points_of(15_000, 1), Ok(1));
    assert_eq!(basis_points_of(i128::MIN, 10_000), Ok(i128::MIN));
    assert_eq!(basis_points_of(i128::MIN, 5_000), Ok(i128::MIN / 2));
}
