use vstd::prelude::*;
use crate::errors::ContractError;
use crate::math::{basis_points_of, spec_bps_of};
use std::collections::HashMap;

verus! {

broadcast use vstd::std_specs::hash::group_hash_axioms;

/// The protocol fee that `fee_bps` basis points take from `gross`: zero when
/// no fee is configured or the gross amount is not positive.
pub open spec fn spec_fee(gross: int, fee_bps: int) -> int {
    if fee_bps == 0 || gross <= 0 {
        0
    } else {
        spec_bps_of(gross, fee_bps)
    }
}

/// A configured fee never exceeds the gross amount and is never negative.
pub proof fn lemma_fee_bounds(gross: int, fee_bps: int)
    requires
        0 <= fee_bps <= 10_000,
    ensures
        0 <= spec_fee(gross, fee_bps),
        gross > 0 ==> spec_fee(gross, fee_bps) <= gross,
        gross <= 0 ==> spec_fee(gross, fee_bps) == 0,
{
    if fee_bps != 0 && gross > 0 {
        assert(gross * fee_bps <= gross * 10_000) by (nonlinear_arith)
            requires
                gross > 0,
                fee_bps <= 10_000,
        ;
        assert(0 <= gross * fee_bps) by (nonlinear_arith)
            requires
                gross > 0,
                fee_bps >= 0,
        ;
        assert((gross * fee_bps) / 10_000 <= gross) by (nonlinear_arith)
            requires
                gross * fee_bps <= gross * 10_000,
                gross > 0,
        ;
    }
}

/// Compute the protocol fee on a gross amount.
///
/// Zero when `fee_bps` is zero or `gross` is not positive; otherwise
/// `gross * fee_bps / 10 000` rounded down, and `InvalidInput` when `fee_bps`
/// exceeds 10 000.
pub fn compute_fee(gross: i128, fee_bps: u32) -> (result: Result<i128, ContractError>)
    ensures
        (fee_bps == 0 || gross <= 0) ==> result == Ok::<i128, ContractError>(0),
        (fee_bps != 0 && gross > 0 && fee_bps > 10_000) ==> result == Err::<i128, ContractError>(
            ContractError::InvalidInput,
        ),
        (fee_bps <= 10_000 || gross <= 0) ==> result == Ok::<i128, ContractError>(
            spec_fee(gross as int, fee_bps as int) as i128,
        ),
        result is Ok ==> 0 <= result->Ok_0 && (gross > 0 ==> result->Ok_0 <= gross),
{
    if fee_bps == 0 || gross <= 0 {
        return Ok(0);
    }
    basis_points_of(gross, fee_bps)
}

/// Compute the amount left after deducting the protocol fee.
///
/// `gross - fee` for the fee of `compute_fee`, failing exactly where that
/// fails.
pub fn net_of_fee(gross: i128, fee_bps: u32) -> (result: Result<i128, ContractError>)
    ensures
        (fee_bps != 0 && gross > 0 && fee_bps > 10_000) ==> result == Err::<i128, ContractError>(
            ContractError::InvalidInput,
        ),
        (fee_bps <= 10_000 || gross <= 0) ==> result == Ok::<i128, ContractError>(
            (gross - spec_fee(gross as int, fee_bps as int)) as i128,
        ),
{
    let fee = compute_fee(gross, fee_bps)?;
    proof {
        if fee_bps <= 10_000 {
            lemma_fee_bounds(gross as int, fee_bps as int);
        }
    }
    Ok(gross - fee)
}


/// The protocol's fee settings.
#[derive(Clone, Copy, Debug, PartialEq, Eq, Structural)]
pub struct ProtocolConfig {
    /// The protocol fee taken from each payout, in basis points.
    pub protocol_fee_bps: u32,
    /// The part of the fee that funds the evaluator-reward pool, in basis points of the fee.
    pub reviewer_reward_pool_bps: u32,
    /// The part of the fee that funds the staker revenue-share pool, in basis points of the fee.
    pub revenue_share_pool_bps: u32,
    /// The number of approvals an escrow release needs.
    pub multisig_escrow_threshold: u32,
    /// Payouts above this amount need a verified recipient.
    pub kyc_payout_threshold: i128,
}

/// Where collected fees go, per token: the evaluator-reward pool, the
/// revenue-share pool and the treasury.
pub struct FeeLedger {
    pub reviewer_pool: HashMap<u64, i128>,
    pub revenue_pool: HashMap<u64, i128>,
    pub fees_collected: HashMap<u64, i128>,
}

/// The balance held for `token` in a per-token map (0 when absent).
pub open spec fn balance_in(m: Map<u64, i128>, token: u64) -> int {
    if m.contains_key(token) {
        m[token] as int
    } else {
        0
    }
}

/// The balance held for `token` (0 when absent).
fn balance_of(m: &HashMap<u64, i128>, token: u64) -> (r: i128)
    ensures
        r == balance_in(m@, token),
{
    match m.get(&token) {
        Some(b) => *b,
        None => 0,
    }
}

/// Add `amount` to the balance held for `token`.
fn credit(m: &mut HashMap<u64, i128>, token: u64, amount: i128)
    requires
        balance_in(old(m)@, token) + amount <= i128::MAX,
        balance_in(old(m)@, token) + amount >= i128::MIN,
    ensures
        final(m)@ == old(m)@.insert(token, (balance_in(old(m)@, token) + amount) as i128),
{
    let b = balance_of(m, token);
    m.insert(token, b + amount);
}

impl FeeLedger {
    /// An empty ledger.
    pub fn new() -> (s: Self)
        ensures
            s.reviewer_pool@ == Map::<u64, i128>::empty(),
            s.revenue_pool@ == Map::<u64, i128>::empty(),
            s.fees_collected@ == Map::<u64, i128>::empty(),
    {
        FeeLedger { reviewer_pool: HashMap::new(), revenue_pool: HashMap::new(), fees_collected: HashMap::new() }
    }

    /// The evaluator-reward pool's balance of `token`.
    pub fn reviewer_pool_balance(&self, token: u64) -> (r: i128)
        ensures
            r == balance_in(self.reviewer_pool@, token),
    {
        balance_of(&self.reviewer_pool, token)
    }

    /// The revenue-share pool's balance of `token`.
    pub fn revenue_pool_balance(&self, token: u64) -> (r: i128)
        ensures
            r == balance_in(self.revenue_pool@, token),
    {
        balance_of(&self.revenue_pool, token)
    }
}

/// The fees in `token` collected into the treasury.
pub fn total_fees_collected(ledger: &FeeLedger, token: u64) -> (r: i128)
    ensures
        r == balance_in(ledger.fees_collected@, token),
{
    balance_of(&ledger.fees_collected, token)
}

/// Deduct the protocol fee from a gross milestone payout, split the fee
/// among the evaluator-reward pool, the revenue-share pool and the treasury,
/// and return the net amount payable to the grant's recipient.
///
/// A non-positive gross amount pays nothing and collects nothing; with no fee
/// the gross amount is paid in full. The pools take their basis points of
/// the fee (rounded down) and the treasury what remains; a share that is not
/// positive is not credited, and each balance credited must have room for
/// its share. Fails with `InvalidInput` when a basis-point setting exceeds
/// 10 000. On error nothing changes.
pub fn deduct_and_split_fee(cfg: &ProtocolConfig, ledger: &mut FeeLedger, token: u64, gross_amount: i128) -> (r: Result<i128, ContractError>)
    requires
        ({
            let fee = spec_fee(gross_amount as int, cfg.protocol_fee_bps as int);
            let reviewer = spec_bps_of(fee, cfg.reviewer_reward_pool_bps as int);
            let revenue = spec_bps_of(fee, cfg.revenue_share_pool_bps as int);
            let treasury = fee - reviewer - revenue;
            gross_amount > 0 && cfg.protocol_fee_bps <= 10_000 && fee > 0 && cfg.reviewer_reward_pool_bps <= 10_000
                && cfg.revenue_share_pool_bps <= 10_000 ==> {
                &&& reviewer > 0 ==> balance_in(old(ledger).reviewer_pool@, token) + reviewer <= i128::MAX
                &&& revenue > 0 ==> balance_in(old(ledger).revenue_pool@, token) + revenue <= i128::MAX
                &&& treasury > 0 ==> balance_in(old(ledger).fees_collected@, token) + treasury <= i128::MAX
            }
        }),
    ensures
        ({
            let fee = spec_fee(gross_amount as int, cfg.protocol_fee_bps as int);
            let reviewer = spec_bps_of(fee, cfg.reviewer_reward_pool_bps as int);
            let revenue = spec_bps_of(fee, cfg.revenue_share_pool_bps as int);
            let treasury = fee - reviewer - revenue;
            if gross_amount <= 0 {
                r == Ok::<i128, ContractError>(0)
            } else if cfg.protocol_fee_bps > 10_000 {
                r == Err::<i128, ContractError>(ContractError::InvalidInput)
            } else if fee <= 0 {
                r == Ok::<i128, ContractError>(gross_amount)
            } else if cfg.reviewer_reward_pool_bps > 10_000 || cfg.revenue_share_pool_bps > 10_000 {
                r == Err::<i128, ContractError>(ContractError::InvalidInput)
            } else {
                &&& r == Ok::<i128, ContractError>((gross_amount - fee) as i128)
                &&& balance_in(final(ledger).reviewer_pool@, token) == balance_in(old(ledger).reviewer_pool@, token) + (if reviewer > 0 { reviewer } else { 0 })
                &&& balance_in(final(ledger).revenue_pool@, token) == balance_in(old(ledger).revenue_pool@, token) + (if revenue > 0 { revenue } else { 0 })
                &&& balance_in(final(ledger).fees_collected@, token) == balance_in(old(ledger).fees_collected@, token) + (if treasury > 0 { treasury } else { 0 })
                // The fee is conserved when the pools do not claim more than all of it.
                &&& cfg.reviewer_reward_pool_bps + cfg.revenue_share_pool_bps <= 10_000 ==> treasury >= 0
            }
        }),
        forall|t: u64| t != token ==> balance_in(final(ledger).reviewer_pool@, t) == balance_in(old(ledger).reviewer_pool@, t)
            && balance_in(final(ledger).revenue_pool@, t) == balance_in(old(ledger).revenue_pool@, t)
            && balance_in(final(ledger).fees_collected@, t) == balance_in(old(ledger).fees_collected@, t),
        (r is Err || gross_amount <= 0 || spec_fee(gross_amount as int, cfg.protocol_fee_bps as int) <= 0) ==> {
            &&& final(ledger).reviewer_pool@ == old(ledger).reviewer_pool@
            &&& final(ledger).revenue_pool@ == old(ledger).revenue_pool@
            &&& final(ledger).fees_collected@ == old(ledger).fees_collected@
        },
        r is Ok ==> r->Ok_0 >= 0 && r->Ok_0 <= gross_amount || gross_amount <= 0,
{
    if gross_amount <= 0 {
        return Ok(0);
    }
    let total_fee = compute_fee(gross_amount, cfg.protocol_fee_bps)?;
    proof {
        lemma_fee_bounds(gross_amount as int, cfg.protocol_fee_bps as int);
    }
    if total_fee <= 0 {
        return Ok(gross_amount);
    }
    let reviewer_share = basis_points_of(total_fee, cfg.reviewer_reward_pool_bps)?;
    let revenue_share = basis_points_of(total_fee, cfg.revenue_share_pool_bps)?;
    proof {
        let f = total_fee as int;
        let a = cfg.reviewer_reward_pool_bps as int;
        let b = cfg.revenue_share_pool_bps as int;
        if a + b <= 10_000 {
            assert((f * a) / 10_000 + (f * b) / 10_000 <= f) by (nonlinear_arith)
                requires
                    f > 0,
                    a >= 0,
                    b >= 0,
                    a + b <= 10_000,
            {
                vstd::arithmetic::div_mod::lemma_fundamental_div_mod(f * a, 10_000);
                vstd::arithmetic::div_mod::lemma_fundamental_div_mod(f * b, 10_000);
                assert(f * a + f * b <= f * 10_000);
            }
        }
    }
    let treasury_share = total_fee - reviewer_share - revenue_share;
    if reviewer_share > 0 {
        credit(&mut ledger.reviewer_pool, token, reviewer_share);
    }
    if revenue_share > 0 {
        credit(&mut ledger.revenue_pool, token, revenue_share);
    }
    if treasury_share > 0 {
        credit(&mut ledger.fees_collected, token, treasury_share);
    }
    Ok(gross_amount - total_fee)
}

} // verus!
