use vstd::prelude::*;
use crate::errors::ContractError;
use crate::store::GrantStore;
use crate::types::{Grant, GrantFund, GrantStatus};

verus! {

broadcast use vstd::std_specs::hash::group_hash_axioms;

/// The sum of the first `n` contributions.
pub open spec fn sum_contributions(funders: Seq<GrantFund>, n: int) -> int
    decreases n,
{
    if n <= 0 {
        0
    } else {
        sum_contributions(funders, n - 1) + funders[n - 1].amount
    }
}

/// `p / t` rounded toward zero, for a positive `t`.
pub open spec fn trunc_div(p: int, t: int) -> int {
    if p >= 0 {
        p / t
    } else {
        -((-p) / t)
    }
}

/// The pro-rata share of `escrow` for a contribution of `amount` out of
/// `total` (rounded toward zero).
pub open spec fn pro_rata(amount: int, escrow: int, total: int) -> int {
    trunc_div(amount * escrow, total)
}

/// The sum of the pro-rata shares of the first `n` funders.
pub open spec fn sum_shares(funders: Seq<GrantFund>, escrow: int, total: int, n: int) -> int
    decreases n,
{
    if n <= 0 {
        0
    } else {
        sum_shares(funders, escrow, total, n - 1) + pro_rata(funders[n - 1].amount as int, escrow, total)
    }
}

/// The refund of funder `i` when `escrow` is returned to `funders`: its
/// pro-rata share, except that the last funder receives what remains, so that
/// the refunds add up to the escrow exactly.
pub open spec fn spec_refund(funders: Seq<GrantFund>, escrow: int, i: int) -> int {
    let total = sum_contributions(funders, funders.len() as int);
    if i == funders.len() - 1 {
        escrow - sum_shares(funders, escrow, total, i)
    } else {
        pro_rata(funders[i].amount as int, escrow, total)
    }
}

/// The sum of the first `n` values of `s`.
pub open spec fn seq_sum(s: Seq<i128>, n: int) -> int
    decreases n,
{
    if n <= 0 {
        0
    } else {
        seq_sum(s, n - 1) + s[n - 1]
    }
}

/// Whether every contribution is non-negative.
pub open spec fn contributions_nonneg(funders: Seq<GrantFund>) -> bool {
    forall|i: int| 0 <= i < funders.len() ==> (#[trigger] funders[i]).amount >= 0
}

/// Whether `x` fits an `i128`.
pub open spec fn fits_i128(x: int) -> bool {
    i128::MIN <= x <= i128::MAX
}

/// Whether every running total of the contributions fits an `i128`.
pub open spec fn sums_fit(funders: Seq<GrantFund>) -> bool {
    forall|k: int| 0 <= k <= funders.len() ==> fits_i128(#[trigger] sum_contributions(funders, k))
}

/// Whether some funder other than the last has a contribution whose product
/// with the escrow overflows.
pub open spec fn share_overflows(funders: Seq<GrantFund>, escrow: int) -> bool {
    exists|i: int| 0 <= i < funders.len() - 1 && !fits_i128((#[trigger] funders[i]).amount * escrow)
}

/// What the refund arithmetic needs in order to run without overflow once
/// the contributions add up to a positive total: each running total of the
/// shares computed before the first overflowing product fits an `i128`, and
/// so does what remains for the last funder when no product overflows.
pub open spec fn refunds_fit(funders: Seq<GrantFund>, escrow: int) -> bool {
    let n = funders.len() as int;
    let total = sum_contributions(funders, n);
    escrow > 0 && sums_fit(funders) && total > 0 ==> {
        &&& forall|k: int| 0 <= k < n && (forall|i: int| 0 <= i < k ==> fits_i128(#[trigger] funders[i].amount * escrow))
            ==> fits_i128(#[trigger] sum_shares(funders, escrow, total, k))
        &&& n > 0 && !share_overflows(funders, escrow) ==> fits_i128(escrow - sum_shares(funders, escrow, total, n - 1))
    }
}

proof fn lemma_sum_contributions_monotone(funders: Seq<GrantFund>, j: int, k: int)
    requires
        contributions_nonneg(funders),
        0 <= j <= k <= funders.len(),
    ensures
        0 <= sum_contributions(funders, j) <= sum_contributions(funders, k),
    decreases k - j,
{
    if j < k {
        lemma_sum_contributions_monotone(funders, j, k - 1);
        assert(funders[k - 1].amount >= 0);
    } else {
        lemma_sum_contributions_nonneg(funders, k);
    }
}

proof fn lemma_sum_contributions_nonneg(funders: Seq<GrantFund>, k: int)
    requires
        contributions_nonneg(funders),
        0 <= k <= funders.len(),
    ensures
        0 <= sum_contributions(funders, k),
    decreases k,
{
    if k > 0 {
        lemma_sum_contributions_nonneg(funders, k - 1);
        assert(funders[k - 1].amount >= 0);
    }
}

/// The shares of the first `k` funders add up to at most the same share of
/// their combined contribution.
proof fn lemma_shares_bounded(funders: Seq<GrantFund>, escrow: int, total: int, k: int)
    requires
        contributions_nonneg(funders),
        escrow > 0,
        total > 0,
        0 <= k <= funders.len(),
    ensures
        0 <= sum_shares(funders, escrow, total, k) <= (sum_contributions(funders, k) * escrow) / total,
    decreases k,
{
    if k > 0 {
        lemma_shares_bounded(funders, escrow, total, k - 1);
        lemma_sum_contributions_nonneg(funders, k - 1);
        let p = sum_contributions(funders, k - 1);
        let a = funders[k - 1].amount as int;
        assert(a >= 0);
        assert(p * escrow >= 0 && a * escrow >= 0) by (nonlinear_arith)
            requires
                p >= 0,
                a >= 0,
                escrow > 0,
        ;
        assert(pro_rata(a, escrow, total) == (a * escrow) / total);
        assert((p * escrow) / total + (a * escrow) / total <= ((p + a) * escrow) / total) by (nonlinear_arith)
            requires
                p * escrow >= 0,
                a * escrow >= 0,
                total > 0,
        {
            let x = p * escrow;
            let y = a * escrow;
            vstd::arithmetic::div_mod::lemma_fundamental_div_mod(x, total);
            vstd::arithmetic::div_mod::lemma_fundamental_div_mod(y, total);
            vstd::arithmetic::div_mod::lemma_fundamental_div_mod(x + y, total);
            assert((p + a) * escrow == x + y);
            assert(x + y == total * (x / total + y / total) + (x % total + y % total));
            assert(0 <= x % total + y % total);
            vstd::arithmetic::div_mod::lemma_div_is_ordered(total * (x / total + y / total), x + y, total);
            vstd::arithmetic::div_mod::lemma_div_multiples_vanish(x / total + y / total, total);
        }
        assert(0 <= (a * escrow) / total) by (nonlinear_arith)
            requires
                a * escrow >= 0,
                total > 0,
        ;
    }
}

/// A share of the whole escrow never exceeds it.
proof fn lemma_share_of_total(part: int, escrow: int, total: int)
    requires
        0 <= part <= total,
        total > 0,
        escrow > 0,
    ensures
        (part * escrow) / total <= escrow,
        0 <= (part * escrow) / total,
{
    assert(part * escrow <= total * escrow) by (nonlinear_arith)
        requires
            part <= total,
            escrow > 0,
    ;
    assert(0 <= part * escrow) by (nonlinear_arith)
        requires
            part >= 0,
            escrow > 0,
    ;
    vstd::arithmetic::div_mod::lemma_div_is_ordered(part * escrow, total * escrow, total);
    vstd::arithmetic::div_mod::lemma_div_multiples_vanish(escrow, total);
    assert(total * escrow == escrow * total) by (nonlinear_arith);
    vstd::arithmetic::div_mod::lemma_div_is_ordered(0, part * escrow, total);
}

/// With contributions that are never negative, the refund arithmetic never
/// overflows.
pub proof fn lemma_nonneg_refunds_fit(funders: Seq<GrantFund>, escrow: i128)
    requires
        contributions_nonneg(funders),
    ensures
        refunds_fit(funders, escrow as int),
{
    let n = funders.len() as int;
    let e = escrow as int;
    let total = sum_contributions(funders, n);
    if e > 0 && sums_fit(funders) && total > 0 {
        assert forall|k: int| 0 <= k < n && (forall|i: int| 0 <= i < k ==> fits_i128(#[trigger] funders[i].amount * e))
            implies fits_i128(#[trigger] sum_shares(funders, e, total, k)) by {
            lemma_shares_bounded(funders, e, total, k);
            lemma_sum_contributions_monotone(funders, k, n);
            lemma_share_of_total(sum_contributions(funders, k), e, total);
        }
        if n > 0 {
            lemma_shares_bounded(funders, e, total, n - 1);
            lemma_sum_contributions_monotone(funders, n - 1, n);
            lemma_share_of_total(sum_contributions(funders, n - 1), e, total);
        }
    }
}

/// Whether `caller` may cancel grant `g`: its owner or the global admin.
pub open spec fn may_cancel(store: GrantStore, g: Grant, caller: u64) -> bool {
    g.owner == caller || store.global_admin == Some(caller)
}

/// `p / t` rounded toward zero, for a positive `t`.
fn trunc_div_i128(p: i128, t: i128) -> (r: i128)
    requires
        t > 0,
    ensures
        r == trunc_div(p as int, t as int),
{
    if p >= 0 {
        ((p as u128) / (t as u128)) as i128
    } else {
        let mag: u128 = ((-(p + 1)) as u128) + 1;
        let q: u128 = mag / (t as u128);
        assert(mag == -p);
        assert(q <= mag) by {
            vstd::arithmetic::div_mod::lemma_div_is_ordered_by_denominator(mag as int, 1, t as int);
        }
        if q == 0 {
            0
        } else {
            -((q - 1) as i128) - 1
        }
    }
}

/// Whether the refund arithmetic of cancelling a grant with these funders
/// and this escrow runs without overflow (see `refunds_fit`).
#[verifier::loop_isolation(false)]
pub fn cancel_refunds_fit(funders: &Vec<GrantFund>, escrow: i128) -> (r: bool)
    ensures
        r == refunds_fit(funders@, escrow as int),
{
    let ghost f = funders@;
    let ghost e = escrow as int;
    if escrow <= 0 {
        return true;
    }
    let mut total: i128 = 0;
    let mut i: usize = 0;
    while i < funders.len()
        invariant
            i <= funders.len(),
            total as int == sum_contributions(f, i as int),
            forall|k: int| 0 <= k <= i ==> fits_i128(#[trigger] sum_contributions(f, k)),
        decreases funders.len() - i,
    {
        match total.checked_add(funders[i].amount) {
            Some(t) => {
                total = t;
            },
            None => {
                assert(!fits_i128(sum_contributions(f, i + 1)));
                assert(!sums_fit(f));
                return true;
            },
        }
        i = i + 1;
    }
    assert(sums_fit(f));
    if total <= 0 {
        return true;
    }
    let ghost t = total as int;
    let n = funders.len();
    let mut distributed: i128 = 0;
    let mut j: usize = 0;
    while j + 1 < n
        invariant
            n == funders.len(),
            n > 0 ==> j < n,
            n == 0 ==> j == 0,
            t == sum_contributions(f, n as int),
            t == total,
            distributed as int == sum_shares(f, e, t, j as int),
            forall|k: int| 0 <= k < j ==> fits_i128(#[trigger] f[k].amount * e),
            forall|k: int| 0 <= k <= j ==> fits_i128(#[trigger] sum_shares(f, e, t, k)),
        decreases n - j,
    {
        let product = match funders[j].amount.checked_mul(escrow) {
            Some(p) => p,
            None => {
                assert(!fits_i128(f[j as int].amount * e));
                assert(share_overflows(f, e));
                assert forall|k: int| 0 <= k < n && (forall|i2: int| 0 <= i2 < k ==> fits_i128(#[trigger] f[i2].amount * e))
                    implies fits_i128(#[trigger] sum_shares(f, e, t, k)) by {
                    if k > j {
                        assert(fits_i128(f[j as int].amount * e));
                    }
                }
                return true;
            },
        };
        let share = trunc_div_i128(product, total);
        assert(sum_shares(f, e, t, j + 1) == distributed + share);
        match distributed.checked_add(share) {
            Some(d) => {
                distributed = d;
            },
            None => {
                assert(forall|i2: int| 0 <= i2 < j + 1 ==> fits_i128(#[trigger] f[i2].amount * e));
                assert(!fits_i128(sum_shares(f, e, t, j + 1)));
                return false;
            },
        }
        j = j + 1;
    }
    if n == 0 {
        return true;
    }
    assert(!share_overflows(f, e)) by {
        if share_overflows(f, e) {
            let w = choose|w: int| 0 <= w < f.len() - 1 && !fits_i128((#[trigger] f[w]).amount * e);
            assert(fits_i128(f[w].amount * e));
        }
    }
    assert forall|k: int| 0 <= k < n && (forall|i2: int| 0 <= i2 < k ==> fits_i128(#[trigger] f[i2].amount * e))
        implies fits_i128(#[trigger] sum_shares(f, e, t, k)) by {}
    escrow.checked_sub(distributed).is_some()
}

/// Cancel an active grant and refund its escrow to its funders pro rata.
///
/// Only the grant's owner or the global admin may cancel; the grant must be
/// active with milestones still unpaid. When the escrow is positive it is
/// split among the funders by contribution, rounded toward zero, the last
/// funder receiving the remainder so that the refunds add up to the escrow
/// exactly. Fails with `InvalidInput` when a running total of the
/// contributions overflows, the contributions do not add up to a positive
/// total, or a share cannot be computed without overflow. On success
/// returns each funder's refund (in the order of the grant's funders; empty
/// when there was nothing to refund) and marks the grant cancelled with an
/// empty escrow. On error nothing changes.
#[verifier::loop_isolation(false)]
pub fn try_cancel_grant(
    store: &mut GrantStore,
    grant_id: u64,
    caller: u64,
    reason: Vec<u8>,
    now: u64,
) -> (r: Result<Vec<i128>, ContractError>)
    requires
        old(store).grant(grant_id) is Some ==> refunds_fit(
            old(store).grant(grant_id)->Some_0.funders@,
            old(store).grant(grant_id)->Some_0.escrow_balance as int,
        ),
        old(store).wf(),
    ensures
        final(store).wf(),
        ({
            let g = old(store).grant(grant_id)->Some_0;
            let funders = g.funders@;
            let escrow = g.escrow_balance as int;
            let total = sum_contributions(funders, funders.len() as int);
            if old(store).grant(grant_id) is None {
                r == Err::<Vec<i128>, ContractError>(ContractError::GrantNotFound)
            } else if !may_cancel(*old(store), g, caller) {
                r == Err::<Vec<i128>, ContractError>(ContractError::Unauthorized)
            } else if g.status != GrantStatus::Active || g.milestones_paid_out >= g.total_milestones {
                r == Err::<Vec<i128>, ContractError>(ContractError::InvalidState)
            } else if escrow > 0 && (!sums_fit(funders) || total <= 0 || share_overflows(funders, escrow)) {
                r == Err::<Vec<i128>, ContractError>(ContractError::InvalidInput)
            } else {
                r is Ok
            }
        }),
        r is Err ==> final(store).grants@ == old(store).grants@,
        r is Ok ==> ({
            let g = old(store).grant(grant_id)->Some_0;
            let g2 = final(store).grant(grant_id)->Some_0;
            let funders = g.funders@;
            let escrow = g.escrow_balance as int;
            let refunds = r->Ok_0@;
            &&& final(store).grants@ == old(store).grants@.insert(grant_id, g2)
            &&& g2.status == GrantStatus::Cancelled
            &&& g2.escrow_balance == 0
            &&& g2.reason == Some(reason)
            &&& g2.timestamp == now
            &&& g2.id == g.id && g2.owner == g.owner && g2.token == g.token
            &&& g2.title == g.title && g2.description == g.description
            &&& g2.total_amount == g.total_amount && g2.milestone_amount == g.milestone_amount
            &&& g2.reviewers == g.reviewers && g2.total_milestones == g.total_milestones
            &&& g2.milestones_paid_out == g.milestones_paid_out && g2.funders == g.funders
            // the refunds
            &&& escrow <= 0 ==> refunds.len() == 0
            &&& escrow > 0 ==> {
                &&& refunds.len() == funders.len()
                &&& forall|i: int| 0 <= i < refunds.len() ==> refunds[i] == spec_refund(funders, escrow, i)
                &&& contributions_nonneg(funders) ==> forall|i: int| 0 <= i < refunds.len() ==> refunds[i] >= 0
                &&& seq_sum(refunds, refunds.len() as int) == escrow
            }
        }),
        final(store).milestones@ == old(store).milestones@,
        final(store).contributors@ == old(store).contributors@,
        final(store).global_admin == old(store).global_admin,
        final(store).treasury == old(store).treasury,
{
    let grant = match store.get_grant(grant_id) {
        Some(g) => g,
        None => {
            return Err(ContractError::GrantNotFound);
        },
    };
    let caller_is_owner = grant.owner == caller;
    let caller_is_admin = store.is_global_admin(caller);
    if !caller_is_owner && !caller_is_admin {
        return Err(ContractError::Unauthorized);
    }
    if grant.status != GrantStatus::Active {
        return Err(ContractError::InvalidState);
    }
    if grant.milestones_paid_out >= grant.total_milestones {
        return Err(ContractError::InvalidState);
    }
    let ghost funders = grant.funders@;
    let ghost n = funders.len() as int;
    let total_refundable = grant.escrow_balance;
    let mut refunds: Vec<i128> = Vec::new();
    if total_refundable > 0 {
        let mut total_contributions: i128 = 0;
        let mut i: usize = 0;
        while i < grant.funders.len()
            invariant
                i <= grant.funders.len(),
                funders == grant.funders@,
                total_contributions as int == sum_contributions(funders, i as int),
                forall|k: int| 0 <= k <= i ==> fits_i128(#[trigger] sum_contributions(funders, k)),
            decreases grant.funders.len() - i,
        {
            let amount = grant.funders[i].amount;
            match total_contributions.checked_add(amount) {
                Some(t) => {
                    total_contributions = t;
                },
                None => {
                    assert(!fits_i128(sum_contributions(funders, i + 1)));
                    return Err(ContractError::InvalidInput);
                },
            }
            i = i + 1;
        }
        assert(sums_fit(funders));
        if total_contributions <= 0 {
            return Err(ContractError::InvalidInput);
        }
        let ghost total = total_contributions as int;
        let ghost escrow = total_refundable as int;
        assert(refunds_fit(funders, escrow));
        let funders_len = grant.funders.len();
        let mut distributed: i128 = 0;
        let mut j: usize = 0;
        while j < funders_len
            invariant
                j <= funders_len,
                funders_len == grant.funders.len(),
                funders == grant.funders@,
                n == funders_len,
                sums_fit(funders),
                total == sum_contributions(funders, n),
                total == total_contributions,
                total > 0,
                escrow == total_refundable,
                escrow > 0,
                refunds_fit(funders, escrow),
                forall|k: int| 0 <= k < j && k < n - 1 ==> fits_i128(#[trigger] funders[k].amount * escrow),
                j < funders_len ==> distributed as int == sum_shares(funders, escrow, total, j as int),
                refunds@.len() == j,
                forall|k: int| 0 <= k < j ==> refunds@[k] == spec_refund(funders, escrow, k),
                j < funders_len ==> seq_sum(refunds@, j as int) == sum_shares(funders, escrow, total, j as int),
                j == funders_len ==> seq_sum(refunds@, j as int) == escrow,
            decreases funders_len - j,
        {
            let amount = grant.funders[j].amount;
            let is_last = j + 1 == funders_len;
            let refund_amount = if is_last {
                proof {
                    assert(!share_overflows(funders, escrow)) by {
                        if share_overflows(funders, escrow) {
                            let w = choose|w: int| 0 <= w < funders.len() - 1 && !fits_i128((#[trigger] funders[w]).amount * escrow);
                            assert(fits_i128(funders[w].amount * escrow));
                        }
                    }
                }
                total_refundable - distributed
            } else {
                let product = match amount.checked_mul(total_refundable) {
                    Some(p) => p,
                    None => {
                        assert(share_overflows(funders, escrow)) by {
                            assert(!fits_i128(funders[j as int].amount * escrow));
                        }
                        return Err(ContractError::InvalidInput);
                    },
                };
                let share = trunc_div_i128(product, total_contributions);
                proof {
                    assert forall|k: int| 0 <= k < j + 1 implies fits_i128(#[trigger] funders[k].amount * escrow) by {
                        if k == j {
                            assert(product == funders[k].amount * escrow);
                        }
                    }
                    assert(fits_i128(sum_shares(funders, escrow, total, j + 1)));
                    assert(sum_shares(funders, escrow, total, j + 1) == distributed + share);
                }
                distributed = distributed + share;
                share
            };
            let ghost before = refunds@;
            refunds.push(refund_amount);
            proof {
                assert(refunds@.drop_last() =~= before);
                assert(before.take(j as int) =~= before);
                assert(seq_sum(refunds@, j + 1) == seq_sum(before, j as int) + refund_amount) by {
                    assert(seq_sum(refunds@, j as int) == seq_sum(before, j as int)) by {
                        lemma_seq_sum_prefix(refunds@, before, j as int);
                    }
                }
            }
            j = j + 1;
        }
        proof {
            if contributions_nonneg(funders) {
                assert forall|k: int| 0 <= k < refunds@.len() implies refunds@[k] >= 0 by {
                    lemma_shares_bounded(funders, escrow, total, k);
                    lemma_sum_contributions_monotone(funders, k, n);
                    lemma_share_of_total(sum_contributions(funders, k), escrow, total);
                    if k < n - 1 {
                        assert(funders[k].amount >= 0);
                        assert(funders[k].amount * escrow >= 0) by (nonlinear_arith)
                            requires
                                funders[k].amount >= 0,
                                escrow > 0,
                        ;
                        vstd::arithmetic::div_mod::lemma_div_is_ordered(0, funders[k].amount * escrow, total);
                    }
                }
            }
        }
    }
    let mut updated = store.grants.remove(&grant_id).unwrap();
    updated.status = GrantStatus::Cancelled;
    updated.escrow_balance = 0;
    updated.reason = Some(reason);
    updated.timestamp = now;
    store.set_grant(grant_id, updated);
    proof {
        assert forall|id: u64| #[trigger] store.grants@.contains_key(id) implies {
            &&& store.grants@[id].reviewers@.len() <= u32::MAX
            &&& store.grants@[id].funders@.len() <= u32::MAX
        } by {
            assert(old(store).grants@.contains_key(id));
        }
    }
    Ok(refunds)
}

/// Two sequences that agree on their first `n` values have the same sum of
/// them.
proof fn lemma_seq_sum_prefix(a: Seq<i128>, b: Seq<i128>, n: int)
    requires
        0 <= n <= a.len(),
        n <= b.len(),
        forall|k: int| 0 <= k < n ==> a[k] == b[k],
    ensures
        seq_sum(a, n) == seq_sum(b, n),
    decreases n,
{
    if n > 0 {
        lemma_seq_sum_prefix(a, b, n - 1);
    }
}

} // verus!
