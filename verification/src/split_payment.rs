use vstd::prelude::*;
use crate::errors::ContractError;
use crate::grant_records::{set_split_recipients, RecordStore, SplitRecipient};
use crate::store::{spec_pair_key, GrantStore};
use crate::types::GrantStatus;

verus! {

/// The basis points of the first `n` recipients, summed.
pub open spec fn bps_total(s: Seq<SplitRecipient>, n: int) -> int
    decreases n,
{
    if n <= 0 { 0 } else { bps_total(s, n - 1) + s[n - 1].basis_points }
}

/// Whether a split is well formed: at least one recipient, each with a
/// positive share, and the shares summing to exactly 10 000 basis points.
pub open spec fn valid_split(s: Seq<SplitRecipient>) -> bool {
    &&& s.len() > 0
    &&& forall|i: int| 0 <= i < s.len() ==> (#[trigger] s[i]).basis_points > 0
    &&& bps_total(s, s.len() as int) == 10_000
}

/// Partial sums only grow.
proof fn lemma_bps_total_monotone(s: Seq<SplitRecipient>, i: int, j: int)
    requires
        0 <= i <= j <= s.len(),
    ensures
        bps_total(s, i) <= bps_total(s, j),
    decreases j - i,
{
    if i < j {
        lemma_bps_total_monotone(s, i, j - 1);
    }
}

/// The grant's owner divides the payment of milestone `milestone_idx` of
/// active grant `grant_id` among `recipients`, replacing any earlier split.
///
/// Fails with `GrantNotFound`, `Unauthorized` (not the owner),
/// `InvalidState` (grant not active), or `InvalidInput` (the split is not
/// well formed); on failure nothing changes.
#[verifier::loop_isolation(false)]
pub fn register_split(
    rs: &mut RecordStore,
    store: &GrantStore,
    caller: u64,
    grant_id: u64,
    milestone_idx: u32,
    recipients: Vec<SplitRecipient>,
) -> (r: Result<(), ContractError>)
    ensures
        r == (match store.grant(grant_id) {
            None => Err(ContractError::GrantNotFound),
            Some(g) => if g.owner != caller {
                Err(ContractError::Unauthorized)
            } else if g.status != GrantStatus::Active {
                Err(ContractError::InvalidState)
            } else if !valid_split(recipients@) {
                Err(ContractError::InvalidInput)
            } else {
                Ok(())
            },
        }),
        final(rs).audit_page_counts@ == old(rs).audit_page_counts@,
        final(rs).audit_pages@ == old(rs).audit_pages@,
        final(rs).snapshots@ == old(rs).snapshots@,
        final(rs).snapshot_lists@ == old(rs).snapshot_lists@,
        final(rs).splits@ == (if r is Ok {
            old(rs).splits@.insert(spec_pair_key(grant_id, milestone_idx), recipients)
        } else {
            old(rs).splits@
        }),
{
    let grant = match store.get_grant(grant_id) {
        Some(g) => g,
        None => {
            return Err(ContractError::GrantNotFound);
        },
    };
    if grant.owner != caller {
        return Err(ContractError::Unauthorized);
    }
    if grant.status != GrantStatus::Active {
        return Err(ContractError::InvalidState);
    }
    if recipients.len() == 0 {
        return Err(ContractError::InvalidInput);
    }
    let mut total: u32 = 0;
    let mut i: usize = 0;
    while i < recipients.len()
        invariant
            i <= recipients.len(),
            total == bps_total(recipients@, i as int),
            forall|j: int| 0 <= j < i ==> (#[trigger] recipients@[j]).basis_points > 0,
        decreases recipients.len() - i,
    {
        let bp = recipients[i].basis_points;
        if bp == 0 {
            assert(recipients@[i as int].basis_points == 0);
            assert(!valid_split(recipients@));
            return Err(ContractError::InvalidInput);
        }
        if bp > u32::MAX - total {
            proof {
                assert(bps_total(recipients@, i as int + 1) == total + bp);
                lemma_bps_total_monotone(recipients@, i as int + 1, recipients@.len() as int);
                assert(bps_total(recipients@, recipients@.len() as int) > 10_000);
                assert(!valid_split(recipients@));
            }
            return Err(ContractError::InvalidInput);
        }
        total = total + bp;
        i = i + 1;
    }
    if total != 10_000 {
        return Err(ContractError::InvalidInput);
    }
    set_split_recipients(rs, grant_id, milestone_idx, recipients);
    Ok(())
}

} // verus!
