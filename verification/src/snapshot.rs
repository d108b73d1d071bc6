use vstd::prelude::*;
use crate::errors::ContractError;
use crate::grant_records::{get_snapshot_list, set_snapshot, set_snapshot_list, RecordStore, Snapshot, SnapshotTrigger};
use crate::store::{copy_grant, same_grant, spec_pair_key, GrantStore};

verus! {

/// Whether `who` may snapshot grant `g`: its owner, one of its evaluators,
/// or the global admin.
pub open spec fn related(store: &GrantStore, g: u64, who: u64) -> bool {
    let grant = store.grant(g)->Some_0;
    grant.owner == who || grant.reviewers@.contains(who) || store.global_admin == Some(who)
}

/// Capture grant `grant_id`'s current state at time `now` as its next
/// snapshot (numbered from 1) and return the snapshot's number.
///
/// Fails with `GrantNotFound`, or `Unauthorized` when `captured_by` is not
/// related to the grant; on failure nothing changes.
pub fn capture(
    rs: &mut RecordStore,
    store: &GrantStore,
    grant_id: u64,
    trigger: SnapshotTrigger,
    captured_by: u64,
    now: u64,
) -> (r: Result<u32, ContractError>)
    requires
        old(rs).snapshot_list(grant_id).len() < u32::MAX,
    ensures
        r == (if store.grant(grant_id) is None {
            Err(ContractError::GrantNotFound)
        } else if !related(store, grant_id, captured_by) {
            Err(ContractError::Unauthorized)
        } else {
            Ok((old(rs).snapshot_list(grant_id).len() + 1) as u32)
        }),
        final(rs).audit_page_counts@ == old(rs).audit_page_counts@,
        final(rs).audit_pages@ == old(rs).audit_pages@,
        final(rs).splits@ == old(rs).splits@,
        r is Err ==> final(rs).snapshots@ == old(rs).snapshots@ && final(rs).snapshot_lists@ == old(rs).snapshot_lists@,
        r matches Ok(id) ==> {
            let s = final(rs).snapshots@[spec_pair_key(grant_id, id)];
            &&& final(rs).snapshots@ == old(rs).snapshots@.insert(spec_pair_key(grant_id, id), s)
            &&& final(rs).snapshot_lists@ == old(rs).snapshot_lists@.insert(grant_id, final(rs).snapshot_lists@[grant_id])
            &&& final(rs).snapshot_list(grant_id) == old(rs).snapshot_list(grant_id).push(id)
            &&& s.snapshot_id == id
            &&& s.grant_id == grant_id
            &&& s.trigger == trigger
            &&& s.captured_by == captured_by
            &&& s.timestamp == now
            &&& same_grant(s.grant_state, store.grant(grant_id)->Some_0)
        },
{
    let grant = match store.get_grant(grant_id) {
        Some(g) => g,
        None => {
            return Err(ContractError::GrantNotFound);
        },
    };
    let is_related = grant.owner == captured_by || crate::bytes::contains_account(&grant.reviewers, captured_by)
        || store.is_global_admin(captured_by);
    if !is_related {
        return Err(ContractError::Unauthorized);
    }
    let mut list = get_snapshot_list(rs, grant_id);
    let id: u32 = list.len() as u32 + 1;
    let snapshot = Snapshot {
        snapshot_id: id,
        grant_id,
        trigger,
        captured_by,
        timestamp: now,
        grant_state: copy_grant(grant),
    };
    set_snapshot(rs, grant_id, id, snapshot);
    list.push(id);
    set_snapshot_list(rs, grant_id, list);
    Ok(id)
}

} // verus!
