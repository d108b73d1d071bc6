use vstd::prelude::*;
use std::collections::HashMap;
use crate::errors::ContractError;
use crate::store::GrantStore;

verus! {

broadcast use vstd::std_specs::hash::group_hash_axioms;

/// A grant's pause: who paused it, when and why, when it lifts by itself,
/// and every lifting so far (who, when).
#[derive(Clone, Debug, PartialEq, Eq)]
pub struct GrantPauseRecord {
    pub grant_id: u64,
    pub paused_by: u64,
    pub paused_at: u64,
    pub reason: Vec<u8>,
    pub auto_unpause_at: Option<u64>,
    pub unpause_history: Vec<(u64, u64)>,
}

/// The pause records, by grant.
pub struct PauseStore {
    pub records: HashMap<u64, GrantPauseRecord>,
}

impl PauseStore {
    /// The pause record of grant `g`, if any.
    pub open spec fn record(&self, g: u64) -> Option<GrantPauseRecord> {
        if self.records@.contains_key(g) {
            Some(self.records@[g])
        } else {
            None
        }
    }

    /// Whether grant `g` is paused at time `now`: it has a record whose
    /// automatic lifting time, if any, is still ahead.
    pub open spec fn paused(&self, g: u64, now: u64) -> bool {
        match self.record(g) {
            None => false,
            Some(r) => !(r.auto_unpause_at matches Some(t) && now >= t),
        }
    }

    /// No grant is paused.
    pub fn new() -> (s: Self)
        ensures
            s.records@ == Map::<u64, GrantPauseRecord>::empty(),
    {
        PauseStore { records: HashMap::new() }
    }
}

/// The answer owed to the grant's owner check.
pub open spec fn owner_check(store: &GrantStore, caller: u64, g: u64) -> Result<(), ContractError> {
    match store.grant(g) {
        None => Err(ContractError::NotFound),
        Some(grant) => if grant.owner != caller {
            Err(ContractError::Unauthorized)
        } else {
            Ok(())
        },
    }
}

/// A copy of a list of (account, time) pairs.
fn copy_history(h: &Vec<(u64, u64)>) -> (r: Vec<(u64, u64)>)
    ensures
        r@ == h@,
{
    let mut out: Vec<(u64, u64)> = Vec::new();
    let mut i: usize = 0;
    while i < h.len()
        invariant
            i <= h.len(),
            out@ == h@.subrange(0, i as int),
        decreases h.len() - i,
    {
        out.push(h[i]);
        assert(h@.subrange(0, i as int + 1) =~= h@.subrange(0, i as int).push(h@[i as int]));
        i = i + 1;
    }
    assert(h@.subrange(0, h.len() as int) =~= h@);
    out
}

/// The grant's owner pauses it at time `now` for `reason`, to lift by
/// itself at `auto_unpause_at` when that lies ahead of `now` (a time not
/// ahead is dropped). Earlier liftings stay in the history.
///
/// Fails with `NotFound` (no such grant) or `Unauthorized` (not the
/// owner), changing nothing.
pub fn pause(ps: &mut PauseStore, store: &GrantStore, caller: u64, grant_id: u64, reason: Vec<u8>, auto_unpause_at: Option<u64>, now: u64) -> (r: Result<(), ContractError>)
    ensures
        r == owner_check(store, caller, grant_id),
        r is Err ==> final(ps).records@ == old(ps).records@,
        r is Ok ==> {
            let rec = final(ps).records@[grant_id];
            &&& final(ps).records@ == old(ps).records@.insert(grant_id, rec)
            &&& rec.grant_id == (match old(ps).record(grant_id) { Some(o) => o.grant_id, None => grant_id })
            &&& rec.paused_by == caller
            &&& rec.paused_at == now
            &&& rec.reason@ == reason@
            &&& rec.auto_unpause_at == (match auto_unpause_at {
                Some(t) => if t <= now { None } else { Some(t) },
                None => None,
            })
            &&& rec.unpause_history@ == (match old(ps).record(grant_id) { Some(o) => o.unpause_history@, None => Seq::empty() })
        },
        r is Ok ==> final(ps).paused(grant_id, now),
{
    let grant = match store.get_grant(grant_id) {
        Some(g) => g,
        None => {
            return Err(ContractError::NotFound);
        },
    };
    if grant.owner != caller {
        return Err(ContractError::Unauthorized);
    }
    let (gid, history) = match ps.records.get(&grant_id) {
        Some(old_rec) => (old_rec.grant_id, copy_history(&old_rec.unpause_history)),
        None => (grant_id, Vec::new()),
    };
    let auto = match auto_unpause_at {
        Some(t) => if t <= now { None } else { Some(t) },
        None => None,
    };
    let rec = GrantPauseRecord {
        grant_id: gid,
        paused_by: caller,
        paused_at: now,
        reason,
        auto_unpause_at: auto,
        unpause_history: history,
    };
    ps.records.insert(grant_id, rec);
    Ok(())
}

/// The grant's owner lifts its pause at time `now`, recording the lifting
/// (a no-op when the grant was never paused).
///
/// Fails with `NotFound` or `Unauthorized`, changing nothing.
pub fn unpause(ps: &mut PauseStore, store: &GrantStore, caller: u64, grant_id: u64, now: u64) -> (r: Result<(), ContractError>)
    ensures
        r == owner_check(store, caller, grant_id),
        r is Err || old(ps).record(grant_id) is None ==> final(ps).records@ == old(ps).records@,
        r is Ok && old(ps).record(grant_id) is Some ==> {
            let o = old(ps).records@[grant_id];
            let rec = final(ps).records@[grant_id];
            &&& final(ps).records@ == old(ps).records@.insert(grant_id, rec)
            &&& rec.unpause_history@ == o.unpause_history@.push((caller, now))
            &&& rec.auto_unpause_at == Some(now)
            &&& rec.reason@ == o.reason@
            &&& rec.grant_id == o.grant_id
            &&& rec.paused_by == o.paused_by
            &&& rec.paused_at == o.paused_at
        },
        r is Ok ==> !final(ps).paused(grant_id, now),
{
    let grant = match store.get_grant(grant_id) {
        Some(g) => g,
        None => {
            return Err(ContractError::NotFound);
        },
    };
    if grant.owner != caller {
        return Err(ContractError::Unauthorized);
    }
    match ps.records.remove(&grant_id) {
        Some(mut rec) => {
            rec.unpause_history.push((caller, now));
            rec.auto_unpause_at = Some(now);
            ps.records.insert(grant_id, rec);
        },
        None => {},
    }
    Ok(())
}

/// Fails with `ContractPaused` when grant `grant_id` is paused at `now`.
pub fn require_not_paused(ps: &PauseStore, grant_id: u64, now: u64) -> (r: Result<(), ContractError>)
    ensures
        r is Ok <==> !ps.paused(grant_id, now),
        r is Err ==> r == Err::<(), ContractError>(ContractError::ContractPaused),
{
    if is_paused(ps, grant_id, now) {
        return Err(ContractError::ContractPaused);
    }
    Ok(())
}

/// Whether grant `grant_id` is paused at time `now`.
pub fn is_paused(ps: &PauseStore, grant_id: u64, now: u64) -> (r: bool)
    ensures
        r == ps.paused(grant_id, now),
{
    match ps.records.get(&grant_id) {
        Some(rec) => match rec.auto_unpause_at {
            Some(t) => now < t,
            None => true,
        },
        None => false,
    }
}

/// The pause record of grant `grant_id`.
pub fn get_record(ps: &PauseStore, grant_id: u64) -> (r: Option<&GrantPauseRecord>)
    ensures
        match r {
            Some(rec) => ps.record(grant_id) == Some(*rec),
            None => ps.record(grant_id) is None,
        },
{
    ps.records.get(&grant_id)
}

/// When the automatic lifting time of grant `grant_id`'s pause has come
/// (at `now`), record the lifting in its history, attributed to the
/// contract's own account; returns whether it did.
pub fn try_auto_unpause(ps: &mut PauseStore, grant_id: u64, contract_address: u64, now: u64) -> (r: bool)
    ensures
        r == (old(ps).record(grant_id) matches Some(rec) && rec.auto_unpause_at matches Some(t) && now >= t),
        !r ==> final(ps).records@ == old(ps).records@,
        r ==> {
            let o = old(ps).records@[grant_id];
            let rec = final(ps).records@[grant_id];
            &&& final(ps).records@ == old(ps).records@.insert(grant_id, rec)
            &&& rec.unpause_history@ == o.unpause_history@.push((contract_address, now))
            &&& rec.reason@ == o.reason@
            &&& rec.auto_unpause_at == o.auto_unpause_at
            &&& rec.grant_id == o.grant_id
            &&& rec.paused_by == o.paused_by
            &&& rec.paused_at == o.paused_at
        },
{
    let due = match ps.records.get(&grant_id) {
        Some(rec) => match rec.auto_unpause_at {
            Some(t) => now >= t,
            None => false,
        },
        None => false,
    };
    if !due {
        return false;
    }
    match ps.records.remove(&grant_id) {
        Some(mut rec) => {
            rec.unpause_history.push((contract_address, now));
            ps.records.insert(grant_id, rec);
        },
        None => {},
    }
    true
}

} // verus!
