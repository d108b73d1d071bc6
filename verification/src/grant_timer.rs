use vstd::prelude::*;
use std::collections::HashMap;
use crate::errors::ContractError;
use crate::store::GrantStore;
use crate::types::{Grant, GrantStatus};

verus! {

broadcast use vstd::std_specs::hash::group_hash_axioms;

/// What a timer does when it fires.
#[derive(Clone, Copy, Debug, PartialEq, Eq, Structural)]
pub enum TimerTriggerType {
    AutoExpire,
    AutoActivate,
    AutoCancel,
    AutoReleaseLockup,
    CustomCallback,
}

/// A timer registered on a grant.
#[derive(Clone, Copy, Debug, PartialEq, Eq, Structural)]
pub struct TimerRecord {
    pub grant_id: u64,
    pub trigger_type: TimerTriggerType,
    pub fires_at: u64,
    pub fires_at_ledger: Option<u32>,
    pub fired: bool,
    pub fired_at: Option<u64>,
    pub triggered_by: Option<u64>,
}

/// The timers of all grants.
pub struct TimerStore {
    pub timers: HashMap<u64, Vec<TimerRecord>>,
}

impl TimerStore {
    /// The timers of grant `g`, in registration order.
    pub open spec fn timers_of(&self, g: u64) -> Seq<TimerRecord> {
        if self.timers@.contains_key(g) {
            self.timers@[g]@
        } else {
            Seq::empty()
        }
    }

    /// An empty store.
    pub fn new() -> (s: Self)
        ensures
            s.timers@ == Map::<u64, Vec<TimerRecord>>::empty(),
    {
        TimerStore { timers: HashMap::new() }
    }
}

/// Whether a timer of this kind may fire on grant `g`.
pub open spec fn eligible(g: Grant, t: TimerTriggerType) -> bool {
    match t {
        TimerTriggerType::AutoExpire => g.status == GrantStatus::Active && g.milestones_paid_out < g.total_milestones,
        TimerTriggerType::AutoActivate => g.status == GrantStatus::Active && g.escrow_balance >= g.total_amount,
        TimerTriggerType::AutoCancel => g.status == GrantStatus::Active && g.escrow_balance == 0,
        TimerTriggerType::AutoReleaseLockup => g.status == GrantStatus::Active,
        TimerTriggerType::CustomCallback => true,
    }
}

/// Whether timer `t` of grant `gid` fires at time `now`, judged against the
/// grant as it was when triggering began.
pub open spec fn fires(t: TimerRecord, g: Grant, gid: u64, now: u64) -> bool {
    !t.fired && t.grant_id == gid && now >= t.fires_at && eligible(g, t.trigger_type)
}

/// The reason recorded when a timer of this kind cancels its grant.
pub open spec fn cancel_reason(t: TimerTriggerType) -> Option<Seq<u8>> {
    match t {
        TimerTriggerType::AutoExpire => Some(seq![
            97u8, 117, 116, 111, 45, 101, 120, 112, 105, 114, 101, 100, 32, 98, 121, 32, 116, 105, 109, 101, 114,
        ]),
        TimerTriggerType::AutoCancel => Some(seq![
            97u8, 117, 116, 111, 45, 99, 97, 110, 99, 101, 108, 108, 101, 100, 58, 32, 110, 111, 116, 32, 102, 117,
            110, 100, 101, 100, 32, 98, 121, 32, 100, 101, 97, 100, 108, 105, 110, 101,
        ]),
        _ => None,
    }
}

/// The reason of the last of the first `n` timers that fires and cancels.
pub open spec fn last_cancel(timers: Seq<TimerRecord>, g: Grant, gid: u64, now: u64, n: int) -> Option<Seq<u8>>
    decreases n,
{
    if n <= 0 {
        None
    } else if fires(timers[n - 1], g, gid, now) && cancel_reason(timers[n - 1].trigger_type) is Some {
        cancel_reason(timers[n - 1].trigger_type)
    } else {
        last_cancel(timers, g, gid, now, n - 1)
    }
}

/// How many of the first `n` timers fire.
pub open spec fn count_firing(timers: Seq<TimerRecord>, g: Grant, gid: u64, now: u64, n: int) -> nat
    decreases n,
{
    if n <= 0 {
        0
    } else {
        count_firing(timers, g, gid, now, n - 1) + (if fires(timers[n - 1], g, gid, now) { 1nat } else { 0nat })
    }
}

/// When none of the first `n` timers is counted as firing, none fires.
proof fn lemma_count_zero(timers: Seq<TimerRecord>, g: Grant, gid: u64, now: u64, n: int)
    requires
        0 <= n <= timers.len(),
        count_firing(timers, g, gid, now, n) == 0,
    ensures
        forall|i: int| 0 <= i < n ==> !fires(#[trigger] timers[i], g, gid, now),
    decreases n,
{
    if n > 0 {
        lemma_count_zero(timers, g, gid, now, n - 1);
    }
}

/// `t` after firing at `now`, triggered by `caller`.
pub open spec fn fired_record(t: TimerRecord, now: u64, caller: u64) -> TimerRecord {
    TimerRecord { fired: true, fired_at: Some(now), triggered_by: Some(caller), ..t }
}

/// Whether `who` is the grant's owner or the global admin.
pub open spec fn owner_or_admin(store: GrantStore, g: Grant, who: u64) -> bool {
    g.owner == who || store.global_admin == Some(who)
}

/// Whether an unfired timer of kind `t` is registered.
pub open spec fn has_unfired(timers: Seq<TimerRecord>, t: TimerTriggerType) -> bool {
    exists|i: int| 0 <= i < timers.len() && (#[trigger] timers[i]).trigger_type == t && !timers[i].fired
}

/// Register a timer on a grant. Its owner or the global admin only.
///
/// Fails with `GrantNotFound`, `Unauthorized`, or `InvalidInput` when an
/// unfired timer of the same kind is already registered.
#[verifier::loop_isolation(false)]
pub fn register_timer(
    store: &GrantStore,
    ts: &mut TimerStore,
    caller: u64,
    grant_id: u64,
    trigger_type: TimerTriggerType,
    fires_at: u64,
) -> (r: Result<(), ContractError>)
    ensures
        ({
            let g = store.grant(grant_id)->Some_0;
            if store.grant(grant_id) is None {
                r == Err::<(), ContractError>(ContractError::GrantNotFound)
            } else if !owner_or_admin(*store, g, caller) {
                r == Err::<(), ContractError>(ContractError::Unauthorized)
            } else if has_unfired(old(ts).timers_of(grant_id), trigger_type) {
                r == Err::<(), ContractError>(ContractError::InvalidInput)
            } else {
                &&& r is Ok
                &&& final(ts).timers_of(grant_id) == old(ts).timers_of(grant_id).push(TimerRecord {
                    grant_id,
                    trigger_type,
                    fires_at,
                    fires_at_ledger: None,
                    fired: false,
                    fired_at: None,
                    triggered_by: None,
                })
                &&& final(ts).timers@ == old(ts).timers@.insert(grant_id, final(ts).timers@[grant_id])
            }
        }),
        r is Err ==> final(ts).timers@ == old(ts).timers@,
{
    let grant = match store.get_grant(grant_id) {
        Some(g) => g,
        None => {
            return Err(ContractError::GrantNotFound);
        },
    };
    let is_owner = grant.owner == caller;
    let is_admin = store.is_global_admin(caller);
    if !is_owner && !is_admin {
        return Err(ContractError::Unauthorized);
    }
    let mut timers: Vec<TimerRecord> = match ts.timers.get(&grant_id) {
        Some(t) => t.clone(),
        None => Vec::new(),
    };
    let ghost old_timers = old(ts).timers_of(grant_id);
    assert(timers@ =~= old_timers);
    let mut i: usize = 0;
    while i < timers.len()
        invariant
            i <= timers.len(),
            timers@ == old_timers,
            forall|j: int| 0 <= j < i ==> !((#[trigger] timers@[j]).trigger_type == trigger_type && !timers@[j].fired),
        decreases timers.len() - i,
    {
        if timers[i].trigger_type == trigger_type && !timers[i].fired {
            assert(has_unfired(old_timers, trigger_type));
            return Err(ContractError::InvalidInput);
        }
        i = i + 1;
    }
    timers.push(TimerRecord {
        grant_id,
        trigger_type,
        fires_at,
        fires_at_ledger: None,
        fired: false,
        fired_at: None,
        triggered_by: None,
    });
    ts.timers.insert(grant_id, timers);
    Ok(())
}

/// The reason text a timer of this kind records when it cancels a grant.
fn cancel_reason_bytes(t: TimerTriggerType) -> (r: Option<Vec<u8>>)
    ensures
        match r {
            Some(v) => cancel_reason(t) == Some(v@),
            None => cancel_reason(t) is None,
        },
{
    match t {
        TimerTriggerType::AutoExpire => {
            let v = vec![
                97u8, 117, 116, 111, 45, 101, 120, 112, 105, 114, 101, 100, 32, 98, 121, 32, 116, 105, 109, 101, 114,
            ];
            assert(v@ =~= cancel_reason(t)->Some_0);
            Some(v)
        },
        TimerTriggerType::AutoCancel => {
            let v = vec![
                97u8, 117, 116, 111, 45, 99, 97, 110, 99, 101, 108, 108, 101, 100, 58, 32, 110, 111, 116, 32, 102, 117,
                110, 100, 101, 100, 32, 98, 121, 32, 100, 101, 97, 100, 108, 105, 110, 101,
            ];
            assert(v@ =~= cancel_reason(t)->Some_0);
            Some(v)
        },
        _ => None,
    }
}

/// Carry out what a firing timer does to its grant: an expiring or
/// cancelling timer cancels it, recording the reason and time; the others
/// leave it unchanged.
fn execute_timer_action(store: &mut GrantStore, grant_id: u64, timer: &TimerRecord, now: u64)
    requires
        old(store).wf(),
    ensures
        final(store).wf(),
        match cancel_reason(timer.trigger_type) {
            Some(reason) => old(store).grant(grant_id) is Some ==> {
                let g = old(store).grant(grant_id)->Some_0;
                let g2 = final(store).grant(grant_id)->Some_0;
                &&& final(store).grants@ == old(store).grants@.insert(grant_id, g2)
                &&& g2 == (Grant { status: GrantStatus::Cancelled, reason: g2.reason, timestamp: now, ..g })
                &&& g2.reason is Some && g2.reason->Some_0@ == reason
            },
            None => true,
        },
        cancel_reason(timer.trigger_type) is None || old(store).grant(grant_id) is None ==> final(store).grants@ == old(store).grants@,
        final(store).milestones@ == old(store).milestones@,
        final(store).contributors@ == old(store).contributors@,
        final(store).global_admin == old(store).global_admin,
        final(store).treasury == old(store).treasury,
{
    match cancel_reason_bytes(timer.trigger_type) {
        Some(reason) => {
            match store.grants.remove(&grant_id) {
                Some(mut g) => {
                    g.status = GrantStatus::Cancelled;
                    g.reason = Some(reason);
                    g.timestamp = now;
                    store.set_grant(grant_id, g);
                    assert forall|id: u64| #[trigger] store.grants@.contains_key(id) implies {
                        &&& store.grants@[id].reviewers@.len() <= u32::MAX
                        &&& store.grants@[id].funders@.len() <= u32::MAX
                    } by {
                        assert(old(store).grants@.contains_key(id));
                    }
                },
                None => {},
            }
        },
        None => {},
    }
}

/// Fire every due, eligible, unfired timer of a grant; returns how many
/// fired. Anyone may call.
///
/// Eligibility is judged against the grant as it was when triggering began.
/// Each firing timer is marked fired at `now` by `caller`; expiring and
/// cancelling timers cancel the grant, recording their reason. A timer that
/// has fired never fires again. A missing grant fires nothing.
#[verifier::loop_isolation(false)]
pub fn trigger_timers(store: &mut GrantStore, ts: &mut TimerStore, caller: u64, grant_id: u64, now: u64) -> (r: u32)
    requires
        old(store).wf(),
        old(ts).timers_of(grant_id).len() <= u32::MAX,
    ensures
        final(store).wf(),
        old(store).grant(grant_id) is None ==> r == 0 && final(ts).timers@ == old(ts).timers@
            && final(store).grants@ == old(store).grants@,
        old(store).grant(grant_id) is Some ==> ({
            let g = old(store).grant(grant_id)->Some_0;
            let before = old(ts).timers_of(grant_id);
            let after = final(ts).timers_of(grant_id);
            let n = before.len() as int;
            &&& r == count_firing(before, g, grant_id, now, n)
            &&& after.len() == before.len()
            &&& forall|i: int| 0 <= i < n ==> (#[trigger] after[i]) == (if fires(before[i], g, grant_id, now) {
                fired_record(before[i], now, caller)
            } else {
                before[i]
            })
            &&& r > 0 ==> final(ts).timers@ == old(ts).timers@.insert(grant_id, final(ts).timers@[grant_id])
            &&& r == 0 ==> final(ts).timers@ == old(ts).timers@
            // the grant is cancelled by the last cancelling timer to fire
            &&& match last_cancel(before, g, grant_id, now, n) {
                Some(reason) => {
                    let g2 = final(store).grant(grant_id)->Some_0;
                    &&& final(store).grants@ == old(store).grants@.insert(grant_id, g2)
                    &&& g2 == (Grant { status: GrantStatus::Cancelled, reason: g2.reason, timestamp: now, ..g })
                    &&& g2.reason is Some && g2.reason->Some_0@ == reason
                },
                None => final(store).grants@ == old(store).grants@,
            }
        }),
        final(store).milestones@ == old(store).milestones@,
        final(store).contributors@ == old(store).contributors@,
        final(store).global_admin == old(store).global_admin,
        final(store).treasury == old(store).treasury,
{
    let (eligible_expire, eligible_activate, eligible_cancel, eligible_lockup) = match store.get_grant(grant_id) {
        Some(grant) => (
            grant.status == GrantStatus::Active && grant.milestones_paid_out < grant.total_milestones,
            grant.status == GrantStatus::Active && grant.escrow_balance >= grant.total_amount,
            grant.status == GrantStatus::Active && grant.escrow_balance == 0,
            grant.status == GrantStatus::Active,
        ),
        None => {
            return 0;
        },
    };
    let ghost g = old(store).grant(grant_id)->Some_0;
    assert(eligible_expire == eligible(g, TimerTriggerType::AutoExpire));
    assert(eligible_activate == eligible(g, TimerTriggerType::AutoActivate));
    assert(eligible_cancel == eligible(g, TimerTriggerType::AutoCancel));
    assert(eligible_lockup == eligible(g, TimerTriggerType::AutoReleaseLockup));
    let mut timers: Vec<TimerRecord> = match ts.timers.get(&grant_id) {
        Some(t) => t.clone(),
        None => Vec::new(),
    };
    let ghost before = old(ts).timers_of(grant_id);
    assert(timers@ =~= before);
    let mut fired_count: u32 = 0;
    let mut i: usize = 0;
    while i < timers.len()
        invariant
            i <= timers.len(),
            timers.len() == before.len(),
            before.len() <= u32::MAX,
            fired_count as nat == count_firing(before, g, grant_id, now, i as int),
            fired_count <= i,
            forall|j: int| 0 <= j < timers.len() ==> (#[trigger] timers@[j]) == (if j < i && fires(before[j], g, grant_id, now) {
                fired_record(before[j], now, caller)
            } else {
                before[j]
            }),
            store.wf(),
            store.milestones@ == old(store).milestones@,
            store.contributors@ == old(store).contributors@,
            store.global_admin == old(store).global_admin,
            store.treasury == old(store).treasury,
            match last_cancel(before, g, grant_id, now, i as int) {
                Some(reason) => {
                    let g2 = store.grant(grant_id)->Some_0;
                    &&& store.grants@ == old(store).grants@.insert(grant_id, g2)
                    &&& g2 == (Grant { status: GrantStatus::Cancelled, reason: g2.reason, timestamp: now, ..g })
                    &&& g2.reason is Some && g2.reason->Some_0@ == reason
                },
                None => store.grants@ == old(store).grants@,
            },
        decreases timers.len() - i,
    {
        let timer = timers[i];
        if timer.fired || timer.grant_id != grant_id || now < timer.fires_at {
            i = i + 1;
            continue;
        }
        let is_eligible = match timer.trigger_type {
            TimerTriggerType::AutoExpire => eligible_expire,
            TimerTriggerType::AutoActivate => eligible_activate,
            TimerTriggerType::AutoCancel => eligible_cancel,
            TimerTriggerType::AutoReleaseLockup => eligible_lockup,
            TimerTriggerType::CustomCallback => true,
        };
        if !is_eligible {
            i = i + 1;
            continue;
        }
        execute_timer_action(store, grant_id, &timer, now);
        let mut t = timer;
        t.fired = true;
        t.fired_at = Some(now);
        t.triggered_by = Some(caller);
        timers.set(i, t);
        fired_count = fired_count + 1;
        i = i + 1;
    }
    if fired_count > 0 {
        ts.timers.insert(grant_id, timers);
        assert(ts.timers_of(grant_id) =~= timers@);
    } else {
        proof {
            lemma_count_zero(before, g, grant_id, now, before.len() as int);
        }
    }
    fired_count
}

/// All timers of a grant.
pub fn get_timers(ts: &TimerStore, grant_id: u64) -> (r: Vec<TimerRecord>)
    ensures
        r@ == ts.timers_of(grant_id),
{
    match ts.timers.get(&grant_id) {
        Some(t) => {
            let r = t.clone();
            assert(r@ =~= t@);
            r
        },
        None => Vec::new(),
    }
}

/// The timers among the first `n` that have not fired and are due at `now`.
pub open spec fn spec_pending(timers: Seq<TimerRecord>, now: u64, n: int) -> Seq<TimerRecord>
    decreases n,
{
    if n <= 0 {
        Seq::empty()
    } else if !timers[n - 1].fired && now >= timers[n - 1].fires_at {
        spec_pending(timers, now, n - 1).push(timers[n - 1])
    } else {
        spec_pending(timers, now, n - 1)
    }
}

/// The unfired timers of a grant that are due at `now`, in order.
pub fn pending_timers(ts: &TimerStore, grant_id: u64, now: u64) -> (r: Vec<TimerRecord>)
    ensures
        r@ == spec_pending(ts.timers_of(grant_id), now, ts.timers_of(grant_id).len() as int),
{
    let timers = get_timers(ts, grant_id);
    let ghost all = timers@;
    let mut pending: Vec<TimerRecord> = Vec::new();
    let mut i: usize = 0;
    while i < timers.len()
        invariant
            i <= timers.len(),
            timers@ == all,
            pending@ == spec_pending(all, now, i as int),
        decreases timers.len() - i,
    {
        let t = timers[i];
        if !t.fired && now >= t.fires_at {
            pending.push(t);
        }
        i = i + 1;
    }
    pending
}

/// The index of the first unfired timer of kind `t`.
pub open spec fn first_unfired(timers: Seq<TimerRecord>, t: TimerTriggerType, i: int) -> int
    decreases timers.len() - i,
{
    if i >= timers.len() {
        timers.len() as int
    } else if timers[i].trigger_type == t && !timers[i].fired {
        i
    } else {
        first_unfired(timers, t, i + 1)
    }
}

/// Cancel the first unfired timer of a kind. Owner or global admin only.
///
/// Fails with `GrantNotFound`, `Unauthorized` or `TimerNotFound`.
#[verifier::loop_isolation(false)]
pub fn cancel_timer(store: &GrantStore, ts: &mut TimerStore, caller: u64, grant_id: u64, trigger_type: TimerTriggerType) -> (r: Result<(), ContractError>)
    ensures
        ({
            let g = store.grant(grant_id)->Some_0;
            let timers = old(ts).timers_of(grant_id);
            if store.grant(grant_id) is None {
                r == Err::<(), ContractError>(ContractError::GrantNotFound)
            } else if !owner_or_admin(*store, g, caller) {
                r == Err::<(), ContractError>(ContractError::Unauthorized)
            } else if !has_unfired(timers, trigger_type) {
                r == Err::<(), ContractError>(ContractError::TimerNotFound)
            } else {
                &&& r is Ok
                &&& final(ts).timers_of(grant_id) == timers.remove(first_unfired(timers, trigger_type, 0))
                &&& final(ts).timers@ == old(ts).timers@.insert(grant_id, final(ts).timers@[grant_id])
            }
        }),
        r is Err ==> final(ts).timers@ == old(ts).timers@,
{
    let grant = match store.get_grant(grant_id) {
        Some(g) => g,
        None => {
            return Err(ContractError::GrantNotFound);
        },
    };
    let is_owner = grant.owner == caller;
    let is_admin = store.is_global_admin(caller);
    if !is_owner && !is_admin {
        return Err(ContractError::Unauthorized);
    }
    let mut timers: Vec<TimerRecord> = match ts.timers.get(&grant_id) {
        Some(t) => t.clone(),
        None => Vec::new(),
    };
    let ghost all = old(ts).timers_of(grant_id);
    assert(timers@ =~= all);
    let mut i: usize = 0;
    while i < timers.len()
        invariant
            i <= timers.len(),
            timers@ == all,
            first_unfired(all, trigger_type, 0) == first_unfired(all, trigger_type, i as int),
            forall|j: int| 0 <= j < i ==> !((#[trigger] all[j]).trigger_type == trigger_type && !all[j].fired),
            ts.timers@ == old(ts).timers@,
        decreases timers.len() - i,
    {
        if timers[i].trigger_type == trigger_type && !timers[i].fired {
            assert(first_unfired(all, trigger_type, i as int) == i);
            timers.remove(i);
            ts.timers.insert(grant_id, timers);
            return Ok(());
        }
        i = i + 1;
    }
    Err(ContractError::TimerNotFound)
}

} // verus!
