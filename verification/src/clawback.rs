use vstd::prelude::*;
use std::collections::HashMap;
use crate::access_control::{has_role, Role, RoleRegistry};
use crate::errors::ContractError;
use crate::store::{pair_key, spec_pair_key, GrantStore};
use crate::types::MilestoneState;

verus! {

broadcast use vstd::std_specs::hash::group_hash_axioms;

/// Where a clawback stands.
#[derive(Clone, Copy, Debug, PartialEq, Eq, Structural)]
pub enum ClawbackStatus {
    Pending,
    Approved,
    DisputedByContributor,
    Executed,
    Cancelled,
}

/// A request to take back a paid milestone's funds from the grant owner.
#[derive(Clone, Debug, PartialEq, Eq)]
pub struct ClawbackRequest {
    pub grant_id: u64,
    pub milestone_idx: u32,
    pub target: u64,
    pub amount: i128,
    pub token: u64,
    pub reason: Vec<u8>,
    pub initiated_by: u64,
    pub initiated_at: u64,
    pub dispute_window_ends: u64,
    pub approvals: Vec<u64>,
    pub required_approvals: u32,
    pub status: ClawbackStatus,
}

/// The token movement an executed clawback owes: `amount` of `token` from
/// `from` to `to`.
#[derive(Clone, Copy, Debug, PartialEq, Eq, Structural)]
pub struct ClawbackTransfer {
    pub token: u64,
    pub from: u64,
    pub to: u64,
    pub amount: i128,
}

/// Clawback requests, keyed by `spec_pair_key(grant_id, milestone_idx)`,
/// and the length of the window in which the target may dispute one.
pub struct ClawbackStore {
    pub requests: HashMap<u128, ClawbackRequest>,
    pub dispute_window_secs: u64,
}

/// How many signers a clawback needs: a protocol admin and an arbiter.
pub const REQUIRED_CLAWBACK_APPROVALS: u32 = 2;

impl ClawbackStore {
    /// The clawback of milestone `idx` of grant `g`, if any.
    pub open spec fn request(&self, g: u64, idx: u32) -> Option<ClawbackRequest> {
        let k = spec_pair_key(g, idx);
        if self.requests@.contains_key(k) {
            Some(self.requests@[k])
        } else {
            None
        }
    }

    /// Every request counts each signer once, and one that is approved or
    /// executed has as many approvals as it requires.
    pub open spec fn wf(&self) -> bool {
        forall|k: u128| #[trigger] self.requests@.contains_key(k) ==> {
            let q = self.requests@[k];
            &&& q.approvals@.no_duplicates()
            &&& (q.status == ClawbackStatus::Approved || q.status == ClawbackStatus::Executed)
                ==> q.approvals@.len() >= q.required_approvals
        }
    }

    /// An empty store with the given dispute window.
    pub fn new(dispute_window_secs: u64) -> (s: Self)
        ensures
            s.requests@ == Map::<u128, ClawbackRequest>::empty(),
            s.dispute_window_secs == dispute_window_secs,
            s.wf(),
    {
        ClawbackStore { requests: HashMap::new(), dispute_window_secs }
    }
}

/// `a + b`, or `u64::MAX` when that overflows.
pub open spec fn saturating_sum(a: u64, b: u64) -> u64 {
    if a + b > u64::MAX { u64::MAX } else { (a + b) as u64 }
}

/// What `initiate` answers, given the state it reads.
pub open spec fn initiate_outcome(cs: &ClawbackStore, store: &GrantStore, roles: &RoleRegistry, initiator: u64, g: u64, idx: u32) -> Result<(), ContractError> {
    if !roles.holds(initiator, Role::DisputeArbiter) {
        Err(ContractError::Unauthorized)
    } else if store.grant(g) is None {
        Err(ContractError::GrantNotFound)
    } else if store.milestone(g, idx) is None {
        Err(ContractError::MilestoneNotFound)
    } else if store.milestone(g, idx)->Some_0.state != MilestoneState::Paid {
        Err(ContractError::InvalidState)
    } else if cs.request(g, idx) is Some {
        Err(ContractError::InvalidState)
    } else {
        Ok(())
    }
}

/// Open a clawback of paid milestone `milestone_idx` of grant `grant_id`,
/// targeting the grant owner for the milestone's amount; only a dispute
/// arbiter may. Its dispute window closes `dispute_window_secs` after
/// `now` (saturating).
///
/// Fails with `Unauthorized` (initiator is no arbiter), `GrantNotFound`,
/// `MilestoneNotFound`, or `InvalidState` (milestone not paid, or a
/// clawback already exists for it), changing nothing.
pub fn initiate(
    cs: &mut ClawbackStore,
    store: &GrantStore,
    roles: &RoleRegistry,
    initiator: u64,
    grant_id: u64,
    milestone_idx: u32,
    reason: Vec<u8>,
    now: u64,
) -> (r: Result<(), ContractError>)
    requires
        old(cs).wf(),
    ensures
        r == initiate_outcome(old(cs), store, roles, initiator, grant_id, milestone_idx),
        final(cs).wf(),
        final(cs).dispute_window_secs == old(cs).dispute_window_secs,
        r is Err ==> final(cs).requests@ == old(cs).requests@,
        r is Ok ==> {
            let k = spec_pair_key(grant_id, milestone_idx);
            let q = final(cs).requests@[k];
            let g = store.grant(grant_id)->Some_0;
            let m = store.milestone(grant_id, milestone_idx)->Some_0;
            &&& final(cs).requests@ == old(cs).requests@.insert(k, q)
            &&& q.grant_id == grant_id
            &&& q.milestone_idx == milestone_idx
            &&& q.target == g.owner
            &&& q.amount == m.amount
            &&& q.token == g.token
            &&& q.reason@ == reason@
            &&& q.initiated_by == initiator
            &&& q.initiated_at == now
            &&& q.dispute_window_ends == saturating_sum(now, old(cs).dispute_window_secs)
            &&& q.approvals@ == Seq::<u64>::empty()
            &&& q.required_approvals == REQUIRED_CLAWBACK_APPROVALS
            &&& q.status == ClawbackStatus::Pending
        },
{
    if !has_role(roles, initiator, Role::DisputeArbiter) {
        return Err(ContractError::Unauthorized);
    }
    let grant = match store.get_grant(grant_id) {
        Some(g) => g,
        None => {
            return Err(ContractError::GrantNotFound);
        },
    };
    let milestone = match store.get_milestone(grant_id, milestone_idx) {
        Some(m) => m,
        None => {
            return Err(ContractError::MilestoneNotFound);
        },
    };
    if milestone.state != MilestoneState::Paid {
        return Err(ContractError::InvalidState);
    }
    let k = pair_key(grant_id, milestone_idx);
    if cs.requests.contains_key(&k) {
        return Err(ContractError::InvalidState);
    }
    let window = cs.dispute_window_secs;
    let ends = if now > u64::MAX - window { u64::MAX } else { now + window };
    let q = ClawbackRequest {
        grant_id,
        milestone_idx,
        target: grant.owner,
        amount: milestone.amount,
        token: grant.token,
        reason,
        initiated_by: initiator,
        initiated_at: now,
        dispute_window_ends: ends,
        approvals: Vec::new(),
        required_approvals: REQUIRED_CLAWBACK_APPROVALS,
        status: ClawbackStatus::Pending,
    };
    cs.requests.insert(k, q);
    assert forall|k2: u128| #[trigger] cs.requests@.contains_key(k2) implies {
        let q2 = cs.requests@[k2];
        &&& q2.approvals@.no_duplicates()
        &&& (q2.status == ClawbackStatus::Approved || q2.status == ClawbackStatus::Executed)
            ==> q2.approvals@.len() >= q2.required_approvals
    } by {
        if k2 != k {
            assert(old(cs).requests@.contains_key(k2));
        }
    }
    Ok(())
}

/// Whether `list` holds `who`.
fn list_contains(list: &Vec<u64>, who: u64) -> (r: bool)
    ensures
        r == list@.contains(who),
{
    crate::bytes::contains_account(list, who)
}

/// What `approve` answers, given the state it reads.
pub open spec fn approve_outcome(cs: &ClawbackStore, roles: &RoleRegistry, approver: u64, g: u64, idx: u32) -> Result<(), ContractError> {
    match cs.request(g, idx) {
        None => Err(ContractError::InvalidState),
        Some(q) => if q.status != ClawbackStatus::Pending {
            Err(ContractError::InvalidState)
        } else if q.approvals@.contains(approver) {
            Err(ContractError::AlreadyVoted)
        } else if !roles.holds(approver, Role::ProtocolAdmin) && !roles.holds(approver, Role::DisputeArbiter) {
            Err(ContractError::Unauthorized)
        } else {
            Ok(())
        },
    }
}

/// Add `approver`'s approval to the pending clawback of milestone
/// `milestone_idx` of grant `grant_id`; it becomes `Approved` once it has
/// as many approvals as it requires. Only a protocol admin or a dispute
/// arbiter may approve, once each.
///
/// Fails with `InvalidState` (no such clawback, or it is not pending),
/// `AlreadyVoted`, or `Unauthorized`, changing nothing.
pub fn approve(cs: &mut ClawbackStore, roles: &RoleRegistry, approver: u64, grant_id: u64, milestone_idx: u32) -> (r: Result<(), ContractError>)
    requires
        old(cs).wf(),
    ensures
        r == approve_outcome(old(cs), roles, approver, grant_id, milestone_idx),
        final(cs).wf(),
        final(cs).dispute_window_secs == old(cs).dispute_window_secs,
        r is Err ==> final(cs).requests@ == old(cs).requests@,
        r is Ok ==> {
            let k = spec_pair_key(grant_id, milestone_idx);
            let q = old(cs).requests@[k];
            let q2 = final(cs).requests@[k];
            &&& final(cs).requests@ == old(cs).requests@.insert(k, q2)
            &&& q2.approvals@ == q.approvals@.push(approver)
            &&& q2.status == (if q2.approvals@.len() >= q.required_approvals {
                ClawbackStatus::Approved
            } else {
                ClawbackStatus::Pending
            })
            &&& q2.reason@ == q.reason@
            &&& q2 == (ClawbackRequest { approvals: q2.approvals, status: q2.status, reason: q2.reason, ..q })
        },
{
    let k = pair_key(grant_id, milestone_idx);
    let q = match cs.requests.get(&k) {
        Some(q) => q,
        None => {
            return Err(ContractError::InvalidState);
        },
    };
    if q.status != ClawbackStatus::Pending {
        return Err(ContractError::InvalidState);
    }
    if list_contains(&q.approvals, approver) {
        return Err(ContractError::AlreadyVoted);
    }
    let is_protocol_admin = has_role(roles, approver, Role::ProtocolAdmin);
    let is_dispute_arbiter = has_role(roles, approver, Role::DisputeArbiter);
    if !is_protocol_admin && !is_dispute_arbiter {
        return Err(ContractError::Unauthorized);
    }
    let mut approvals = q.approvals.clone();
    assert(approvals@ =~= q.approvals@);
    approvals.push(approver);
    let status = if approvals.len() as u64 >= q.required_approvals as u64 {
        ClawbackStatus::Approved
    } else {
        ClawbackStatus::Pending
    };
    let q2 = ClawbackRequest {
        grant_id: q.grant_id,
        milestone_idx: q.milestone_idx,
        target: q.target,
        amount: q.amount,
        token: q.token,
        reason: crate::bytes::copy_bytes(&q.reason),
        initiated_by: q.initiated_by,
        initiated_at: q.initiated_at,
        dispute_window_ends: q.dispute_window_ends,
        approvals,
        required_approvals: q.required_approvals,
        status,
    };
    cs.requests.insert(k, q2);
    assert forall|k2: u128| #[trigger] cs.requests@.contains_key(k2) implies {
        let q3 = cs.requests@[k2];
        &&& q3.approvals@.no_duplicates()
        &&& (q3.status == ClawbackStatus::Approved || q3.status == ClawbackStatus::Executed)
            ==> q3.approvals@.len() >= q3.required_approvals
    } by {
        if k2 != k {
            assert(old(cs).requests@.contains_key(k2));
        } else {
            assert(old(cs).requests@.contains_key(k));
        }
    }
    Ok(())
}

/// Copy of a request with a new status.
fn with_status(q: &ClawbackRequest, status: ClawbackStatus) -> (r: ClawbackRequest)
    ensures
        r.approvals@ == q.approvals@,
        r.reason@ == q.reason@,
        r == (ClawbackRequest { approvals: r.approvals, reason: r.reason, status, ..*q }),
{
    let approvals = q.approvals.clone();
    assert(approvals@ =~= q.approvals@);
    ClawbackRequest {
        grant_id: q.grant_id,
        milestone_idx: q.milestone_idx,
        target: q.target,
        amount: q.amount,
        token: q.token,
        reason: crate::bytes::copy_bytes(&q.reason),
        initiated_by: q.initiated_by,
        initiated_at: q.initiated_at,
        dispute_window_ends: q.dispute_window_ends,
        approvals,
        required_approvals: q.required_approvals,
        status,
    }
}

/// The stored requests with the one under `k` given a new status.
pub open spec fn status_changed(before: Map<u128, ClawbackRequest>, after: Map<u128, ClawbackRequest>, k: u128, status: ClawbackStatus) -> bool {
    let q = before[k];
    let q2 = after[k];
    &&& after == before.insert(k, q2)
    &&& q2.approvals@ == q.approvals@
    &&& q2.reason@ == q.reason@
    &&& q2 == (ClawbackRequest { approvals: q2.approvals, reason: q2.reason, status, ..q })
}

/// What `dispute` answers, given the state it reads.
pub open spec fn dispute_outcome(cs: &ClawbackStore, store: &GrantStore, contributor: u64, g: u64, idx: u32, now: u64) -> Result<(), ContractError> {
    match cs.request(g, idx) {
        None => Err(ContractError::InvalidState),
        Some(q) => if q.target != contributor {
            Err(ContractError::Unauthorized)
        } else if q.status != ClawbackStatus::Pending && q.status != ClawbackStatus::Approved {
            Err(ContractError::InvalidState)
        } else if now > q.dispute_window_ends {
            Err(ContractError::DeadlinePassed)
        } else if store.grant(g) is None {
            Err(ContractError::GrantNotFound)
        } else {
            Ok(())
        },
    }
}

/// The target of a clawback may dispute it exactly while it is pending or
/// approved, its dispute window is still open and the grant exists; anyone
/// else, or the target at any other time, is refused.
pub proof fn lemma_dispute_allowed(cs: ClawbackStore, store: GrantStore, contributor: u64, g: u64, idx: u32, now: u64)
    ensures
        dispute_outcome(&cs, &store, contributor, g, idx, now) is Ok <==> (cs.request(g, idx) matches Some(q)
            && q.target == contributor
            && (q.status == ClawbackStatus::Pending || q.status == ClawbackStatus::Approved)
            && now <= q.dispute_window_ends
            && store.grant(g) is Some),
        (cs.request(g, idx) matches Some(q) && q.target != contributor) ==>
            dispute_outcome(&cs, &store, contributor, g, idx, now) == Err::<(), ContractError>(ContractError::Unauthorized),
{
}

/// The clawback's target contests it within the dispute window: the
/// clawback becomes `DisputedByContributor` (the caller then raises the
/// formal dispute for arbitration).
///
/// Fails with `InvalidState` (no such clawback, or it is neither pending
/// nor approved), `Unauthorized` (caller is not the target),
/// `DeadlinePassed` (window closed), or `GrantNotFound`, changing nothing.
pub fn dispute(cs: &mut ClawbackStore, store: &GrantStore, contributor: u64, grant_id: u64, milestone_idx: u32, now: u64) -> (r: Result<(), ContractError>)
    requires
        old(cs).wf(),
    ensures
        r == dispute_outcome(old(cs), store, contributor, grant_id, milestone_idx, now),
        final(cs).wf(),
        final(cs).dispute_window_secs == old(cs).dispute_window_secs,
        r is Err ==> final(cs).requests@ == old(cs).requests@,
        r is Ok ==> status_changed(old(cs).requests@, final(cs).requests@, spec_pair_key(grant_id, milestone_idx), ClawbackStatus::DisputedByContributor),
{
    let k = pair_key(grant_id, milestone_idx);
    let q = match cs.requests.get(&k) {
        Some(q) => q,
        None => {
            return Err(ContractError::InvalidState);
        },
    };
    if q.target != contributor {
        return Err(ContractError::Unauthorized);
    }
    if q.status != ClawbackStatus::Pending && q.status != ClawbackStatus::Approved {
        return Err(ContractError::InvalidState);
    }
    if now > q.dispute_window_ends {
        return Err(ContractError::DeadlinePassed);
    }
    if store.get_grant(grant_id).is_none() {
        return Err(ContractError::GrantNotFound);
    }
    let q2 = with_status(q, ClawbackStatus::DisputedByContributor);
    cs.requests.insert(k, q2);
    assert forall|k2: u128| #[trigger] cs.requests@.contains_key(k2) implies {
        let q3 = cs.requests@[k2];
        &&& q3.approvals@.no_duplicates()
        &&& (q3.status == ClawbackStatus::Approved || q3.status == ClawbackStatus::Executed)
            ==> q3.approvals@.len() >= q3.required_approvals
    } by {
        if k2 != k {
            assert(old(cs).requests@.contains_key(k2));
        } else {
            assert(old(cs).requests@.contains_key(k));
        }
    }
    Ok(())
}

/// What `execute` answers, given the state it reads.
pub open spec fn execute_outcome(cs: &ClawbackStore, store: &GrantStore, g: u64, idx: u32, now: u64) -> Result<ClawbackTransfer, ContractError> {
    match cs.request(g, idx) {
        None => Err(ContractError::InvalidState),
        Some(q) => if q.status != ClawbackStatus::Approved {
            Err(ContractError::InvalidState)
        } else if now <= q.dispute_window_ends {
            Err(ContractError::DeadlinePassed)
        } else if store.milestone(g, idx) is None {
            Err(ContractError::MilestoneNotFound)
        } else if store.milestone(g, idx)->Some_0.state != MilestoneState::Paid {
            Err(ContractError::InvalidState)
        } else if store.treasury is None {
            Err(ContractError::TreasuryNotConfigured)
        } else {
            Ok(ClawbackTransfer { token: q.token, from: q.target, to: store.treasury->Some_0, amount: q.amount })
        },
    }
}

/// Execute an approved clawback once its dispute window has closed: it
/// becomes `Executed`, and the result is the transfer from the target to
/// the treasury that the caller must carry out (its amount is what the
/// clawback recovers).
///
/// Fails with `InvalidState` (no such clawback, not approved, or the
/// milestone is no longer paid), `DeadlinePassed` (window still open),
/// `MilestoneNotFound`, or `TreasuryNotConfigured`, changing nothing.
pub fn execute(cs: &mut ClawbackStore, store: &GrantStore, grant_id: u64, milestone_idx: u32, now: u64) -> (r: Result<ClawbackTransfer, ContractError>)
    requires
        old(cs).wf(),
    ensures
        r == execute_outcome(old(cs), store, grant_id, milestone_idx, now),
        final(cs).wf(),
        final(cs).dispute_window_secs == old(cs).dispute_window_secs,
        r is Err ==> final(cs).requests@ == old(cs).requests@,
        r is Ok ==> status_changed(old(cs).requests@, final(cs).requests@, spec_pair_key(grant_id, milestone_idx), ClawbackStatus::Executed),
{
    let k = pair_key(grant_id, milestone_idx);
    let q = match cs.requests.get(&k) {
        Some(q) => q,
        None => {
            return Err(ContractError::InvalidState);
        },
    };
    if q.status != ClawbackStatus::Approved {
        return Err(ContractError::InvalidState);
    }
    if now <= q.dispute_window_ends {
        return Err(ContractError::DeadlinePassed);
    }
    let milestone = match store.get_milestone(grant_id, milestone_idx) {
        Some(m) => m,
        None => {
            return Err(ContractError::MilestoneNotFound);
        },
    };
    if milestone.state != MilestoneState::Paid {
        return Err(ContractError::InvalidState);
    }
    let treasury = match store.treasury {
        Some(t) => t,
        None => {
            return Err(ContractError::TreasuryNotConfigured);
        },
    };
    let transfer = ClawbackTransfer { token: q.token, from: q.target, to: treasury, amount: q.amount };
    let q2 = with_status(q, ClawbackStatus::Executed);
    cs.requests.insert(k, q2);
    assert forall|k2: u128| #[trigger] cs.requests@.contains_key(k2) implies {
        let q3 = cs.requests@[k2];
        &&& q3.approvals@.no_duplicates()
        &&& (q3.status == ClawbackStatus::Approved || q3.status == ClawbackStatus::Executed)
            ==> q3.approvals@.len() >= q3.required_approvals
    } by {
        if k2 != k {
            assert(old(cs).requests@.contains_key(k2));
        } else {
            assert(old(cs).requests@.contains_key(k));
        }
    }
    Ok(transfer)
}

/// What `cancel` answers, given the state it reads.
pub open spec fn cancel_outcome(cs: &ClawbackStore, roles: &RoleRegistry, admin: u64, g: u64, idx: u32) -> Result<(), ContractError> {
    if !roles.holds(admin, Role::ProtocolAdmin) && !roles.holds(admin, Role::DisputeArbiter) {
        Err(ContractError::Unauthorized)
    } else {
        match cs.request(g, idx) {
            None => Err(ContractError::InvalidState),
            Some(q) => if q.status == ClawbackStatus::Executed {
                Err(ContractError::InvalidState)
            } else {
                Ok(())
            },
        }
    }
}

/// Cancel a clawback that has not been executed; only a protocol admin or
/// a dispute arbiter may.
///
/// Fails with `Unauthorized`, or `InvalidState` (no such clawback, or it
/// was executed), changing nothing.
pub fn cancel(cs: &mut ClawbackStore, roles: &RoleRegistry, admin: u64, grant_id: u64, milestone_idx: u32) -> (r: Result<(), ContractError>)
    requires
        old(cs).wf(),
    ensures
        r == cancel_outcome(old(cs), roles, admin, grant_id, milestone_idx),
        final(cs).wf(),
        final(cs).dispute_window_secs == old(cs).dispute_window_secs,
        r is Err ==> final(cs).requests@ == old(cs).requests@,
        r is Ok ==> status_changed(old(cs).requests@, final(cs).requests@, spec_pair_key(grant_id, milestone_idx), ClawbackStatus::Cancelled),
{
    let is_protocol_admin = has_role(roles, admin, Role::ProtocolAdmin);
    let is_dispute_arbiter = has_role(roles, admin, Role::DisputeArbiter);
    if !is_protocol_admin && !is_dispute_arbiter {
        return Err(ContractError::Unauthorized);
    }
    let k = pair_key(grant_id, milestone_idx);
    let q = match cs.requests.get(&k) {
        Some(q) => q,
        None => {
            return Err(ContractError::InvalidState);
        },
    };
    if q.status == ClawbackStatus::Executed {
        return Err(ContractError::InvalidState);
    }
    let q2 = with_status(q, ClawbackStatus::Cancelled);
    cs.requests.insert(k, q2);
    assert forall|k2: u128| #[trigger] cs.requests@.contains_key(k2) implies {
        let q3 = cs.requests@[k2];
        &&& q3.approvals@.no_duplicates()
        &&& (q3.status == ClawbackStatus::Approved || q3.status == ClawbackStatus::Executed)
            ==> q3.approvals@.len() >= q3.required_approvals
    } by {
        if k2 != k {
            assert(old(cs).requests@.contains_key(k2));
        }
    }
    Ok(())
}

/// The clawback of milestone `milestone_idx` of grant `grant_id`.
pub fn get_request(cs: &ClawbackStore, grant_id: u64, milestone_idx: u32) -> (r: Option<&ClawbackRequest>)
    ensures
        match r {
            Some(q) => cs.request(grant_id, milestone_idx) == Some(*q),
            None => cs.request(grant_id, milestone_idx) is None,
        },
{
    let k = pair_key(grant_id, milestone_idx);
    cs.requests.get(&k)
}

/// A clawback that executes has been approved by at least as many
/// distinct signers as it requires, and its dispute window had closed.
pub proof fn lemma_executed_clawback_was_approved(cs: ClawbackStore, store: GrantStore, g: u64, idx: u32, now: u64)
    requires
        cs.wf(),
        execute_outcome(&cs, &store, g, idx, now) is Ok,
    ensures
        cs.request(g, idx)->Some_0.approvals@.no_duplicates(),
        cs.request(g, idx)->Some_0.approvals@.len() >= cs.request(g, idx)->Some_0.required_approvals,
        now > cs.request(g, idx)->Some_0.dispute_window_ends,
{
    assert(cs.requests@.contains_key(spec_pair_key(g, idx)));
}

/// An executed clawback is final: it can be neither cancelled, disputed,
/// approved nor executed again.
pub proof fn lemma_executed_clawback_is_final(cs: ClawbackStore, store: GrantStore, roles: RoleRegistry, who: u64, g: u64, idx: u32, now: u64)
    requires
        cs.request(g, idx) is Some,
        cs.request(g, idx)->Some_0.status == ClawbackStatus::Executed,
    ensures
        cancel_outcome(&cs, &roles, who, g, idx) is Err,
        dispute_outcome(&cs, &store, who, g, idx, now) is Err,
        approve_outcome(&cs, &roles, who, g, idx) is Err,
        execute_outcome(&cs, &store, g, idx, now) is Err,
{
}

} // verus!
