use vstd::prelude::*;
use std::collections::HashMap;
use crate::errors::ContractError;
use crate::fees::ProtocolConfig;
use crate::store::{pair_key, spec_pair_key};

verus! {

broadcast use vstd::std_specs::hash::group_hash_axioms;

/// How long a release request stays open: two weeks.
pub const REQUEST_LIFETIME_SECS: u64 = 1209600;

/// One signer's approval of a release request.
#[derive(Clone, Copy, Debug, PartialEq, Eq, Structural)]
pub struct EscrowReleaseApproval {
    pub approver: u64,
    pub timestamp: u64,
}

/// A request to release a milestone's escrowed funds, approved by several
/// signers before it can run.
#[derive(Clone, Debug, PartialEq, Eq)]
pub struct EscrowReleaseRequest {
    pub grant_id: u64,
    pub milestone_idx: u32,
    pub amount: i128,
    pub recipient: u64,
    pub approvals: Vec<EscrowReleaseApproval>,
    pub expires_at: u64,
    pub executed: bool,
}

/// The release requests, keyed by `spec_pair_key(grant_id, milestone_idx)`,
/// and the protocol configuration that sets the approval threshold.
pub struct EscrowStore {
    pub requests: HashMap<u128, EscrowReleaseRequest>,
    pub config: Option<ProtocolConfig>,
}

/// The signers of a list of approvals, in order.
pub open spec fn approvers(s: Seq<EscrowReleaseApproval>) -> Seq<u64> {
    s.map_values(|a: EscrowReleaseApproval| a.approver)
}

/// No signer approves twice.
pub open spec fn approvers_distinct(s: Seq<EscrowReleaseApproval>) -> bool {
    forall|i: int, j: int| 0 <= i < j < s.len() ==> (#[trigger] s[i]).approver != (#[trigger] s[j]).approver
}

impl EscrowStore {
    /// The request for milestone `idx` of grant `g`, if any.
    pub open spec fn request(&self, g: u64, idx: u32) -> Option<EscrowReleaseRequest> {
        let k = spec_pair_key(g, idx);
        if self.requests@.contains_key(k) {
            Some(self.requests@[k])
        } else {
            None
        }
    }

    /// Every stored request counts each signer at most once.
    pub open spec fn wf(&self) -> bool {
        forall|k: u128| #[trigger] self.requests@.contains_key(k) ==> approvers_distinct(self.requests@[k].approvals@)
    }

    /// Whether the request for milestone `idx` of grant `g` exists, a
    /// configuration is set, and the request has at least as many
    /// approvals as the configured threshold.
    pub open spec fn approved(&self, g: u64, idx: u32) -> bool {
        &&& self.request(g, idx) is Some
        &&& self.config is Some
        &&& self.request(g, idx)->Some_0.approvals@.len() >= self.config->Some_0.multisig_escrow_threshold
    }

    /// An empty store with the given configuration.
    pub fn new(config: Option<ProtocolConfig>) -> (s: Self)
        ensures
            s.requests@ == Map::<u128, EscrowReleaseRequest>::empty(),
            s.config == config,
            s.wf(),
    {
        EscrowStore { requests: HashMap::new(), config }
    }
}

/// Open a release request for milestone `milestone_idx` of grant
/// `grant_id`, replacing any earlier one; it expires two weeks after `now`.
pub fn create_request(
    es: &mut EscrowStore,
    grant_id: u64,
    milestone_idx: u32,
    amount: i128,
    recipient: u64,
    now: u64,
) -> (r: Result<(), ContractError>)
    requires
        now + REQUEST_LIFETIME_SECS <= u64::MAX,
        old(es).wf(),
    ensures
        r is Ok,
        final(es).wf(),
        final(es).config == old(es).config,
        final(es).requests@ == old(es).requests@.insert(
            spec_pair_key(grant_id, milestone_idx),
            final(es).requests@[spec_pair_key(grant_id, milestone_idx)],
        ),
        ({
            let req = final(es).requests@[spec_pair_key(grant_id, milestone_idx)];
            &&& req.grant_id == grant_id
            &&& req.milestone_idx == milestone_idx
            &&& req.amount == amount
            &&& req.recipient == recipient
            &&& req.approvals@ == Seq::<EscrowReleaseApproval>::empty()
            &&& req.expires_at == now + REQUEST_LIFETIME_SECS
            &&& !req.executed
        }),
{
    let k = pair_key(grant_id, milestone_idx);
    let request = EscrowReleaseRequest {
        grant_id,
        milestone_idx,
        amount,
        recipient,
        approvals: Vec::new(),
        expires_at: now + REQUEST_LIFETIME_SECS,
        executed: false,
    };
    es.requests.insert(k, request);
    assert forall|k2: u128| #[trigger] es.requests@.contains_key(k2) implies approvers_distinct(es.requests@[k2].approvals@) by {
        if k2 != k {
            assert(old(es).requests@.contains_key(k2));
        }
    }
    Ok(())
}

/// Whether `who` signed one of `approvals`.
fn has_approved(approvals: &Vec<EscrowReleaseApproval>, who: u64) -> (r: bool)
    ensures
        r == approvers(approvals@).contains(who),
{
    let mut i: usize = 0;
    while i < approvals.len()
        invariant
            i <= approvals.len(),
            forall|j: int| 0 <= j < i ==> approvals@[j].approver != who,
        decreases approvals.len() - i,
    {
        if approvals[i].approver == who {
            assert(approvers(approvals@)[i as int] == who);
            return true;
        }
        i = i + 1;
    }
    assert(!approvers(approvals@).contains(who)) by {
        if approvers(approvals@).contains(who) {
            let j = choose|j: int| 0 <= j < approvers(approvals@).len() && approvers(approvals@)[j] == who;
            assert(approvals@[j].approver == who);
        }
    }
    false
}

/// The outcome `approve` owes for a request in the given state.
pub open spec fn approve_outcome(req: Option<EscrowReleaseRequest>, approver: u64, now: u64) -> Result<(), ContractError> {
    match req {
        None => Err(ContractError::InvalidState),
        Some(q) => if q.executed || now > q.expires_at {
            Err(ContractError::InvalidState)
        } else if approvers(q.approvals@).contains(approver) {
            Err(ContractError::AlreadyVoted)
        } else {
            Ok(())
        },
    }
}

/// Record `approver`'s approval of the release request for milestone
/// `milestone_idx` of grant `grant_id`.
///
/// Fails with `InvalidState` when there is no such request, it was
/// executed, or it expired (`now` is past its expiry), and with
/// `AlreadyVoted` when `approver` already approved it. On failure nothing
/// changes.
pub fn approve(es: &mut EscrowStore, approver: u64, grant_id: u64, milestone_idx: u32, now: u64) -> (r: Result<(), ContractError>)
    requires
        old(es).wf(),
    ensures
        r == approve_outcome(old(es).request(grant_id, milestone_idx), approver, now),
        final(es).wf(),
        final(es).config == old(es).config,
        r is Err ==> final(es).requests@ == old(es).requests@,
        r is Ok ==> {
            let k = spec_pair_key(grant_id, milestone_idx);
            let q = old(es).requests@[k];
            let q2 = final(es).requests@[k];
            &&& final(es).requests@ == old(es).requests@.insert(k, q2)
            &&& q2.approvals@ == q.approvals@.push(EscrowReleaseApproval { approver, timestamp: now })
            &&& q2.grant_id == q.grant_id
            &&& q2.milestone_idx == q.milestone_idx
            &&& q2.amount == q.amount
            &&& q2.recipient == q.recipient
            &&& q2.expires_at == q.expires_at
            &&& q2.executed == q.executed
        },
{
    let k = pair_key(grant_id, milestone_idx);
    let q = match es.requests.get(&k) {
        Some(q) => q,
        None => {
            return Err(ContractError::InvalidState);
        },
    };
    if q.executed || now > q.expires_at {
        return Err(ContractError::InvalidState);
    }
    if has_approved(&q.approvals, approver) {
        return Err(ContractError::AlreadyVoted);
    }
    let mut approvals = q.approvals.clone();
    assert(approvals@ =~= q.approvals@);
    let ghost old_approvals = approvals@;
    approvals.push(EscrowReleaseApproval { approver, timestamp: now });
    assert(approvers_distinct(approvals@)) by {
        assert(es.requests@.contains_key(k));
        assert forall|i: int, j: int| 0 <= i < j < approvals@.len() implies (#[trigger] approvals@[i]).approver != (#[trigger] approvals@[j]).approver by {
            if j == old_approvals.len() {
                assert(approvers(old_approvals)[i] == old_approvals[i].approver);
            }
        }
    }
    let q2 = EscrowReleaseRequest {
        grant_id: q.grant_id,
        milestone_idx: q.milestone_idx,
        amount: q.amount,
        recipient: q.recipient,
        approvals,
        expires_at: q.expires_at,
        executed: q.executed,
    };
    es.requests.insert(k, q2);
    assert forall|k2: u128| #[trigger] es.requests@.contains_key(k2) implies approvers_distinct(es.requests@[k2].approvals@) by {
        if k2 != k {
            assert(old(es).requests@.contains_key(k2));
        }
    }
    Ok(())
}

/// Whether the release request for milestone `milestone_idx` of grant
/// `grant_id` has reached the configured approval threshold (false when
/// there is no request or no configuration).
pub fn is_approved(es: &EscrowStore, grant_id: u64, milestone_idx: u32) -> (r: bool)
    ensures
        r == es.approved(grant_id, milestone_idx),
{
    let k = pair_key(grant_id, milestone_idx);
    match es.requests.get(&k) {
        Some(q) => match &es.config {
            Some(cfg) => q.approvals.len() as u64 >= cfg.multisig_escrow_threshold as u64,
            None => false,
        },
        None => false,
    }
}

/// What `execute_release` owes for a request in the given state: the
/// recipient and amount to pay out, or the error.
pub open spec fn execute_outcome(es: &EscrowStore, g: u64, idx: u32, now: u64) -> Result<(u64, i128), ContractError> {
    match es.request(g, idx) {
        None => Err(ContractError::InvalidState),
        Some(q) => if q.executed || now > q.expires_at {
            Err(ContractError::InvalidState)
        } else if !es.approved(g, idx) {
            Err(ContractError::Unauthorized)
        } else {
            Ok((q.recipient, q.amount))
        },
    }
}

/// Mark the release request for milestone `milestone_idx` of grant
/// `grant_id` executed and return the recipient and amount that the
/// escrow must now pay out.
///
/// Fails with `InvalidState` when there is no such request, it already
/// ran, or it expired, and with `Unauthorized` when it has fewer approvals
/// than the threshold. On failure nothing changes; a request runs at most
/// once.
pub fn execute_release(es: &mut EscrowStore, grant_id: u64, milestone_idx: u32, now: u64) -> (r: Result<(u64, i128), ContractError>)
    requires
        old(es).wf(),
    ensures
        r == execute_outcome(old(es), grant_id, milestone_idx, now),
        final(es).wf(),
        final(es).config == old(es).config,
        r is Err ==> final(es).requests@ == old(es).requests@,
        r is Ok ==> {
            let k = spec_pair_key(grant_id, milestone_idx);
            let q = old(es).requests@[k];
            let q2 = final(es).requests@[k];
            &&& final(es).requests@ == old(es).requests@.insert(k, q2)
            &&& q2.approvals@ == q.approvals@
            &&& q2.grant_id == q.grant_id
            &&& q2.milestone_idx == q.milestone_idx
            &&& q2.amount == q.amount
            &&& q2.recipient == q.recipient
            &&& q2.expires_at == q.expires_at
            &&& q2.executed
        },
{
    let k = pair_key(grant_id, milestone_idx);
    let approved = is_approved(es, grant_id, milestone_idx);
    let q = match es.requests.get(&k) {
        Some(q) => q,
        None => {
            return Err(ContractError::InvalidState);
        },
    };
    if q.executed || now > q.expires_at {
        return Err(ContractError::InvalidState);
    }
    if !approved {
        return Err(ContractError::Unauthorized);
    }
    let approvals = q.approvals.clone();
    assert(approvals@ =~= q.approvals@);
    let q2 = EscrowReleaseRequest {
        grant_id: q.grant_id,
        milestone_idx: q.milestone_idx,
        amount: q.amount,
        recipient: q.recipient,
        approvals,
        expires_at: q.expires_at,
        executed: true,
    };
    let out = (q.recipient, q.amount);
    es.requests.insert(k, q2);
    assert forall|k2: u128| #[trigger] es.requests@.contains_key(k2) implies approvers_distinct(es.requests@[k2].approvals@) by {
        if k2 != k {
            assert(old(es).requests@.contains_key(k2));
        } else {
            assert(old(es).requests@.contains_key(k));
        }
    }
    Ok(out)
}

/// The release request for milestone `milestone_idx` of grant `grant_id`.
pub fn get_request(es: &EscrowStore, grant_id: u64, milestone_idx: u32) -> (r: Option<&EscrowReleaseRequest>)
    ensures
        match r {
            Some(q) => es.request(grant_id, milestone_idx) == Some(*q),
            None => es.request(grant_id, milestone_idx) is None,
        },
{
    let k = pair_key(grant_id, milestone_idx);
    es.requests.get(&k)
}

/// A release request runs at most once: once executed, neither another
/// execution nor another approval is accepted.
pub proof fn lemma_release_runs_once(es: &EscrowStore, g: u64, idx: u32, approver: u64, now: u64)
    requires
        es.request(g, idx) is Some,
        es.request(g, idx)->Some_0.executed,
    ensures
        execute_outcome(es, g, idx, now) == Err::<(u64, i128), ContractError>(ContractError::InvalidState),
        approve_outcome(es.request(g, idx), approver, now) == Err::<(), ContractError>(ContractError::InvalidState),
{
}

/// A release is paid only when as many distinct signers as the threshold
/// approved it before it expired.
pub proof fn lemma_release_needs_threshold(es: &EscrowStore, g: u64, idx: u32, now: u64)
    requires
        es.wf(),
        execute_outcome(es, g, idx, now) is Ok,
    ensures
        approvers_distinct(es.request(g, idx)->Some_0.approvals@),
        es.config is Some,
        es.request(g, idx)->Some_0.approvals@.len() >= es.config->Some_0.multisig_escrow_threshold,
        now <= es.request(g, idx)->Some_0.expires_at,
        !es.request(g, idx)->Some_0.executed,
{
    assert(es.requests@.contains_key(spec_pair_key(g, idx)));
}

} // verus!
