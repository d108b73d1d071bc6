use vstd::prelude::*;
use std::collections::HashMap;
use crate::errors::ContractError;
use crate::store::{pair_key, spec_pair_key, GrantStore};

verus! {

broadcast use vstd::std_specs::hash::group_hash_axioms;

/// A relayer allowed to report milestone evidence from other chains
/// (chains are numbered).
#[derive(Clone, Debug, PartialEq, Eq)]
pub struct BridgeRelayer {
    pub address: u64,
    pub is_active: bool,
    pub registered_at: u64,
    pub authorized_chains: Vec<u32>,
}

/// Evidence, reported by a relayer, that a milestone's work was done in a
/// transaction on another chain.
#[derive(Clone, Debug, PartialEq, Eq)]
pub struct CrossChainProof {
    pub chain_id: u32,
    pub tx_hash: Vec<u8>,
    pub relayer: u64,
    pub verified_at: u64,
}

/// Relayers by account, and proofs keyed by
/// `spec_pair_key(grant_id, milestone_idx)`.
pub struct BridgeStore {
    pub relayers: HashMap<u64, BridgeRelayer>,
    pub proofs: HashMap<u128, CrossChainProof>,
}

impl BridgeStore {
    /// The record of relayer `who`, if registered.
    pub open spec fn relayer(&self, who: u64) -> Option<BridgeRelayer> {
        if self.relayers@.contains_key(who) {
            Some(self.relayers@[who])
        } else {
            None
        }
    }

    /// The proof for milestone `idx` of grant `g`, if any.
    pub open spec fn proof_of(&self, g: u64, idx: u32) -> Option<CrossChainProof> {
        let k = spec_pair_key(g, idx);
        if self.proofs@.contains_key(k) {
            Some(self.proofs@[k])
        } else {
            None
        }
    }

    /// Whether relayer `who` is registered, active and authorized for
    /// chain `chain`.
    pub open spec fn may_relay(&self, who: u64, chain: u32) -> bool {
        self.relayer(who) matches Some(r) && r.is_active && r.authorized_chains@.contains(chain)
    }

    /// No relayers and no proofs.
    pub fn new() -> (s: Self)
        ensures
            s.relayers@ == Map::<u64, BridgeRelayer>::empty(),
            s.proofs@ == Map::<u128, CrossChainProof>::empty(),
    {
        BridgeStore { relayers: HashMap::new(), proofs: HashMap::new() }
    }
}

/// Whether `list` holds `x`.
fn chains_contain(list: &Vec<u32>, x: u32) -> (r: bool)
    ensures
        r == list@.contains(x),
{
    let mut i: usize = 0;
    while i < list.len()
        invariant
            i <= list.len(),
            forall|j: int| 0 <= j < i ==> list@[j] != x,
        decreases list.len() - i,
    {
        if list[i] == x {
            assert(list@[i as int] == x);
            return true;
        }
        i = i + 1;
    }
    false
}

/// The global admin registers `relayer` at time `now` as active for the
/// given chains, replacing any earlier registration.
///
/// Fails with `Unauthorized`, changing nothing, for any other caller.
pub fn register_relayer(bs: &mut BridgeStore, store: &GrantStore, admin: u64, relayer: u64, authorized_chains: Vec<u32>, now: u64) -> (r: Result<(), ContractError>)
    ensures
        r is Ok <==> store.global_admin == Some(admin),
        r is Err ==> r == Err::<(), ContractError>(ContractError::Unauthorized),
        final(bs).proofs@ == old(bs).proofs@,
        r is Err ==> final(bs).relayers@ == old(bs).relayers@,
        r is Ok ==> {
            let rec = final(bs).relayers@[relayer];
            &&& final(bs).relayers@ == old(bs).relayers@.insert(relayer, rec)
            &&& rec.address == relayer
            &&& rec.is_active
            &&& rec.registered_at == now
            &&& rec.authorized_chains@ == authorized_chains@
        },
{
    if !store.is_global_admin(admin) {
        return Err(ContractError::Unauthorized);
    }
    let rec = BridgeRelayer { address: relayer, is_active: true, registered_at: now, authorized_chains };
    bs.relayers.insert(relayer, rec);
    Ok(())
}

/// The global admin deactivates `relayer`.
///
/// Fails with `Unauthorized` for any other caller and with `InvalidState`
/// when `relayer` is not registered; on failure nothing changes.
pub fn deactivate_relayer(bs: &mut BridgeStore, store: &GrantStore, admin: u64, relayer: u64) -> (r: Result<(), ContractError>)
    ensures
        r == (if store.global_admin != Some(admin) {
            Err(ContractError::Unauthorized)
        } else if old(bs).relayer(relayer) is None {
            Err(ContractError::InvalidState)
        } else {
            Ok(())
        }),
        final(bs).proofs@ == old(bs).proofs@,
        r is Err ==> final(bs).relayers@ == old(bs).relayers@,
        r is Ok ==> {
            let o = old(bs).relayers@[relayer];
            let rec = final(bs).relayers@[relayer];
            &&& final(bs).relayers@ == old(bs).relayers@.insert(relayer, rec)
            &&& !rec.is_active
            &&& rec.address == o.address
            &&& rec.registered_at == o.registered_at
            &&& rec.authorized_chains@ == o.authorized_chains@
        },
{
    if !store.is_global_admin(admin) {
        return Err(ContractError::Unauthorized);
    }
    match bs.relayers.remove(&relayer) {
        Some(mut rec) => {
            rec.is_active = false;
            bs.relayers.insert(relayer, rec);
            Ok(())
        },
        None => Err(ContractError::InvalidState),
    }
}

/// `relayer` reports, at time `now`, that milestone `milestone_idx` of
/// grant `grant_id` was done in transaction `tx_hash` on chain
/// `chain_id`, replacing any earlier proof.
///
/// Fails with `Unauthorized`, changing nothing, unless `relayer` is
/// registered, active and authorized for that chain.
pub fn submit_proof(bs: &mut BridgeStore, relayer: u64, grant_id: u64, milestone_idx: u32, chain_id: u32, tx_hash: Vec<u8>, now: u64) -> (r: Result<(), ContractError>)
    ensures
        r is Ok <==> old(bs).may_relay(relayer, chain_id),
        r is Err ==> r == Err::<(), ContractError>(ContractError::Unauthorized),
        final(bs).relayers@ == old(bs).relayers@,
        r is Err ==> final(bs).proofs@ == old(bs).proofs@,
        r is Ok ==> {
            let k = spec_pair_key(grant_id, milestone_idx);
            let p = final(bs).proofs@[k];
            &&& final(bs).proofs@ == old(bs).proofs@.insert(k, p)
            &&& p.chain_id == chain_id
            &&& p.tx_hash@ == tx_hash@
            &&& p.relayer == relayer
            &&& p.verified_at == now
        },
{
    let rec = match bs.relayers.get(&relayer) {
        Some(r) => r,
        None => {
            return Err(ContractError::Unauthorized);
        },
    };
    if !rec.is_active {
        return Err(ContractError::Unauthorized);
    }
    if !chains_contain(&rec.authorized_chains, chain_id) {
        return Err(ContractError::Unauthorized);
    }
    let k = pair_key(grant_id, milestone_idx);
    bs.proofs.insert(k, CrossChainProof { chain_id, tx_hash, relayer, verified_at: now });
    Ok(())
}

/// The proof for milestone `milestone_idx` of grant `grant_id`.
pub fn get_proof(bs: &BridgeStore, grant_id: u64, milestone_idx: u32) -> (r: Option<&CrossChainProof>)
    ensures
        match r {
            Some(p) => bs.proof_of(grant_id, milestone_idx) == Some(*p),
            None => bs.proof_of(grant_id, milestone_idx) is None,
        },
{
    let k = pair_key(grant_id, milestone_idx);
    bs.proofs.get(&k)
}

/// Whether milestone `milestone_idx` of grant `grant_id` has a proof whose
/// relayer is still active and authorized for the proof's chain.
pub fn has_valid_proof(bs: &BridgeStore, grant_id: u64, milestone_idx: u32) -> (r: bool)
    ensures
        r == (bs.proof_of(grant_id, milestone_idx) matches Some(p) && bs.may_relay(p.relayer, p.chain_id)),
{
    let k = pair_key(grant_id, milestone_idx);
    match bs.proofs.get(&k) {
        Some(p) => match bs.relayers.get(&p.relayer) {
            Some(rec) => rec.is_active && chains_contain(&rec.authorized_chains, p.chain_id),
            None => false,
        },
        None => false,
    }
}

/// The record of relayer `relayer`.
pub fn get_relayer(bs: &BridgeStore, relayer: u64) -> (r: Option<&BridgeRelayer>)
    ensures
        match r {
            Some(rec) => bs.relayer(relayer) == Some(*rec),
            None => bs.relayer(relayer) is None,
        },
{
    bs.relayers.get(&relayer)
}

/// Deactivating a relayer invalidates every proof it reported.
pub proof fn lemma_deactivation_invalidates(bs: BridgeStore, g: u64, idx: u32)
    requires
        bs.proof_of(g, idx) is Some,
        bs.relayer(bs.proof_of(g, idx)->Some_0.relayer) matches Some(r) && !r.is_active,
    ensures
        !(bs.proof_of(g, idx) matches Some(p) && bs.may_relay(p.relayer, p.chain_id)),
{
}

} // verus!
