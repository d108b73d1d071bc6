use vstd::prelude::*;
use std::collections::HashMap;
use crate::types::{ContributorProfile, Grant, GrantFund, Milestone};

verus! {

broadcast use vstd::std_specs::hash::group_hash_axioms;

/// The storage key of entry `b` under owner `a` (a grant and a milestone
/// index, a grant and a version, ...): the two halves of one 96-bit number.
pub open spec fn spec_pair_key(a: u64, b: u32) -> u128 {
    (a as int * 0x1_0000_0000 + b as int) as u128
}

/// Distinct pairs have distinct keys.
pub proof fn lemma_pair_key_injective(a1: u64, b1: u32, a2: u64, b2: u32)
    ensures
        spec_pair_key(a1, b1) == spec_pair_key(a2, b2) ==> a1 == a2 && b1 == b2,
{
    let k1 = a1 as int * 0x1_0000_0000 + b1 as int;
    let k2 = a2 as int * 0x1_0000_0000 + b2 as int;
    assert(0 <= k1 < 0x1_0000_0000_0000_0000_0000_0000) by (nonlinear_arith)
        requires
            k1 == a1 as int * 0x1_0000_0000 + b1 as int,
            0 <= a1 < 0x1_0000_0000_0000_0000,
            0 <= b1 < 0x1_0000_0000,
    ;
    assert(0 <= k2 < 0x1_0000_0000_0000_0000_0000_0000) by (nonlinear_arith)
        requires
            k2 == a2 as int * 0x1_0000_0000 + b2 as int,
            0 <= a2 < 0x1_0000_0000_0000_0000,
            0 <= b2 < 0x1_0000_0000,
    ;
    if k1 == k2 {
        assert(a1 == a2 && b1 == b2) by (nonlinear_arith)
            requires
                a1 as int * 0x1_0000_0000 + b1 as int == a2 as int * 0x1_0000_0000 + b2 as int,
                0 <= b1 < 0x1_0000_0000,
                0 <= b2 < 0x1_0000_0000,
        ;
    }
}

/// The keys of one owner's entries are consecutive numbers.
pub proof fn lemma_pair_key_offset(a: u64, b: u32)
    ensures
        spec_pair_key(a, b) as int == spec_pair_key(a, 0) as int + b as int,
        spec_pair_key(a, 0) as int == a as int * 0x1_0000_0000,
{
    assert(0 <= a as int * 0x1_0000_0000 + b as int <= u128::MAX) by (nonlinear_arith)
        requires
            0 <= a < 0x1_0000_0000_0000_0000,
            0 <= b < 0x1_0000_0000,
    ;
    assert(0 <= a as int * 0x1_0000_0000 <= u128::MAX) by (nonlinear_arith)
        requires
            0 <= a < 0x1_0000_0000_0000_0000,
    ;
}

/// Computes `spec_pair_key(a, b)`.
pub fn pair_key(a: u64, b: u32) -> (k: u128)
    ensures
        k == spec_pair_key(a, b),
        k as int == a as int * 0x1_0000_0000 + b as int,
{
    assert(a as int * 0x1_0000_0000 + b as int <= u128::MAX) by (nonlinear_arith)
        requires
            0 <= a < 0x1_0000_0000_0000_0000,
            0 <= b < 0x1_0000_0000,
    ;
    (a as u128) * 0x1_0000_0000u128 + (b as u128)
}

/// Two grants agree field by field (byte strings and lists by content).
pub open spec fn same_grant(a: Grant, b: Grant) -> bool {
    &&& a.title@ == b.title@
    &&& a.description@ == b.description@
    &&& a.reviewers@ == b.reviewers@
    &&& a.funders@ == b.funders@
    &&& (match (a.reason, b.reason) {
        (Some(x), Some(y)) => x@ == y@,
        (None, None) => true,
        _ => false,
    })
    &&& a == (Grant { title: a.title, description: a.description, reviewers: a.reviewers, funders: a.funders, reason: a.reason, ..b })
}

/// A field-by-field copy of a grant.
pub fn copy_grant(g: &Grant) -> (r: Grant)
    ensures
        same_grant(r, *g),
{
    let reviewers = g.reviewers.clone();
    assert(reviewers@ =~= g.reviewers@);
    let funders: Vec<GrantFund> = g.funders.clone();
    assert(funders@ =~= g.funders@);
    let reason = match &g.reason {
        Some(x) => Some(crate::bytes::copy_bytes(x)),
        None => None,
    };
    Grant {
        id: g.id,
        owner: g.owner,
        title: crate::bytes::copy_bytes(&g.title),
        description: crate::bytes::copy_bytes(&g.description),
        token: g.token,
        status: g.status,
        total_amount: g.total_amount,
        milestone_amount: g.milestone_amount,
        reviewers,
        total_milestones: g.total_milestones,
        milestones_paid_out: g.milestones_paid_out,
        escrow_balance: g.escrow_balance,
        funders,
        reason,
        timestamp: g.timestamp,
    }
}

/// The shared contract state that most operations read: grants, their
/// milestones, contributor profiles, and the protocol's admin and treasury.
pub struct GrantStore {
    pub grants: HashMap<u64, Grant>,
    /// Milestones, keyed by `spec_pair_key(grant_id, milestone_idx)`.
    pub milestones: HashMap<u128, Milestone>,
    pub contributors: HashMap<u64, ContributorProfile>,
    pub global_admin: Option<u64>,
    pub treasury: Option<u64>,
}

impl GrantStore {
    /// The grant stored under `id`, if any.
    pub open spec fn grant(&self, id: u64) -> Option<Grant> {
        if self.grants@.contains_key(id) {
            Some(self.grants@[id])
        } else {
            None
        }
    }

    /// The milestone `idx` of grant `grant_id`, if stored.
    pub open spec fn milestone(&self, grant_id: u64, idx: u32) -> Option<Milestone> {
        let k = spec_pair_key(grant_id, idx);
        if self.milestones@.contains_key(k) {
            Some(self.milestones@[k])
        } else {
            None
        }
    }

    /// The profile of contributor `who`, if registered.
    pub open spec fn contributor(&self, who: u64) -> Option<ContributorProfile> {
        if self.contributors@.contains_key(who) {
            Some(self.contributors@[who])
        } else {
            None
        }
    }

    /// Every grant's lists of evaluators and funders fit the host's 32-bit
    /// container lengths.
    pub open spec fn wf(&self) -> bool {
        forall|id: u64| #[trigger] self.grants@.contains_key(id) ==> {
            &&& self.grants@[id].reviewers@.len() <= u32::MAX
            &&& self.grants@[id].funders@.len() <= u32::MAX
        }
    }

    /// An empty store with no admin and no treasury.
    pub fn new() -> (s: Self)
        ensures
            s.grants@ == Map::<u64, Grant>::empty(),
            s.milestones@ == Map::<u128, Milestone>::empty(),
            s.contributors@ == Map::<u64, ContributorProfile>::empty(),
            s.global_admin is None,
            s.treasury is None,
            s.wf(),
    {
        GrantStore {
            grants: HashMap::new(),
            milestones: HashMap::new(),
            contributors: HashMap::new(),
            global_admin: None,
            treasury: None,
        }
    }

    /// The grant stored under `id`.
    pub fn get_grant(&self, id: u64) -> (r: Option<&Grant>)
        ensures
            match r {
                Some(g) => self.grant(id) == Some(*g),
                None => self.grant(id) is None,
            },
    {
        self.grants.get(&id)
    }

    /// Store `grant` under `id`, replacing any grant there.
    pub fn set_grant(&mut self, id: u64, grant: Grant)
        ensures
            final(self).grants@ == old(self).grants@.insert(id, grant),
            final(self).milestones@ == old(self).milestones@,
            final(self).contributors@ == old(self).contributors@,
            final(self).global_admin == old(self).global_admin,
            final(self).treasury == old(self).treasury,
    {
        self.grants.insert(id, grant);
    }

    /// Milestone `idx` of grant `grant_id`.
    pub fn get_milestone(&self, grant_id: u64, idx: u32) -> (r: Option<&Milestone>)
        ensures
            match r {
                Some(m) => self.milestone(grant_id, idx) == Some(*m),
                None => self.milestone(grant_id, idx) is None,
            },
    {
        let k = pair_key(grant_id, idx);
        self.milestones.get(&k)
    }

    /// Store milestone `idx` of grant `grant_id`.
    pub fn set_milestone(&mut self, grant_id: u64, idx: u32, m: Milestone)
        ensures
            final(self).milestones@ == old(self).milestones@.insert(spec_pair_key(grant_id, idx), m),
            final(self).grants@ == old(self).grants@,
            final(self).contributors@ == old(self).contributors@,
            final(self).global_admin == old(self).global_admin,
            final(self).treasury == old(self).treasury,
    {
        let k = pair_key(grant_id, idx);
        self.milestones.insert(k, m);
    }

    /// Remove milestone `idx` of grant `grant_id`.
    pub fn remove_milestone(&mut self, grant_id: u64, idx: u32)
        ensures
            final(self).milestones@ == old(self).milestones@.remove(spec_pair_key(grant_id, idx)),
            final(self).grants@ == old(self).grants@,
            final(self).contributors@ == old(self).contributors@,
            final(self).global_admin == old(self).global_admin,
            final(self).treasury == old(self).treasury,
    {
        let k = pair_key(grant_id, idx);
        self.milestones.remove(&k);
    }

    /// The profile of contributor `who`.
    pub fn get_contributor(&self, who: u64) -> (r: Option<&ContributorProfile>)
        ensures
            match r {
                Some(p) => self.contributor(who) == Some(*p),
                None => self.contributor(who) is None,
            },
    {
        self.contributors.get(&who)
    }

    /// Store the profile of contributor `who`.
    pub fn set_contributor(&mut self, who: u64, profile: ContributorProfile)
        ensures
            final(self).contributors@ == old(self).contributors@.insert(who, profile),
            final(self).grants@ == old(self).grants@,
            final(self).milestones@ == old(self).milestones@,
            final(self).global_admin == old(self).global_admin,
            final(self).treasury == old(self).treasury,
    {
        self.contributors.insert(who, profile);
    }

    /// Whether `who` is the protocol's global admin.
    pub fn is_global_admin(&self, who: u64) -> (r: bool)
        ensures
            r == (self.global_admin == Some(who)),
    {
        match self.global_admin {
            Some(a) => a == who,
            None => false,
        }
    }
}

} // verus!
