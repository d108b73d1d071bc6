use vstd::prelude::*;
use std::collections::HashMap;
use crate::errors::ContractError;
use crate::store::GrantStore;

verus! {

broadcast use vstd::std_specs::hash::group_hash_axioms;

/// How thoroughly a contributor's identity was checked, weakest first.
#[derive(Clone, Copy, Debug, PartialEq, Eq, Structural)]
pub enum VerificationLevel {
    Unverified,
    EmailVerified,
    IdVerified,
    FullKyc,
}

/// Whether an attestation still stands.
#[derive(Clone, Copy, Debug, PartialEq, Eq, Structural)]
pub enum VerificationStatus {
    Verified,
    Revoked,
}

/// A verifier's statement about one contributor.
#[derive(Clone, Debug, PartialEq, Eq)]
pub struct VerificationAttestation {
    pub subject: u64,
    pub verifier: u64,
    pub level: VerificationLevel,
    pub status: VerificationStatus,
    pub attested_at: u64,
    pub expires_at: Option<u64>,
    pub attestation_hash: Vec<u8>,
}

/// Announces a new attestation.
#[derive(Clone, Copy, Debug, PartialEq, Eq, Structural)]
pub struct ContributorVerified {
    pub subject: u64,
    pub verifier: u64,
    pub level: VerificationLevel,
    pub expires_at: Option<u64>,
}

/// Announces a revoked attestation.
#[derive(Clone, Copy, Debug, PartialEq, Eq, Structural)]
pub struct VerificationRevoked {
    pub subject: u64,
    pub revoked_by: u64,
}

/// The authorized verifier and the attestations, keyed by subject.
pub struct VerificationStore {
    pub verifier: Option<u64>,
    pub attestations: HashMap<u64, VerificationAttestation>,
}

/// The rank of a level: `Unverified` 0, `EmailVerified` 1, `IdVerified` 2,
/// `FullKyc` 3.
pub open spec fn spec_level_rank(l: VerificationLevel) -> nat {
    match l {
        VerificationLevel::Unverified => 0,
        VerificationLevel::EmailVerified => 1,
        VerificationLevel::IdVerified => 2,
        VerificationLevel::FullKyc => 3,
    }
}

/// Computes `spec_level_rank(l)`.
pub fn level_rank(l: VerificationLevel) -> (r: u32)
    ensures
        r == spec_level_rank(l),
{
    match l {
        VerificationLevel::Unverified => 0,
        VerificationLevel::EmailVerified => 1,
        VerificationLevel::IdVerified => 2,
        VerificationLevel::FullKyc => 3,
    }
}

impl VerificationStore {
    /// The attestation for `who`, if any.
    pub open spec fn attestation(&self, who: u64) -> Option<VerificationAttestation> {
        if self.attestations@.contains_key(who) {
            Some(self.attestations@[who])
        } else {
            None
        }
    }

    /// Whether `who` counts as verified at level `required` at time `now`:
    /// always for `Unverified`; otherwise when `who` has an unrevoked, unexpired
    /// attestation at that level or above.
    pub open spec fn verified(&self, who: u64, required: VerificationLevel, now: u64) -> bool {
        if required == VerificationLevel::Unverified {
            true
        } else {
            match self.attestation(who) {
                None => false,
                Some(a) => {
                    &&& a.status == VerificationStatus::Verified
                    &&& (a.expires_at matches Some(t) ==> now <= t)
                    &&& spec_level_rank(a.level) >= spec_level_rank(required)
                },
            }
        }
    }

    /// A store with no verifier and no attestations.
    pub fn new() -> (s: Self)
        ensures
            s.verifier is None,
            s.attestations@ == Map::<u64, VerificationAttestation>::empty(),
    {
        VerificationStore { verifier: None, attestations: HashMap::new() }
    }
}

/// Make `verifier` the authorized verifier; only the global admin may.
///
/// Fails with `Unauthorized`, changing nothing, for any other caller.
pub fn set_verifier(vs: &mut VerificationStore, store: &GrantStore, admin: u64, verifier: u64) -> (r: Result<(), ContractError>)
    ensures
        r is Ok <==> store.global_admin == Some(admin),
        r is Err ==> r == Err::<(), ContractError>(ContractError::Unauthorized),
        final(vs).verifier == (if r is Ok { Some(verifier) } else { old(vs).verifier }),
        final(vs).attestations@ == old(vs).attestations@,
{
    if !store.is_global_admin(admin) {
        return Err(ContractError::Unauthorized);
    }
    vs.verifier = Some(verifier);
    Ok(())
}

/// The authorized verifier attests, at time `now`, that `subject` is
/// verified at `level` (until `expires_at`, if given), replacing any
/// earlier attestation; returns the announcement to publish.
///
/// Fails with `NotVerifier`, changing nothing, when `verifier` is not the
/// authorized verifier.
pub fn attest(
    vs: &mut VerificationStore,
    verifier: u64,
    subject: u64,
    level: VerificationLevel,
    expires_at: Option<u64>,
    attestation_hash: Vec<u8>,
    now: u64,
) -> (r: Result<ContributorVerified, ContractError>)
    ensures
        r is Ok <==> old(vs).verifier == Some(verifier),
        r is Err ==> r == Err::<ContributorVerified, ContractError>(ContractError::NotVerifier),
        r is Ok ==> r == Ok::<ContributorVerified, ContractError>(ContributorVerified { subject, verifier, level, expires_at }),
        final(vs).verifier == old(vs).verifier,
        r is Err ==> final(vs).attestations@ == old(vs).attestations@,
        r is Ok ==> {
            let a = final(vs).attestations@[subject];
            &&& final(vs).attestations@ == old(vs).attestations@.insert(subject, a)
            &&& a.subject == subject
            &&& a.verifier == verifier
            &&& a.level == level
            &&& a.status == VerificationStatus::Verified
            &&& a.attested_at == now
            &&& a.expires_at == expires_at
            &&& a.attestation_hash@ == attestation_hash@
        },
{
    match vs.verifier {
        Some(v) => if v != verifier {
            return Err(ContractError::NotVerifier);
        },
        None => {
            return Err(ContractError::NotVerifier);
        },
    }
    let a = VerificationAttestation {
        subject,
        verifier,
        level,
        status: VerificationStatus::Verified,
        attested_at: now,
        expires_at,
        attestation_hash,
    };
    vs.attestations.insert(subject, a);
    Ok(ContributorVerified { subject, verifier, level, expires_at })
}

/// Revoke `subject`'s attestation; the global admin or the authorized
/// verifier may. Returns the announcement to publish.
///
/// Fails with `Unauthorized` for any other caller and with `KycRequired`
/// when `subject` has no attestation; on failure nothing changes.
pub fn revoke(vs: &mut VerificationStore, store: &GrantStore, caller: u64, subject: u64) -> (r: Result<VerificationRevoked, ContractError>)
    ensures
        store.global_admin != Some(caller) && old(vs).verifier != Some(caller)
            ==> r == Err::<VerificationRevoked, ContractError>(ContractError::Unauthorized),
        (store.global_admin == Some(caller) || old(vs).verifier == Some(caller)) && old(vs).attestation(subject) is None
            ==> r == Err::<VerificationRevoked, ContractError>(ContractError::KycRequired),
        r is Ok <==> (store.global_admin == Some(caller) || old(vs).verifier == Some(caller)) && old(vs).attestation(subject) is Some,
        r is Ok ==> r == Ok::<VerificationRevoked, ContractError>(VerificationRevoked { subject, revoked_by: caller }),
        final(vs).verifier == old(vs).verifier,
        r is Err ==> final(vs).attestations@ == old(vs).attestations@,
        r is Ok ==> {
            let a = old(vs).attestations@[subject];
            let a2 = final(vs).attestations@[subject];
            &&& final(vs).attestations@ == old(vs).attestations@.insert(subject, a2)
            &&& a2.attestation_hash@ == a.attestation_hash@
            &&& a2 == (VerificationAttestation { status: VerificationStatus::Revoked, attestation_hash: a2.attestation_hash, ..a })
        },
{
    let is_admin = store.is_global_admin(caller);
    let is_verifier = match vs.verifier {
        Some(v) => v == caller,
        None => false,
    };
    if !is_admin && !is_verifier {
        return Err(ContractError::Unauthorized);
    }
    let a = match vs.attestations.get(&subject) {
        Some(a) => a,
        None => {
            return Err(ContractError::KycRequired);
        },
    };
    let a2 = VerificationAttestation {
        subject: a.subject,
        verifier: a.verifier,
        level: a.level,
        status: VerificationStatus::Revoked,
        attested_at: a.attested_at,
        expires_at: a.expires_at,
        attestation_hash: crate::bytes::copy_bytes(&a.attestation_hash),
    };
    vs.attestations.insert(subject, a2);
    Ok(VerificationRevoked { subject, revoked_by: caller })
}

/// Whether `address` is verified at `required_level` or above at time
/// `now`.
pub fn is_verified(vs: &VerificationStore, address: u64, required_level: VerificationLevel, now: u64) -> (r: bool)
    ensures
        r == vs.verified(address, required_level, now),
{
    if required_level == VerificationLevel::Unverified {
        return true;
    }
    let a = match vs.attestations.get(&address) {
        Some(a) => a,
        None => {
            return false;
        },
    };
    if a.status != VerificationStatus::Verified {
        return false;
    }
    match a.expires_at {
        Some(t) => if now > t {
            return false;
        },
        None => {},
    }
    level_rank(a.level) >= level_rank(required_level)
}

/// Succeeds when `address` is verified at `required_level` at time `now`,
/// and fails with `KycRequired` otherwise.
pub fn require_verified(vs: &VerificationStore, address: u64, required_level: VerificationLevel, now: u64) -> (r: Result<(), ContractError>)
    ensures
        r is Ok <==> vs.verified(address, required_level, now),
        r is Err ==> r == Err::<(), ContractError>(ContractError::KycRequired),
{
    if is_verified(vs, address, required_level, now) {
        Ok(())
    } else {
        Err(ContractError::KycRequired)
    }
}

/// The attestation recorded for `address`.
pub fn get_attestation(vs: &VerificationStore, address: u64) -> (r: Option<&VerificationAttestation>)
    ensures
        match r {
            Some(a) => vs.attestation(address) == Some(*a),
            None => vs.attestation(address) is None,
        },
{
    vs.attestations.get(&address)
}

/// Verification at a level implies verification at every weaker level.
pub proof fn lemma_verified_downward_closed(vs: VerificationStore, who: u64, strong: VerificationLevel, weak: VerificationLevel, now: u64)
    requires
        vs.verified(who, strong, now),
        spec_level_rank(weak) <= spec_level_rank(strong),
    ensures
        vs.verified(who, weak, now),
{
}

/// After a revocation the subject is verified at no level above `Unverified`.
pub proof fn lemma_revoked_is_unverified(vs: VerificationStore, who: u64, required: VerificationLevel, now: u64)
    requires
        vs.attestation(who) is Some,
        vs.attestation(who)->Some_0.status == VerificationStatus::Revoked,
        required != VerificationLevel::Unverified,
    ensures
        !vs.verified(who, required, now),
{
}

} // verus!
