use vstd::prelude::*;
use std::collections::HashSet;
use crate::errors::ContractError;
use crate::store::GrantStore;

verus! {

broadcast use vstd::std_specs::hash::group_hash_axioms;

/// Protocol roles that gate administrative operations.
#[derive(Clone, Copy, Debug, PartialEq, Eq, Structural)]
pub enum Role {
    ProtocolAdmin,
    DisputeArbiter,
}

/// Who holds which role.
pub struct RoleRegistry {
    pub protocol_admins: HashSet<u64>,
    pub dispute_arbiters: HashSet<u64>,
}

impl RoleRegistry {
    /// Whether `who` holds `role`.
    pub open spec fn holds(&self, who: u64, role: Role) -> bool {
        match role {
            Role::ProtocolAdmin => self.protocol_admins@.contains(who),
            Role::DisputeArbiter => self.dispute_arbiters@.contains(who),
        }
    }

    /// A registry in which nobody holds a role.
    pub fn new() -> (r: Self)
        ensures
            forall|who: u64, role: Role| !r.holds(who, role),
    {
        RoleRegistry { protocol_admins: HashSet::new(), dispute_arbiters: HashSet::new() }
    }
}

/// Whether `who` holds `role`.
pub fn has_role(reg: &RoleRegistry, who: u64, role: Role) -> (r: bool)
    ensures
        r == reg.holds(who, role),
{
    match role {
        Role::ProtocolAdmin => reg.protocol_admins.contains(&who),
        Role::DisputeArbiter => reg.dispute_arbiters.contains(&who),
    }
}

/// Give `grantee` the role `role`; only the global admin may.
///
/// Fails with `Unauthorized`, changing nothing, when `caller` is not the
/// global admin.
pub fn grant_role(reg: &mut RoleRegistry, store: &GrantStore, caller: u64, grantee: u64, role: Role) -> (r: Result<(), ContractError>)
    ensures
        r is Ok <==> store.global_admin == Some(caller),
        r is Err ==> r == Err::<(), ContractError>(ContractError::Unauthorized),
        forall|who: u64, rl: Role| #[trigger] final(reg).holds(who, rl) == (old(reg).holds(who, rl) || (r is Ok && who == grantee && rl == role)),
{
    if !store.is_global_admin(caller) {
        return Err(ContractError::Unauthorized);
    }
    match role {
        Role::ProtocolAdmin => {
            reg.protocol_admins.insert(grantee);
        },
        Role::DisputeArbiter => {
            reg.dispute_arbiters.insert(grantee);
        },
    }
    Ok(())
}

} // verus!
