use vstd::prelude::*;
use crate::errors::ContractError;

verus! {

/// The two reentrancy guards: one held while a guarded entry point runs,
/// one held while an external call is in progress.
#[derive(Clone, Copy, Debug, PartialEq, Eq, Structural)]
pub enum ReentrancyKey {
    EntryGuard,
    ExternalCallGuard,
}

/// Which guards are held.
#[derive(Clone, Copy, Debug, PartialEq, Eq, Structural)]
pub struct ReentrancyGuards {
    pub entry_guard: bool,
    pub external_call_guard: bool,
}

impl ReentrancyGuards {
    /// Whether guard `key` is held.
    pub open spec fn holds(self, key: ReentrancyKey) -> bool {
        match key {
            ReentrancyKey::EntryGuard => self.entry_guard,
            ReentrancyKey::ExternalCallGuard => self.external_call_guard,
        }
    }

    /// No guard held.
    pub fn new() -> (g: Self)
        ensures
            !g.entry_guard,
            !g.external_call_guard,
    {
        ReentrancyGuards { entry_guard: false, external_call_guard: false }
    }

    /// Whether guard `key` is held.
    pub fn is_held(&self, key: ReentrancyKey) -> (r: bool)
        ensures
            r == self.holds(key),
    {
        match key {
            ReentrancyKey::EntryGuard => self.entry_guard,
            ReentrancyKey::ExternalCallGuard => self.external_call_guard,
        }
    }
}

/// Run `f` as a non-reentrant entry point: the entry guard is held while
/// it runs (`f` sees the guards in that state) and released afterwards.
/// Entering while either guard is held is a fault, so no caller may.
pub fn with_non_reentrant<F, R>(guards: &mut ReentrancyGuards, f: F) -> (r: R)
    where
        F: FnOnce(&ReentrancyGuards) -> R,
    requires
        !old(guards).entry_guard,
        !old(guards).external_call_guard,
        f.requires((&ReentrancyGuards { entry_guard: true, external_call_guard: false },)),
    ensures
        f.ensures((&ReentrancyGuards { entry_guard: true, external_call_guard: false },), r),
        *final(guards) == *old(guards),
{
    guards.entry_guard = true;
    let r = f(&*guards);
    guards.entry_guard = false;
    r
}

/// Fails with `Reentrancy` while an external call is in progress.
pub fn protect(guards: &ReentrancyGuards) -> (r: Result<(), ContractError>)
    ensures
        r is Ok <==> !guards.external_call_guard,
        r is Err ==> r == Err::<(), ContractError>(ContractError::Reentrancy),
{
    if guards.external_call_guard {
        return Err(ContractError::Reentrancy);
    }
    Ok(())
}

/// Make an external call `f` under the external-call guard: `f` sees the
/// guard held, and the guard is released afterwards whatever `f` returned,
/// its result being passed on.
///
/// Fails with `Reentrancy`, without calling `f`, when the guard is already
/// held.
pub fn protect_external_call<F, T>(guards: &mut ReentrancyGuards, f: F) -> (r: Result<T, ContractError>)
    where
        F: FnOnce(&ReentrancyGuards) -> Result<T, ContractError>,
    requires
        !old(guards).external_call_guard ==> f.requires(
            (&ReentrancyGuards { entry_guard: old(guards).entry_guard, external_call_guard: true },),
        ),
    ensures
        old(guards).external_call_guard ==> r == Err::<T, ContractError>(ContractError::Reentrancy),
        !old(guards).external_call_guard ==> f.ensures(
            (&ReentrancyGuards { entry_guard: old(guards).entry_guard, external_call_guard: true },),
            r,
        ),
        *final(guards) == *old(guards),
{
    if guards.external_call_guard {
        return Err(ContractError::Reentrancy);
    }
    guards.external_call_guard = true;
    let r = f(&*guards);
    guards.external_call_guard = false;
    r
}

} // verus!
