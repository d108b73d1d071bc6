use vstd::prelude::*;
use std::collections::HashMap;
use crate::errors::ContractError;
use crate::store::{pair_key, spec_pair_key, GrantStore};
use crate::types::{Grant, Milestone, MilestoneState};

verus! {

broadcast use vstd::std_specs::hash::group_hash_axioms;

/// A grant owner's rule for approving submitted milestones that evaluators
/// left undecided.
#[derive(Clone, Copy, Debug, PartialEq, Eq, Structural)]
pub struct AutoApproveConfig {
    pub grant_id: u64,
    pub enabled: bool,
    pub grace_period_seconds: u64,
    pub min_votes_required: u32,
    pub set_by: u64,
    pub set_at: u64,
}

/// The trace an automatic decision leaves.
#[derive(Clone, Copy, Debug, PartialEq, Eq, Structural)]
pub struct AutoApproveRecord {
    pub grant_id: u64,
    pub milestone_idx: u32,
    pub triggered_by: u64,
    pub triggered_at: u64,
    pub votes_at_trigger: u32,
}

/// Configurations by grant, and decision records keyed by
/// `spec_pair_key(grant_id, milestone_idx)`.
pub struct AutoApproveStore {
    pub configs: HashMap<u64, AutoApproveConfig>,
    pub records: HashMap<u128, AutoApproveRecord>,
}

impl AutoApproveStore {
    /// The configuration of grant `g`, if any.
    pub open spec fn config(&self, g: u64) -> Option<AutoApproveConfig> {
        if self.configs@.contains_key(g) {
            Some(self.configs@[g])
        } else {
            None
        }
    }

    /// The decision record of milestone `idx` of grant `g`, if any.
    pub open spec fn record(&self, g: u64, idx: u32) -> Option<AutoApproveRecord> {
        let k = spec_pair_key(g, idx);
        if self.records@.contains_key(k) {
            Some(self.records@[k])
        } else {
            None
        }
    }

    /// An empty store.
    pub fn new() -> (s: Self)
        ensures
            s.configs@ == Map::<u64, AutoApproveConfig>::empty(),
            s.records@ == Map::<u128, AutoApproveRecord>::empty(),
    {
        AutoApproveStore { configs: HashMap::new(), records: HashMap::new() }
    }
}

/// Install `config` for grant `grant_id`; only the grant's owner may.
///
/// Fails with `GrantNotFound`, `Unauthorized` (not the owner), or
/// `InvalidInput` (both the grace period and the vote minimum are zero),
/// changing nothing.
pub fn set_config(aa: &mut AutoApproveStore, store: &GrantStore, owner: u64, grant_id: u64, config: AutoApproveConfig) -> (r: Result<(), ContractError>)
    ensures
        r == (match store.grant(grant_id) {
            None => Err(ContractError::GrantNotFound),
            Some(g) => if g.owner != owner {
                Err(ContractError::Unauthorized)
            } else if config.grace_period_seconds == 0 && config.min_votes_required == 0 {
                Err(ContractError::InvalidInput)
            } else {
                Ok(())
            },
        }),
        final(aa).configs@ == (if r is Ok { old(aa).configs@.insert(grant_id, config) } else { old(aa).configs@ }),
        final(aa).records@ == old(aa).records@,
{
    let grant = match store.get_grant(grant_id) {
        Some(g) => g,
        None => {
            return Err(ContractError::GrantNotFound);
        },
    };
    if grant.owner != owner {
        return Err(ContractError::Unauthorized);
    }
    if config.grace_period_seconds == 0 && config.min_votes_required == 0 {
        return Err(ContractError::InvalidInput);
    }
    aa.configs.insert(grant_id, config);
    Ok(())
}

/// When the grace period of a submitted milestone ends: its deadline (or,
/// without a positive one, its submission time) plus the grace period,
/// saturating at `u64::MAX`.
pub open spec fn grace_end(m: Milestone, cfg: AutoApproveConfig) -> u64 {
    let deadline: u64 = match m.deadline {
        Some(d) => d,
        None => 0,
    };
    let base: u64 = if deadline > 0 { deadline } else { m.submission_timestamp };
    if base + cfg.grace_period_seconds > u64::MAX { u64::MAX } else { (base + cfg.grace_period_seconds) as u64 }
}

/// The votes cast on a milestone.
pub open spec fn votes_cast(m: Milestone) -> int {
    m.approvals + m.rejections
}

/// Whether the vote tallies of a milestone that the decision reaches fit a
/// `u32` when summed: they are summed only for a submitted, undecided
/// milestone of an enabled grant whose grace period has passed.
pub open spec fn tally_fits(aa: &AutoApproveStore, store: &GrantStore, g: u64, idx: u32, now: u64) -> bool {
    match (aa.config(g), store.grant(g), store.milestone(g, idx)) {
        (Some(cfg), Some(grant), Some(m)) => {
            cfg.enabled && idx < grant.total_milestones && m.state == MilestoneState::Submitted
                && aa.record(g, idx) is None && now >= grace_end(m, cfg) ==> votes_cast(m) <= u32::MAX
        },
        _ => true,
    }
}

/// What `try_auto_approve` answers in the given state at time `now`:
/// `Ok(true)` when it decides the milestone, `Ok(false)` when the
/// milestone is not awaiting a decision or was already decided this way.
pub open spec fn auto_approve_outcome(aa: &AutoApproveStore, store: &GrantStore, g: u64, idx: u32, now: u64) -> Result<bool, ContractError> {
    match aa.config(g) {
        None => Err(ContractError::AutoApproveNotEnabled),
        Some(cfg) => if !cfg.enabled {
            Err(ContractError::AutoApproveNotEnabled)
        } else {
            match store.grant(g) {
                None => Err(ContractError::GrantNotFound),
                Some(grant) => if idx >= grant.total_milestones {
                    Err(ContractError::MilestoneIndexOutOfBounds)
                } else {
                    match store.milestone(g, idx) {
                        None => Err(ContractError::MilestoneNotFound),
                        Some(m) => if m.state != MilestoneState::Submitted {
                            Ok(false)
                        } else if aa.record(g, idx) is Some {
                            Ok(false)
                        } else if now < grace_end(m, cfg) {
                            Err(ContractError::AutoApproveGracePeriodNotPassed)
                        } else if votes_cast(m) < cfg.min_votes_required {
                            Err(ContractError::AutoApproveInsufficientVotes)
                        } else {
                            Ok(true)
                        },
                    }
                },
            }
        },
    }
}

/// The state an automatic decision gives a milestone: approved when it has
/// approvals and more of them than rejections, rejected otherwise.
pub open spec fn decided_state(m: Milestone) -> MilestoneState {
    if m.approvals > 0 && m.approvals > m.rejections {
        MilestoneState::Approved
    } else {
        MilestoneState::Rejected
    }
}

/// The grace period of a submitted, undecided milestone of an enabled grant
/// runs from its deadline when it has a positive one, whenever it was
/// submitted, and from its submission time otherwise: the decision is
/// refused as early exactly while `now` is before that start plus the grace
/// period (capped at `u64::MAX`).
pub proof fn lemma_grace_period_start(aa: AutoApproveStore, store: GrantStore, g: u64, idx: u32, now: u64)
    requires
        aa.config(g) matches Some(cfg) && cfg.enabled,
        store.grant(g) matches Some(gr) && idx < gr.total_milestones,
        store.milestone(g, idx) matches Some(m) && m.state == MilestoneState::Submitted,
        aa.record(g, idx) is None,
    ensures
        ({
            let cfg = aa.config(g)->Some_0;
            let m = store.milestone(g, idx)->Some_0;
            let start: int = match m.deadline {
                Some(d) => if d > 0 { d as int } else { m.submission_timestamp as int },
                None => m.submission_timestamp as int,
            };
            (auto_approve_outcome(&aa, &store, g, idx, now)
                == Err::<bool, ContractError>(ContractError::AutoApproveGracePeriodNotPassed))
                <==> (now < start + cfg.grace_period_seconds && now < u64::MAX)
        }),
{
}

/// Decide submitted milestone `milestone_idx` of grant `grant_id` at time
/// `now` once its grace period has passed with enough votes cast: it
/// becomes approved when approvals lead (and there is at least one), and
/// rejected otherwise; a record of the decision, triggered by `caller`, is
/// kept. Anyone may call.
///
/// Returns `Ok(false)`, changing nothing, when the milestone is not
/// submitted or was already decided this way. Fails with
/// `AutoApproveNotEnabled`, `GrantNotFound`, `MilestoneIndexOutOfBounds`,
/// `MilestoneNotFound`, `AutoApproveGracePeriodNotPassed` or
/// `AutoApproveInsufficientVotes`, changing nothing.
pub fn try_auto_approve(
    aa: &mut AutoApproveStore,
    store: &mut GrantStore,
    caller: u64,
    grant_id: u64,
    milestone_idx: u32,
    now: u64,
) -> (r: Result<bool, ContractError>)
    requires
        tally_fits(old(aa), old(store), grant_id, milestone_idx, now),
    ensures
        r == auto_approve_outcome(old(aa), old(store), grant_id, milestone_idx, now),
        final(aa).configs@ == old(aa).configs@,
        final(store).grants@ == old(store).grants@,
        final(store).contributors@ == old(store).contributors@,
        final(store).global_admin == old(store).global_admin,
        final(store).treasury == old(store).treasury,
        r != Ok::<bool, ContractError>(true) ==> {
            &&& final(aa).records@ == old(aa).records@
            &&& final(store).milestones@ == old(store).milestones@
        },
        r == Ok::<bool, ContractError>(true) ==> {
            let k = spec_pair_key(grant_id, milestone_idx);
            let m = old(store).milestones@[k];
            &&& final(aa).records@ == old(aa).records@.insert(k, AutoApproveRecord {
                grant_id,
                milestone_idx,
                triggered_by: caller,
                triggered_at: now,
                votes_at_trigger: votes_cast(m) as u32,
            })
            &&& final(store).milestones@ == old(store).milestones@.insert(k, Milestone { state: decided_state(m), ..m })
        },
{
    let cfg = match aa.configs.get(&grant_id) {
        Some(c) => *c,
        None => {
            return Err(ContractError::AutoApproveNotEnabled);
        },
    };
    if !cfg.enabled {
        return Err(ContractError::AutoApproveNotEnabled);
    }
    let grant: &Grant = match store.get_grant(grant_id) {
        Some(g) => g,
        None => {
            return Err(ContractError::GrantNotFound);
        },
    };
    if milestone_idx >= grant.total_milestones {
        return Err(ContractError::MilestoneIndexOutOfBounds);
    }
    let m = match store.get_milestone(grant_id, milestone_idx) {
        Some(m) => m,
        None => {
            return Err(ContractError::MilestoneNotFound);
        },
    };
    if m.state != MilestoneState::Submitted {
        return Ok(false);
    }
    let k = pair_key(grant_id, milestone_idx);
    if aa.records.contains_key(&k) {
        return Ok(false);
    }
    let deadline: u64 = match m.deadline {
        Some(d) => d,
        None => 0,
    };
    let base: u64 = if deadline > 0 { deadline } else { m.submission_timestamp };
    let end: u64 = if base > u64::MAX - cfg.grace_period_seconds { u64::MAX } else { base + cfg.grace_period_seconds };
    if now < end {
        return Err(ContractError::AutoApproveGracePeriodNotPassed);
    }
    let votes: u32 = m.approvals + m.rejections;
    if votes < cfg.min_votes_required {
        return Err(ContractError::AutoApproveInsufficientVotes);
    }
    let approved = m.approvals > 0 && m.approvals > m.rejections;
    let ghost old_m = *m;
    match store.milestones.remove(&k) {
        Some(mut mm) => {
            mm.state = if approved { MilestoneState::Approved } else { MilestoneState::Rejected };
            store.milestones.insert(k, mm);
        },
        None => {},
    }
    proof {
        assert(old(store).milestones@.contains_key(k));
        assert(old(store).milestones@[k] == old_m);
    }
    aa.records.insert(k, AutoApproveRecord {
        grant_id,
        milestone_idx,
        triggered_by: caller,
        triggered_at: now,
        votes_at_trigger: votes,
    });
    Ok(true)
}

/// Whether `try_auto_approve` would decide milestone `milestone_idx` of
/// grant `grant_id` at time `now`.
pub fn can_auto_approve(aa: &AutoApproveStore, store: &GrantStore, grant_id: u64, milestone_idx: u32, now: u64) -> (r: bool)
    requires
        tally_fits(aa, store, grant_id, milestone_idx, now),
    ensures
        r == (auto_approve_outcome(aa, store, grant_id, milestone_idx, now) == Ok::<bool, ContractError>(true)),
{
    let cfg = match aa.configs.get(&grant_id) {
        Some(c) => *c,
        None => {
            return false;
        },
    };
    if !cfg.enabled {
        return false;
    }
    let grant: &Grant = match store.get_grant(grant_id) {
        Some(g) => g,
        None => {
            return false;
        },
    };
    if milestone_idx >= grant.total_milestones {
        return false;
    }
    let m = match store.get_milestone(grant_id, milestone_idx) {
        Some(m) => m,
        None => {
            return false;
        },
    };
    if m.state != MilestoneState::Submitted {
        return false;
    }
    let k = pair_key(grant_id, milestone_idx);
    if aa.records.contains_key(&k) {
        return false;
    }
    let deadline: u64 = match m.deadline {
        Some(d) => d,
        None => 0,
    };
    let base: u64 = if deadline > 0 { deadline } else { m.submission_timestamp };
    let end: u64 = if base > u64::MAX - cfg.grace_period_seconds { u64::MAX } else { base + cfg.grace_period_seconds };
    if now < end {
        return false;
    }
    let votes: u32 = m.approvals + m.rejections;
    votes >= cfg.min_votes_required
}

/// The auto-approve configuration of grant `grant_id`.
pub fn get_config(aa: &AutoApproveStore, grant_id: u64) -> (r: Option<AutoApproveConfig>)
    ensures
        r == aa.config(grant_id),
{
    match aa.configs.get(&grant_id) {
        Some(c) => Some(*c),
        None => None,
    }
}

/// The decision record of milestone `milestone_idx` of grant `grant_id`.
pub fn get_record(aa: &AutoApproveStore, grant_id: u64, milestone_idx: u32) -> (r: Option<AutoApproveRecord>)
    ensures
        r == aa.record(grant_id, milestone_idx),
{
    let k = pair_key(grant_id, milestone_idx);
    match aa.records.get(&k) {
        Some(rec) => Some(*rec),
        None => None,
    }
}

/// A milestone decided automatically is never decided automatically again.
pub proof fn lemma_decided_once(aa: AutoApproveStore, store: GrantStore, g: u64, idx: u32, now: u64)
    requires
        aa.record(g, idx) is Some,
    ensures
        auto_approve_outcome(&aa, &store, g, idx, now) != Ok::<bool, ContractError>(true),
{
}

} // verus!
