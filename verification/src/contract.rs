use vstd::prelude::*;
use crate::access_control::RoleRegistry;
use crate::audit::AuditLog;
use crate::auto_approve::AutoApproveStore;
use crate::badge::BadgeStore;
use crate::bounty_store::Storage;
use crate::clawback::ClawbackStore;
use crate::contributor_verification::VerificationStore;
use crate::escrow_multisig::EscrowStore;
use crate::fees::{FeeLedger, ProtocolConfig};
use crate::grant_bridge::BridgeStore;
use crate::grant_pause::PauseStore;
use crate::grant_records::RecordStore;
use crate::grant_timer::TimerStore;
use crate::metrics::MetricsModule;
use crate::milestone_deps::DagStore;
use crate::milestone_template::TemplateStore;
use crate::reentrancy::ReentrancyGuards;
use crate::registry::Registry;
use crate::store::GrantStore;
use crate::versioning::VersionStore;
use crate::waitlist::WaitlistStore;

verus! {

/// The whole state of one deployment of the contract.
pub struct StellarGrantsContract {
    pub config: ProtocolConfig,
    pub grants: GrantStore,
    pub fees: FeeLedger,
    pub versions: VersionStore,
    pub waitlists: WaitlistStore,
    pub timers: TimerStore,
    pub dags: DagStore,
    pub escrow: EscrowStore,
    pub roles: RoleRegistry,
    pub clawbacks: ClawbackStore,
    pub registry: Registry,
    pub verification: VerificationStore,
    pub auto_approve: AutoApproveStore,
    pub badges: BadgeStore,
    pub pauses: PauseStore,
    pub bridge: BridgeStore,
    pub templates: TemplateStore,
    pub records: RecordStore,
    pub audit: AuditLog,
    pub guards: ReentrancyGuards,
    pub metrics: MetricsModule,
    pub bounties: Storage,
}

impl StellarGrantsContract {
    /// Every part's own invariant holds.
    pub open spec fn wf(&self) -> bool {
        &&& self.grants.wf()
        &&& self.versions.wf()
        &&& self.escrow.wf()
        &&& self.clawbacks.wf()
        &&& self.registry.wf()
        &&& self.badges.wf()
        &&& self.audit.wf()
    }

    /// A fresh deployment with the given configuration and clawback
    /// dispute window: no grants, no records, no guard held.
    pub fn new(config: ProtocolConfig, clawback_dispute_window_secs: u64) -> (c: Self)
        ensures
            c.wf(),
            c.config == config,
            c.escrow.config == Some(config),
            c.clawbacks.dispute_window_secs == clawback_dispute_window_secs,
            c.grants.grants@ == Map::<u64, crate::types::Grant>::empty(),
            c.grants.global_admin is None,
            c.grants.treasury is None,
            !c.guards.entry_guard && !c.guards.external_call_guard,
            c.metrics.stored is None,
            c.bounties.bounty_counter == 0,
    {
        StellarGrantsContract {
            config,
            grants: GrantStore::new(),
            fees: FeeLedger::new(),
            versions: VersionStore::new(),
            waitlists: WaitlistStore::new(),
            timers: TimerStore::new(),
            dags: DagStore::new(),
            escrow: EscrowStore::new(Some(config)),
            roles: RoleRegistry::new(),
            clawbacks: ClawbackStore::new(clawback_dispute_window_secs),
            registry: Registry::new(),
            verification: VerificationStore::new(),
            auto_approve: AutoApproveStore::new(),
            badges: BadgeStore::new(),
            pauses: PauseStore::new(),
            bridge: BridgeStore::new(),
            templates: TemplateStore::new(),
            records: RecordStore::new(),
            audit: AuditLog::new(),
            guards: ReentrancyGuards::new(),
            metrics: MetricsModule::new(),
            bounties: Storage::new(),
        }
    }
}

} // verus!
