use vstd::prelude::*;
use crate::errors::ContractError;

verus! {

/// Protocol-wide bounty counters.
#[derive(Clone, Copy, Debug, PartialEq, Eq, Structural)]
pub struct ProtocolMetrics {
    pub total_bounties_created: u64,
    pub total_bounties_awarded: u64,
}

/// The stored protocol metrics (absent until first counted, read as zeros).
pub struct MetricsModule {
    pub stored: Option<ProtocolMetrics>,
}

impl MetricsModule {
    /// The metrics as they read now.
    pub open spec fn current(&self) -> ProtocolMetrics {
        match self.stored {
            Some(m) => m,
            None => ProtocolMetrics { total_bounties_created: 0, total_bounties_awarded: 0 },
        }
    }

    /// Nothing counted yet.
    pub fn new() -> (s: Self)
        ensures
            s.stored is None,
    {
        MetricsModule { stored: None }
    }

    /// Count one more bounty created.
    pub fn increment_bounties_created(&mut self) -> (r: Result<(), ContractError>)
        requires
            old(self).current().total_bounties_created < u64::MAX,
        ensures
            r is Ok,
            final(self).stored == Some(ProtocolMetrics {
                total_bounties_created: (old(self).current().total_bounties_created + 1) as u64,
                ..old(self).current()
            }),
    {
        let mut m = self.get_metrics();
        m.total_bounties_created = m.total_bounties_created + 1;
        self.stored = Some(m);
        Ok(())
    }

    /// Count one more bounty awarded.
    pub fn increment_bounties_awarded(&mut self) -> (r: Result<(), ContractError>)
        requires
            old(self).current().total_bounties_awarded < u64::MAX,
        ensures
            r is Ok,
            final(self).stored == Some(ProtocolMetrics {
                total_bounties_awarded: (old(self).current().total_bounties_awarded + 1) as u64,
                ..old(self).current()
            }),
    {
        let mut m = self.get_metrics();
        m.total_bounties_awarded = m.total_bounties_awarded + 1;
        self.stored = Some(m);
        Ok(())
    }

    /// The metrics, zeros when nothing was counted.
    pub fn get_metrics(&self) -> (m: ProtocolMetrics)
        ensures
            m == self.current(),
    {
        match self.stored {
            Some(m) => m,
            None => ProtocolMetrics { total_bounties_created: 0, total_bounties_awarded: 0 },
        }
    }
}

} // verus!
