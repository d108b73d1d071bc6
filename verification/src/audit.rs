use vstd::prelude::*;
use std::collections::HashMap;

verus! {

broadcast use vstd::std_specs::hash::group_hash_axioms;

/// What happened to a grant.
#[derive(Clone, Copy, Debug, PartialEq, Eq, Structural)]
pub enum AuditAction {
    GrantCreated,
    GrantFunded,
    MilestoneSubmitted,
    MilestoneApproved,
    MilestoneRejected,
    MilestonePaid,
    DisputeRaised,
    DisputeResolved,
    GrantCancelled,
    GrantCompleted,
    AdminChanged,
    ContractPaused,
    ContractUnpaused,
}

/// One line of a grant's audit trail.
#[derive(Clone, Copy, Debug, PartialEq, Eq, Structural)]
pub struct AuditEntry {
    pub action: AuditAction,
    pub actor: u64,
    pub grant_id: u64,
    pub milestone_idx: Option<u32>,
    pub amount: Option<i128>,
    pub timestamp: u64,
    pub ledger_sequence: u32,
}

/// Every grant's audit trail, oldest entry first.
pub struct AuditLog {
    pub logs: HashMap<u64, Vec<AuditEntry>>,
}

impl AuditLog {
    /// The audit trail of grant `g` (empty when none).
    pub open spec fn log_of(&self, g: u64) -> Seq<AuditEntry> {
        if self.logs@.contains_key(g) {
            self.logs@[g]@
        } else {
            Seq::empty()
        }
    }

    /// Every trail's length fits the host's 32-bit lengths.
    pub open spec fn wf(&self) -> bool {
        forall|g: u64| #[trigger] self.log_of(g).len() <= u32::MAX
    }

    /// No entries.
    pub fn new() -> (s: Self)
        ensures
            forall|g: u64| #[trigger] s.log_of(g) == Seq::<AuditEntry>::empty(),
            s.wf(),
    {
        AuditLog { logs: HashMap::new() }
    }
}

/// Append an entry recording that `actor` did `action` on grant
/// `grant_id` (optionally on one milestone, for one amount) at time `now`
/// in ledger `ledger_sequence`.
pub fn log(
    al: &mut AuditLog,
    grant_id: u64,
    action: AuditAction,
    actor: u64,
    milestone_idx: Option<u32>,
    amount: Option<i128>,
    now: u64,
    ledger_sequence: u32,
)
    requires
        old(al).wf(),
        old(al).log_of(grant_id).len() < u32::MAX,
    ensures
        final(al).wf(),
        final(al).log_of(grant_id) == old(al).log_of(grant_id).push(
            AuditEntry { action, actor, grant_id, milestone_idx, amount, timestamp: now, ledger_sequence },
        ),
        forall|h: u64| h != grant_id ==> #[trigger] final(al).log_of(h) == old(al).log_of(h),
{
    let entry = AuditEntry { action, actor, grant_id, milestone_idx, amount, timestamp: now, ledger_sequence };
    let mut entries: Vec<AuditEntry> = match al.logs.remove(&grant_id) {
        Some(v) => v,
        None => Vec::new(),
    };
    assert(entries@ == old(al).log_of(grant_id));
    entries.push(entry);
    al.logs.insert(grant_id, entries);
    assert forall|h: u64| #[trigger] al.log_of(h).len() <= u32::MAX by {
        if h != grant_id {
            assert(old(al).log_of(h).len() <= u32::MAX);
        }
    }
}

/// The full audit trail of grant `grant_id`, oldest first.
pub fn get_log(al: &AuditLog, grant_id: u64) -> (r: Vec<AuditEntry>)
    ensures
        r@ == al.log_of(grant_id),
{
    match al.logs.get(&grant_id) {
        Some(v) => {
            let c = v.clone();
            assert(c@ =~= v@);
            c
        },
        None => Vec::new(),
    }
}

/// The last `n` entries of a trail (all of it when shorter), oldest first.
pub open spec fn recent(s: Seq<AuditEntry>, n: int) -> Seq<AuditEntry> {
    if n <= 0 || s.len() == 0 {
        Seq::empty()
    } else if n >= s.len() {
        s
    } else {
        s.subrange(s.len() - n, s.len() as int)
    }
}

/// The last `n` entries of grant `grant_id`'s trail, oldest first.
pub fn get_recent(al: &AuditLog, grant_id: u64, n: u32) -> (r: Vec<AuditEntry>)
    ensures
        r@ == recent(al.log_of(grant_id), n as int),
{
    let all = get_log(al, grant_id);
    let len = all.len();
    let mut out: Vec<AuditEntry> = Vec::new();
    if n == 0 || len == 0 {
        return out;
    }
    let start: usize = if (n as usize) >= len { 0 } else { len - n as usize };
    let mut i: usize = start;
    while i < len
        invariant
            start <= i <= len,
            len == all@.len(),
            out@ == all@.subrange(start as int, i as int),
        decreases len - i,
    {
        out.push(all[i]);
        assert(all@.subrange(start as int, i as int + 1) =~= all@.subrange(start as int, i as int).push(all@[i as int]));
        i = i + 1;
    }
    assert(all@.subrange(0, len as int) =~= all@);
    out
}

/// The number of entries in grant `grant_id`'s trail.
pub fn log_length(al: &AuditLog, grant_id: u64) -> (r: u32)
    requires
        al.wf(),
    ensures
        r == al.log_of(grant_id).len(),
{
    assert(al.log_of(grant_id).len() <= u32::MAX);
    match al.logs.get(&grant_id) {
        Some(v) => v.len() as u32,
        None => 0,
    }
}

} // verus!
