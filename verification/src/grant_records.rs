use vstd::prelude::*;
use std::collections::HashMap;
use crate::store::{pair_key, spec_pair_key, lemma_pair_key_injective, same_grant};
use crate::types::Grant;

verus! {

broadcast use vstd::std_specs::hash::group_hash_axioms;

/// How many entries one page of a grant's audit log holds.
pub const MAX_ENTRIES_PER_PAGE: u32 = 200;

/// The storage slots of a grant's audit log: the log as a whole, its page
/// count, and each page.
#[derive(Clone, Copy, Debug, PartialEq, Eq, Structural)]
pub enum GrantKey {
    AuditLog(u64),
    AuditLogPageCount(u64),
    AuditLogPage(u64, u32),
}

/// The flat number of a slot: a tag for the kind of slot above the
/// grant and page numbers.
pub open spec fn spec_storage_key(k: GrantKey) -> u128 {
    match k {
        GrantKey::AuditLog(g) => spec_pair_key(g, 0),
        GrantKey::AuditLogPageCount(g) => (0x1_0000_0000_0000_0000_0000_0000 + spec_pair_key(g, 0)) as u128,
        GrantKey::AuditLogPage(g, p) => (0x2_0000_0000_0000_0000_0000_0000 + spec_pair_key(g, p)) as u128,
    }
}

/// Every pair key lies below 2^96.
proof fn lemma_pair_key_bound(a: u64, b: u32)
    ensures
        spec_pair_key(a, b) < 0x1_0000_0000_0000_0000_0000_0000,
{
    crate::store::lemma_pair_key_offset(a, b);
    assert(a as int * 0x1_0000_0000 + (b as int) < 0x1_0000_0000_0000_0000_0000_0000) by (nonlinear_arith)
        requires
            0 <= a < 0x1_0000_0000_0000_0000,
            0 <= b < 0x1_0000_0000,
    ;
}

/// Distinct slots have distinct numbers.
pub proof fn lemma_storage_key_injective(a: GrantKey, b: GrantKey)
    ensures
        spec_storage_key(a) == spec_storage_key(b) ==> a == b,
{
    match a {
        GrantKey::AuditLog(g) => lemma_pair_key_bound(g, 0),
        GrantKey::AuditLogPageCount(g) => lemma_pair_key_bound(g, 0),
        GrantKey::AuditLogPage(g, p) => lemma_pair_key_bound(g, p),
    }
    match b {
        GrantKey::AuditLog(g) => lemma_pair_key_bound(g, 0),
        GrantKey::AuditLogPageCount(g) => lemma_pair_key_bound(g, 0),
        GrantKey::AuditLogPage(g, p) => lemma_pair_key_bound(g, p),
    }
    match (a, b) {
        (GrantKey::AuditLog(g1), GrantKey::AuditLog(g2)) => lemma_pair_key_injective(g1, 0, g2, 0),
        (GrantKey::AuditLogPageCount(g1), GrantKey::AuditLogPageCount(g2)) => lemma_pair_key_injective(g1, 0, g2, 0),
        (GrantKey::AuditLogPage(g1, p1), GrantKey::AuditLogPage(g2, p2)) => lemma_pair_key_injective(g1, p1, g2, p2),
        _ => {},
    }
}

impl GrantKey {
    /// The flat number of this slot.
    pub fn storage_key(&self) -> (r: u128)
        ensures
            r == spec_storage_key(*self),
    {
        proof {
            match *self {
                GrantKey::AuditLog(g) => lemma_pair_key_bound(g, 0),
                GrantKey::AuditLogPageCount(g) => lemma_pair_key_bound(g, 0),
                GrantKey::AuditLogPage(g, p) => lemma_pair_key_bound(g, p),
            }
        }
        match *self {
            GrantKey::AuditLog(g) => pair_key(g, 0),
            GrantKey::AuditLogPageCount(g) => 0x1_0000_0000_0000_0000_0000_0000u128 + pair_key(g, 0),
            GrantKey::AuditLogPage(g, p) => 0x2_0000_0000_0000_0000_0000_0000u128 + pair_key(g, p),
        }
    }
}

/// One line of a grant's audit trail.
#[derive(Clone, Debug, PartialEq, Eq)]
pub struct AuditEntry {
    pub grant_id: u64,
    pub action: Vec<u8>,
    pub actor: u64,
    pub timestamp: u64,
}

/// How a snapshot came to be taken.
#[derive(Clone, Copy, Debug, PartialEq, Eq, Structural)]
pub enum SnapshotTrigger {
    Manual,
    MilestoneSubmitted,
}

/// A grant's state as captured at one moment.
#[derive(Clone, Debug, PartialEq, Eq)]
pub struct Snapshot {
    pub snapshot_id: u32,
    pub grant_id: u64,
    pub trigger: SnapshotTrigger,
    pub captured_by: u64,
    pub timestamp: u64,
    pub grant_state: Grant,
}

/// One payee of a split milestone payment and its share in basis points.
#[derive(Clone, Copy, Debug, PartialEq, Eq, Structural)]
pub struct SplitRecipient {
    pub recipient: u64,
    pub basis_points: u32,
}

/// Per-grant records: audit log pages and page counts (keyed by the slot
/// numbers of `GrantKey`), snapshots and their id lists, and payment
/// splits (keyed by `spec_pair_key(grant_id, milestone_idx)` and
/// `spec_pair_key(grant_id, snapshot_id)`).
pub struct RecordStore {
    pub audit_page_counts: HashMap<u128, u32>,
    pub audit_pages: HashMap<u128, Vec<AuditEntry>>,
    pub snapshots: HashMap<u128, Snapshot>,
    pub snapshot_lists: HashMap<u64, Vec<u32>>,
    pub splits: HashMap<u128, Vec<SplitRecipient>>,
}

/// The number of the last audit page of grant `g`.
pub open spec fn page_count_of(counts: Map<u128, u32>, g: u64) -> u32 {
    let k = spec_storage_key(GrantKey::AuditLogPageCount(g));
    if counts.contains_key(k) { counts[k] } else { 0 }
}

/// Audit page `p` of grant `g` (empty when absent).
pub open spec fn audit_page(pages: Map<u128, Vec<AuditEntry>>, g: u64, p: int) -> Seq<AuditEntry> {
    let k = spec_storage_key(GrantKey::AuditLogPage(g, p as u32));
    if 0 <= p <= u32::MAX && pages.contains_key(k) {
        pages[k]@
    } else {
        Seq::empty()
    }
}

/// The entries of audit pages `0..n` of grant `g`, in order.
pub open spec fn audit_concat(pages: Map<u128, Vec<AuditEntry>>, g: u64, n: nat) -> Seq<AuditEntry>
    decreases n,
{
    if n == 0 {
        Seq::empty()
    } else {
        audit_concat(pages, g, (n - 1) as nat) + audit_page(pages, g, n - 1)
    }
}

impl RecordStore {
    /// Grant `g`'s audit log, oldest first.
    pub open spec fn audit_log(&self, g: u64) -> Seq<AuditEntry> {
        audit_concat(self.audit_pages@, g, page_count_of(self.audit_page_counts@, g) as nat + 1)
    }

    /// Snapshot `id` of grant `g`, if any.
    pub open spec fn snapshot(&self, g: u64, id: u32) -> Option<Snapshot> {
        let k = spec_pair_key(g, id);
        if self.snapshots@.contains_key(k) { Some(self.snapshots@[k]) } else { None }
    }

    /// The snapshot ids of grant `g`, in capture order.
    pub open spec fn snapshot_list(&self, g: u64) -> Seq<u32> {
        if self.snapshot_lists@.contains_key(g) { self.snapshot_lists@[g]@ } else { Seq::empty() }
    }

    /// The payment split of milestone `idx` of grant `g`, if any.
    pub open spec fn split(&self, g: u64, idx: u32) -> Option<Seq<SplitRecipient>> {
        let k = spec_pair_key(g, idx);
        if self.splits@.contains_key(k) { Some(self.splits@[k]@) } else { None }
    }

    /// No records.
    pub fn new() -> (s: Self)
        ensures
            s.audit_page_counts@ == Map::<u128, u32>::empty(),
            s.audit_pages@ == Map::<u128, Vec<AuditEntry>>::empty(),
            s.snapshots@ == Map::<u128, Snapshot>::empty(),
            s.snapshot_lists@ == Map::<u64, Vec<u32>>::empty(),
            s.splits@ == Map::<u128, Vec<SplitRecipient>>::empty(),
            forall|g: u64| #[trigger] s.audit_log(g) == Seq::<AuditEntry>::empty(),
    {
        let s = RecordStore {
            audit_page_counts: HashMap::new(),
            audit_pages: HashMap::new(),
            snapshots: HashMap::new(),
            snapshot_lists: HashMap::new(),
            splits: HashMap::new(),
        };
        assert forall|g: u64| #[trigger] s.audit_log(g) == Seq::<AuditEntry>::empty() by {
            reveal_with_fuel(audit_concat, 2);
            assert(s.audit_log(g) =~= Seq::<AuditEntry>::empty());
        }
        s
    }
}

/// A field-by-field copy of an audit entry.
fn copy_entry(e: &AuditEntry) -> (r: AuditEntry)
    ensures
        r.action@ == e.action@,
        r == (AuditEntry { action: r.action, ..*e }),
{
    AuditEntry { grant_id: e.grant_id, action: crate::bytes::copy_bytes(&e.action), actor: e.actor, timestamp: e.timestamp }
}

/// Two logs hold the same entries (byte strings by content).
pub open spec fn same_entries(a: Seq<AuditEntry>, b: Seq<AuditEntry>) -> bool {
    &&& a.len() == b.len()
    &&& forall|i: int| 0 <= i < a.len() ==> (#[trigger] a[i]).action@ == b[i].action@ && a[i] == (AuditEntry { action: a[i].action, ..b[i] })
}

/// Writing a page of one grant leaves every other grant's pages, and this
/// grant's earlier pages, as they were.
proof fn lemma_audit_concat_insert(pages: Map<u128, Vec<AuditEntry>>, g: u64, p: u32, v: Vec<AuditEntry>, h: u64, n: nat)
    requires
        h != g || n <= p,
    ensures
        audit_concat(pages.insert(spec_storage_key(GrantKey::AuditLogPage(g, p)), v), h, n) == audit_concat(pages, h, n),
    decreases n,
{
    if n > 0 {
        lemma_audit_concat_insert(pages, g, p, v, h, (n - 1) as nat);
        let q = n - 1;
        if q <= u32::MAX {
            lemma_storage_key_injective(GrantKey::AuditLogPage(g, p), GrantKey::AuditLogPage(h, q as u32));
        }
        assert(audit_page(pages.insert(spec_storage_key(GrantKey::AuditLogPage(g, p)), v), h, q) == audit_page(pages, h, q));
    }
}

/// Append `entry` to grant `grant_id`'s audit log, opening a new page when
/// the last one holds `MAX_ENTRIES_PER_PAGE` entries.
pub fn append_audit_entry(rs: &mut RecordStore, grant_id: u64, entry: &AuditEntry)
    requires
        page_count_of(old(rs).audit_page_counts@, grant_id) == u32::MAX
            ==> audit_page(old(rs).audit_pages@, grant_id, u32::MAX as int).len() < MAX_ENTRIES_PER_PAGE,
    ensures
        ({
            let log = final(rs).audit_log(grant_id);
            let old_log = old(rs).audit_log(grant_id);
            &&& log.len() == old_log.len() + 1
            &&& log.take(old_log.len() as int) == old_log
            &&& log.last().action@ == entry.action@
            &&& log.last() == (AuditEntry { action: log.last().action, ..*entry })
        }),
        forall|h: u64| h != grant_id ==> #[trigger] final(rs).audit_log(h) == old(rs).audit_log(h),
        final(rs).snapshots@ == old(rs).snapshots@,
        final(rs).snapshot_lists@ == old(rs).snapshot_lists@,
        final(rs).splits@ == old(rs).splits@,
{
    let count_key = GrantKey::AuditLogPageCount(grant_id).storage_key();
    let pc: u32 = match rs.audit_page_counts.get(&count_key) {
        Some(c) => *c,
        None => 0,
    };
    let page_key = GrantKey::AuditLogPage(grant_id, pc).storage_key();
    let ghost old_pages = rs.audit_pages@;
    let ghost old_counts = rs.audit_page_counts@;
    let full = match rs.audit_pages.get(&page_key) {
        Some(p) => p.len() >= MAX_ENTRIES_PER_PAGE as usize,
        None => false,
    };
    let e = copy_entry(entry);
    let ghost ge = e;
    if full {
        let np = pc + 1;
        let mut page: Vec<AuditEntry> = Vec::new();
        page.push(e);
        rs.audit_page_counts.insert(count_key, np);
        let new_key = GrantKey::AuditLogPage(grant_id, np).storage_key();
        let ghost pv = page;
        rs.audit_pages.insert(new_key, page);
        proof {
            lemma_audit_concat_insert(old_pages, grant_id, np, pv, grant_id, np as nat);
            assert(audit_page(rs.audit_pages@, grant_id, np as int) =~= seq![ge]);
            assert forall|h: u64| h != grant_id implies #[trigger] rs.audit_log(h) == old(rs).audit_log(h) by {
                lemma_audit_concat_insert(old_pages, grant_id, np, pv, h, page_count_of(old_counts, h) as nat + 1);
                lemma_storage_key_injective(GrantKey::AuditLogPageCount(grant_id), GrantKey::AuditLogPageCount(h));
                assert(page_count_of(rs.audit_page_counts@, h) == page_count_of(old_counts, h));
            }
            let log = rs.audit_log(grant_id);
            let old_log = old(rs).audit_log(grant_id);
            assert(log =~= old_log.push(ge));
            assert(log.take(old_log.len() as int) =~= old_log);
        }
    } else {
        let mut page: Vec<AuditEntry> = match rs.audit_pages.remove(&page_key) {
            Some(p) => p,
            None => Vec::new(),
        };
        assert(page@ == audit_page(old_pages, grant_id, pc as int));
        page.push(e);
        let ghost pv = page;
        rs.audit_pages.insert(page_key, page);
        proof {
            assert(rs.audit_pages@ == old_pages.insert(page_key, pv));
            lemma_audit_concat_insert(old_pages, grant_id, pc, pv, grant_id, pc as nat);
            let old_log = old(rs).audit_log(grant_id);
            let log = rs.audit_log(grant_id);
            assert(log =~= old_log.push(ge));
            assert(log.take(old_log.len() as int) =~= old_log);
            assert forall|h: u64| h != grant_id implies #[trigger] rs.audit_log(h) == old(rs).audit_log(h) by {
                lemma_audit_concat_insert(old_pages, grant_id, pc, pv, h, page_count_of(old_counts, h) as nat + 1);
            }
        }
    }
}

/// Grant `grant_id`'s audit log, oldest first, gathered from its pages.
pub fn get_audit_log(rs: &RecordStore, grant_id: u64) -> (r: Vec<AuditEntry>)
    ensures
        same_entries(r@, rs.audit_log(grant_id)),
{
    let count_key = GrantKey::AuditLogPageCount(grant_id).storage_key();
    let pc: u32 = match rs.audit_page_counts.get(&count_key) {
        Some(c) => *c,
        None => 0,
    };
    let mut out: Vec<AuditEntry> = Vec::new();
    let n: u64 = pc as u64 + 1;
    let mut p: u64 = 0;
    while p < n
        invariant
            p <= n,
            n == page_count_of(rs.audit_page_counts@, grant_id) as u64 + 1,
            same_entries(out@, audit_concat(rs.audit_pages@, grant_id, p as nat)),
        decreases n - p,
    {
        let key = GrantKey::AuditLogPage(grant_id, p as u32).storage_key();
        let ghost before = out@;
        let ghost target = audit_concat(rs.audit_pages@, grant_id, p as nat + 1);
        match rs.audit_pages.get(&key) {
            Some(page) => {
                let mut j: usize = 0;
                while j < page.len()
                    invariant
                        j <= page.len(),
                        out@.len() == before.len() + j,
                        out@.take(before.len() as int) == before,
                        forall|i: int| 0 <= i < j ==> (#[trigger] out@[before.len() + i]).action@ == page@[i].action@
                            && out@[before.len() + i] == (AuditEntry { action: out@[before.len() + i].action, ..page@[i] }),
                    decreases page.len() - j,
                {
                    let ghost prev = out@;
                    out.push(copy_entry(&page[j]));
                    assert(out@.take(before.len() as int) =~= prev.take(before.len() as int));
                    j = j + 1;
                }
                assert(audit_page(rs.audit_pages@, grant_id, p as int) == page@);
                assert forall|i: int| 0 <= i < out@.len() implies (#[trigger] out@[i]).action@ == target[i].action@
                    && out@[i] == (AuditEntry { action: out@[i].action, ..target[i] }) by {
                    if i < before.len() {
                        assert(out@[i] == out@.take(before.len() as int)[i]);
                    } else {
                        let k = i - before.len();
                        assert(out@[before.len() + k] == out@[i]);
                    }
                }
            },
            None => {
                assert(audit_page(rs.audit_pages@, grant_id, p as int) =~= Seq::<AuditEntry>::empty());
                assert(target =~= audit_concat(rs.audit_pages@, grant_id, p as nat));
            },
        }
        p = p + 1;
    }
    out
}

/// Record that `actor` did `action` on grant `grant_id` at time `now`.
pub fn log(rs: &mut RecordStore, grant_id: u64, action: Vec<u8>, actor: u64, now: u64)
    requires
        page_count_of(old(rs).audit_page_counts@, grant_id) == u32::MAX
            ==> audit_page(old(rs).audit_pages@, grant_id, u32::MAX as int).len() < MAX_ENTRIES_PER_PAGE,
    ensures
        ({
            let log = final(rs).audit_log(grant_id);
            let old_log = old(rs).audit_log(grant_id);
            &&& log.len() == old_log.len() + 1
            &&& log.take(old_log.len() as int) == old_log
            &&& log.last().action@ == action@
            &&& log.last() == (AuditEntry { grant_id, action: log.last().action, actor, timestamp: now })
        }),
        forall|h: u64| h != grant_id ==> #[trigger] final(rs).audit_log(h) == old(rs).audit_log(h),
        final(rs).snapshots@ == old(rs).snapshots@,
        final(rs).snapshot_lists@ == old(rs).snapshot_lists@,
        final(rs).splits@ == old(rs).splits@,
{
    let entry = AuditEntry { grant_id, action, actor, timestamp: now };
    append_audit_entry(rs, grant_id, &entry);
}

/// Store snapshot `snapshot_id` of grant `grant_id`.
pub fn set_snapshot(rs: &mut RecordStore, grant_id: u64, snapshot_id: u32, snapshot: Snapshot)
    ensures
        final(rs).snapshots@ == old(rs).snapshots@.insert(spec_pair_key(grant_id, snapshot_id), snapshot),
        final(rs).audit_page_counts@ == old(rs).audit_page_counts@,
        final(rs).audit_pages@ == old(rs).audit_pages@,
        final(rs).snapshot_lists@ == old(rs).snapshot_lists@,
        final(rs).splits@ == old(rs).splits@,
{
    rs.snapshots.insert(pair_key(grant_id, snapshot_id), snapshot);
}

/// Snapshot `snapshot_id` of grant `grant_id`.
pub fn get_snapshot(rs: &RecordStore, grant_id: u64, snapshot_id: u32) -> (r: Option<&Snapshot>)
    ensures
        match r {
            Some(s) => rs.snapshot(grant_id, snapshot_id) == Some(*s),
            None => rs.snapshot(grant_id, snapshot_id) is None,
        },
{
    rs.snapshots.get(&pair_key(grant_id, snapshot_id))
}

/// Replace grant `grant_id`'s list of snapshot ids.
pub fn set_snapshot_list(rs: &mut RecordStore, grant_id: u64, snapshots: Vec<u32>)
    ensures
        final(rs).snapshot_lists@ == old(rs).snapshot_lists@.insert(grant_id, snapshots),
        final(rs).audit_page_counts@ == old(rs).audit_page_counts@,
        final(rs).audit_pages@ == old(rs).audit_pages@,
        final(rs).snapshots@ == old(rs).snapshots@,
        final(rs).splits@ == old(rs).splits@,
{
    rs.snapshot_lists.insert(grant_id, snapshots);
}

/// Grant `grant_id`'s snapshot ids (empty when none).
pub fn get_snapshot_list(rs: &RecordStore, grant_id: u64) -> (r: Vec<u32>)
    ensures
        r@ == rs.snapshot_list(grant_id),
{
    match rs.snapshot_lists.get(&grant_id) {
        Some(l) => {
            let v = l.clone();
            assert(v@ =~= l@);
            v
        },
        None => Vec::new(),
    }
}

/// Store the payment split of milestone `milestone_idx` of grant
/// `grant_id`.
pub fn set_split_recipients(rs: &mut RecordStore, grant_id: u64, milestone_idx: u32, recipients: Vec<SplitRecipient>)
    ensures
        final(rs).splits@ == old(rs).splits@.insert(spec_pair_key(grant_id, milestone_idx), recipients),
        final(rs).audit_page_counts@ == old(rs).audit_page_counts@,
        final(rs).audit_pages@ == old(rs).audit_pages@,
        final(rs).snapshots@ == old(rs).snapshots@,
        final(rs).snapshot_lists@ == old(rs).snapshot_lists@,
{
    rs.splits.insert(pair_key(grant_id, milestone_idx), recipients);
}

/// The payment split of milestone `milestone_idx` of grant `grant_id`.
pub fn get_split_recipients(rs: &RecordStore, grant_id: u64, milestone_idx: u32) -> (r: Option<Vec<SplitRecipient>>)
    ensures
        match r {
            Some(v) => rs.split(grant_id, milestone_idx) == Some(v@),
            None => rs.split(grant_id, milestone_idx) is None,
        },
{
    match rs.splits.get(&pair_key(grant_id, milestone_idx)) {
        Some(v) => {
            let c = v.clone();
            assert(c@ =~= v@);
            Some(c)
        },
        None => None,
    }
}

} // verus!
