use vstd::prelude::*;
use std::collections::HashMap;
use crate::errors::ContractError;
use crate::store::GrantStore;

verus! {

broadcast use vstd::std_specs::hash::group_hash_axioms;

/// How many entries one page of the contributor index holds.
pub const MAX_ENTRIES_PER_PAGE: u32 = 500;

/// What kind of party a registry entry records.
#[derive(Clone, Copy, Debug, PartialEq, Eq, Structural)]
pub enum RegistryEntryType {
    Contributor,
}

/// One entry of the contributor index.
#[derive(Clone, Copy, Debug, PartialEq, Eq, Structural)]
pub struct RegistryEntry {
    pub address: u64,
    pub registered_at: u64,
    pub is_active: bool,
    pub entry_type: RegistryEntryType,
}

/// The contributor index, stored in pages of at most
/// `MAX_ENTRIES_PER_PAGE` entries numbered `0..=page_count`, and the
/// allowlist of approved evaluators.
pub struct Registry {
    pub pages: HashMap<u32, Vec<RegistryEntry>>,
    pub page_count: u32,
    pub reviewer_allowlist: Vec<u64>,
}

/// Page `i` of an index (empty when absent).
pub open spec fn page_of(pages: Map<u32, Vec<RegistryEntry>>, i: int) -> Seq<RegistryEntry> {
    if 0 <= i <= u32::MAX && pages.contains_key(i as u32) {
        pages[i as u32]@
    } else {
        Seq::empty()
    }
}

/// The entries of pages `0..n`, in order.
pub open spec fn pages_concat(pages: Map<u32, Vec<RegistryEntry>>, n: nat) -> Seq<RegistryEntry>
    decreases n,
{
    if n == 0 {
        Seq::empty()
    } else {
        pages_concat(pages, (n - 1) as nat) + page_of(pages, n - 1)
    }
}

/// `s` with every occurrence of `x` left out.
pub open spec fn without(s: Seq<u64>, x: u64) -> Seq<u64>
    decreases s.len(),
{
    if s.len() == 0 {
        Seq::empty()
    } else {
        let rest = without(s.drop_last(), x);
        if s.last() == x {
            rest
        } else {
            rest.push(s.last())
        }
    }
}

/// The window of `s` that skips `offset` entries and keeps at most `limit`.
pub open spec fn window<A>(s: Seq<A>, offset: int, limit: int) -> Seq<A> {
    if offset >= s.len() {
        Seq::empty()
    } else if offset + limit >= s.len() {
        s.subrange(offset, s.len() as int)
    } else {
        s.subrange(offset, offset + limit)
    }
}

impl Registry {
    /// Every registered entry, in registration order.
    pub open spec fn entries(&self) -> Seq<RegistryEntry> {
        pages_concat(self.pages@, self.page_count as nat + 1)
    }

    /// Whether `who` is an approved evaluator.
    pub open spec fn approved(&self, who: u64) -> bool {
        self.reviewer_allowlist@.contains(who)
    }

    /// The allowlist holds no address twice.
    pub open spec fn wf(&self) -> bool {
        self.reviewer_allowlist@.no_duplicates()
    }

    /// An empty registry.
    pub fn new() -> (r: Self)
        ensures
            r.entries() == Seq::<RegistryEntry>::empty(),
            r.reviewer_allowlist@ == Seq::<u64>::empty(),
            r.page_count == 0,
            r.wf(),
    {
        let r = Registry { pages: HashMap::new(), page_count: 0, reviewer_allowlist: Vec::new() };
        assert(r.entries() =~= Seq::<RegistryEntry>::empty()) by {
            reveal_with_fuel(pages_concat, 2);
        }
        r
    }
}

/// Writing page `k` leaves the pages before it as they were.
proof fn lemma_concat_insert_after(pages: Map<u32, Vec<RegistryEntry>>, k: u32, v: Vec<RegistryEntry>, n: nat)
    requires
        n <= k,
    ensures
        pages_concat(pages.insert(k, v), n) == pages_concat(pages, n),
    decreases n,
{
    if n > 0 {
        lemma_concat_insert_after(pages, k, v, (n - 1) as nat);
        assert(page_of(pages.insert(k, v), n - 1) == page_of(pages, n - 1));
    }
}

/// Append `address`, registered at `now`, to the contributor index,
/// opening a new page when the last one is full. Duplicates are not
/// rejected here: the caller checks for an existing profile first.
pub fn register_contributor(reg: &mut Registry, address: u64, now: u64) -> (r: Result<(), ContractError>)
    requires
        old(reg).page_count == u32::MAX ==> page_of(old(reg).pages@, u32::MAX as int).len() < MAX_ENTRIES_PER_PAGE,
    ensures
        r is Ok,
        final(reg).entries() == old(reg).entries().push(
            RegistryEntry { address, registered_at: now, is_active: true, entry_type: RegistryEntryType::Contributor },
        ),
        final(reg).reviewer_allowlist@ == old(reg).reviewer_allowlist@,
        final(reg).page_count == old(reg).page_count || final(reg).page_count == old(reg).page_count + 1,
{
    let entry = RegistryEntry { address, registered_at: now, is_active: true, entry_type: RegistryEntryType::Contributor };
    let pc = reg.page_count;
    let ghost old_pages = reg.pages@;
    let full = match reg.pages.get(&pc) {
        Some(p) => p.len() >= MAX_ENTRIES_PER_PAGE as usize,
        None => false,
    };
    if full {
        let np = pc + 1;
        let mut page: Vec<RegistryEntry> = Vec::new();
        page.push(entry);
        reg.page_count = np;
        reg.pages.insert(np, page);
        proof {
            lemma_concat_insert_after(old_pages, np, page, np as nat);
            assert(page_of(reg.pages@, np as int) =~= seq![entry]);
        }
    } else {
        let mut page: Vec<RegistryEntry> = match reg.pages.get(&pc) {
            Some(p) => p.clone(),
            None => Vec::new(),
        };
        assert(page@ =~= page_of(old_pages, pc as int));
        page.push(entry);
        let ghost pv = page;
        reg.pages.insert(pc, page);
        proof {
            lemma_concat_insert_after(old_pages, pc, pv, pc as nat);
            assert(page_of(reg.pages@, pc as int) == page_of(old_pages, pc as int).push(entry));
            assert(reg.entries() =~= old(reg).entries().push(entry));
        }
    }
    Ok(())
}

/// Succeeds exactly when `caller` is the global admin.
fn require_global_admin(store: &GrantStore, caller: u64) -> (r: Result<(), ContractError>)
    ensures
        r is Ok <==> store.global_admin == Some(caller),
        r is Err ==> r == Err::<(), ContractError>(ContractError::Unauthorized),
{
    match store.global_admin {
        Some(a) => if a == caller {
            Ok(())
        } else {
            Err(ContractError::Unauthorized)
        },
        None => Err(ContractError::Unauthorized),
    }
}

/// Put the given account on the approved evaluator allowlist (a no-op when already
/// there); only the global admin may.
///
/// Fails with `Unauthorized`, changing nothing, for any other caller.
pub fn approve_reviewer(reg: &mut Registry, store: &GrantStore, admin: u64, reviewer: u64) -> (r: Result<(), ContractError>)
    requires
        old(reg).wf(),
    ensures
        r is Ok <==> store.global_admin == Some(admin),
        r is Err ==> r == Err::<(), ContractError>(ContractError::Unauthorized),
        final(reg).wf(),
        final(reg).entries() == old(reg).entries(),
        final(reg).page_count == old(reg).page_count,
        r is Err || old(reg).approved(reviewer) ==> final(reg).reviewer_allowlist@ == old(reg).reviewer_allowlist@,
        r is Ok && !old(reg).approved(reviewer) ==> final(reg).reviewer_allowlist@ == old(reg).reviewer_allowlist@.push(reviewer),
        forall|who: u64| #[trigger] final(reg).approved(who) == (old(reg).approved(who) || (r is Ok && who == reviewer)),
{
    require_global_admin(store, admin)?;
    if crate::bytes::contains_account(&reg.reviewer_allowlist, reviewer) {
        return Ok(());
    }
    reg.reviewer_allowlist.push(reviewer);
    proof {
        assert forall|who: u64| #[trigger] reg.approved(who) == (old(reg).approved(who) || who == reviewer) by {
            if reg.approved(who) && who != reviewer {
                let i = choose|i: int| 0 <= i < reg.reviewer_allowlist@.len() && reg.reviewer_allowlist@[i] == who;
                assert(old(reg).reviewer_allowlist@[i] == who);
            }
            if old(reg).approved(who) {
                let i = choose|i: int| 0 <= i < old(reg).reviewer_allowlist@.len() && old(reg).reviewer_allowlist@[i] == who;
                assert(reg.reviewer_allowlist@[i] == who);
            }
            assert(reg.reviewer_allowlist@[reg.reviewer_allowlist@.len() - 1] == reviewer);
        }
    }
    Ok(())
}

/// What `without` keeps: every element other than `x`.
pub proof fn lemma_without_contains(s: Seq<u64>, x: u64, y: u64)
    ensures
        without(s, x).contains(y) <==> (s.contains(y) && y != x),
    decreases s.len(),
{
    if s.len() > 0 {
        lemma_without_contains(s.drop_last(), x, y);
        let rest = without(s.drop_last(), x);
        if s.contains(y) && y != x {
            let i = choose|i: int| 0 <= i < s.len() && s[i] == y;
            if i < s.len() - 1 {
                assert(s.drop_last()[i] == y);
            }
        }
        if s.drop_last().contains(y) {
            let i = choose|i: int| 0 <= i < s.drop_last().len() && s.drop_last()[i] == y;
            assert(s[i] == y);
        }
        if s.last() != x {
            if rest.push(s.last()).contains(y) {
                let i = choose|i: int| 0 <= i < rest.push(s.last()).len() && rest.push(s.last())[i] == y;
                if i < rest.len() {
                    assert(rest[i] == y);
                }
            }
            if rest.contains(y) {
                let i = choose|i: int| 0 <= i < rest.len() && rest[i] == y;
                assert(rest.push(s.last())[i] == y);
            }
            assert(rest.push(s.last())[rest.len() as int] == s.last());
        }
    }
}

/// Leaving out an element keeps a list free of duplicates.
proof fn lemma_without_no_duplicates(s: Seq<u64>, x: u64)
    requires
        s.no_duplicates(),
    ensures
        without(s, x).no_duplicates(),
    decreases s.len(),
{
    if s.len() > 0 {
        let d = s.drop_last();
        assert(d.no_duplicates()) by {
            assert forall|i: int, j: int| 0 <= i < d.len() && 0 <= j < d.len() && i != j implies d[i] != d[j] by {
                assert(d[i] == s[i] && d[j] == s[j]);
            }
        }
        lemma_without_no_duplicates(d, x);
        let rest = without(d, x);
        if s.last() != x {
            lemma_without_contains(d, x, s.last());
            assert(!d.contains(s.last())) by {
                if d.contains(s.last()) {
                    let i = choose|i: int| 0 <= i < d.len() && d[i] == s.last();
                    assert(s[i] == s[s.len() - 1]);
                }
            }
            let p = rest.push(s.last());
            assert forall|i: int, j: int| 0 <= i < p.len() && 0 <= j < p.len() && i != j implies p[i] != p[j] by {
                if i == rest.len() && j < rest.len() {
                    assert(rest.contains(p[j]));
                } else if j == rest.len() && i < rest.len() {
                    assert(rest.contains(p[i]));
                }
            }
        }
    }
}

/// Take the given account off the approved evaluator allowlist; only the global
/// admin may.
///
/// Fails with `Unauthorized` for any other caller, and with `InvalidInput`
/// when the account is not on the list; on failure nothing changes.
pub fn revoke_reviewer(reg: &mut Registry, store: &GrantStore, admin: u64, reviewer: u64) -> (r: Result<(), ContractError>)
    requires
        old(reg).wf(),
    ensures
        store.global_admin != Some(admin) ==> r == Err::<(), ContractError>(ContractError::Unauthorized),
        store.global_admin == Some(admin) && !old(reg).approved(reviewer) ==> r == Err::<(), ContractError>(ContractError::InvalidInput),
        r is Ok <==> store.global_admin == Some(admin) && old(reg).approved(reviewer),
        final(reg).wf(),
        final(reg).entries() == old(reg).entries(),
        final(reg).page_count == old(reg).page_count,
        r is Err ==> final(reg).reviewer_allowlist@ == old(reg).reviewer_allowlist@,
        r is Ok ==> final(reg).reviewer_allowlist@ == without(old(reg).reviewer_allowlist@, reviewer),
        forall|who: u64| #[trigger] final(reg).approved(who) == (old(reg).approved(who) && !(r is Ok && who == reviewer)),
{
    require_global_admin(store, admin)?;
    let ghost old_list = reg.reviewer_allowlist@;
    let mut new_list: Vec<u64> = Vec::new();
    let mut found = false;
    let mut i: usize = 0;
    while i < reg.reviewer_allowlist.len()
        invariant
            i <= reg.reviewer_allowlist.len(),
            reg.reviewer_allowlist@ == old_list,
            new_list@ == without(old_list.subrange(0, i as int), reviewer),
            found == old_list.subrange(0, i as int).contains(reviewer),
        decreases reg.reviewer_allowlist.len() - i,
    {
        let a = reg.reviewer_allowlist[i];
        proof {
            let s = old_list.subrange(0, i as int + 1);
            assert(s.drop_last() =~= old_list.subrange(0, i as int));
            assert(s.last() == a);
            if s.contains(reviewer) && !old_list.subrange(0, i as int).contains(reviewer) {
                let j = choose|j: int| 0 <= j < s.len() && s[j] == reviewer;
                if j < i {
                    assert(old_list.subrange(0, i as int)[j] == reviewer);
                }
            }
            if old_list.subrange(0, i as int).contains(reviewer) {
                let j = choose|j: int| 0 <= j < i && old_list.subrange(0, i as int)[j] == reviewer;
                assert(s[j] == reviewer);
            }
            assert(s[i as int] == a);
        }
        if a == reviewer {
            found = true;
        } else {
            new_list.push(a);
        }
        i = i + 1;
    }
    assert(old_list.subrange(0, old_list.len() as int) =~= old_list);
    if !found {
        return Err(ContractError::InvalidInput);
    }
    reg.reviewer_allowlist = new_list;
    proof {
        lemma_without_no_duplicates(old_list, reviewer);
        assert forall|who: u64| #[trigger] reg.approved(who) == (old(reg).approved(who) && who != reviewer) by {
            lemma_without_contains(old_list, reviewer, who);
        }
    }
    Ok(())
}

/// Whether `address` is on the approved evaluator allowlist.
pub fn is_approved_reviewer(reg: &Registry, address: u64) -> (r: bool)
    ensures
        r == reg.approved(address),
{
    crate::bytes::contains_account(&reg.reviewer_allowlist, address)
}

/// Every registered entry, flattened from the pages in order.
fn all_entries(reg: &Registry) -> (r: Vec<RegistryEntry>)
    ensures
        r@ == reg.entries(),
{
    let mut out: Vec<RegistryEntry> = Vec::new();
    let mut p: u64 = 0;
    let n: u64 = reg.page_count as u64 + 1;
    while p < n
        invariant
            p <= n,
            n == reg.page_count as u64 + 1,
            out@ == pages_concat(reg.pages@, p as nat),
        decreases n - p,
    {
        let pg = p as u32;
        let ghost before = out@;
        match reg.pages.get(&pg) {
            Some(page) => {
                let mut j: usize = 0;
                while j < page.len()
                    invariant
                        j <= page.len(),
                        out@ == before + page@.subrange(0, j as int),
                    decreases page.len() - j,
                {
                    out.push(page[j]);
                    assert(page@.subrange(0, j as int + 1) =~= page@.subrange(0, j as int).push(page@[j as int]));
                    assert(out@ =~= before + page@.subrange(0, j as int + 1));
                    j = j + 1;
                }
                assert(page@.subrange(0, page.len() as int) =~= page@);
                assert(page_of(reg.pages@, p as int) == page@);
            },
            None => {
                assert(page_of(reg.pages@, p as int) =~= Seq::<RegistryEntry>::empty());
                assert(out@ =~= before + Seq::<RegistryEntry>::empty());
            },
        }
        p = p + 1;
    }
    out
}

/// The registered entries, skipping the first `offset` and keeping at most
/// `limit`.
pub fn get_contributors_page(reg: &Registry, offset: u32, limit: u32) -> (r: Vec<RegistryEntry>)
    ensures
        r@ == window(reg.entries(), offset as int, limit as int),
{
    let all = all_entries(reg);
    let mut out: Vec<RegistryEntry> = Vec::new();
    let start: usize = offset as usize;
    if start >= all.len() {
        assert(out@ =~= window(reg.entries(), offset as int, limit as int));
        return out;
    }
    let end: usize = if (limit as usize) >= all.len() - start { all.len() } else { start + limit as usize };
    let mut i: usize = start;
    while i < end
        invariant
            start <= i <= end <= all.len(),
            out@ == all@.subrange(start as int, i as int),
        decreases end - i,
    {
        out.push(all[i]);
        assert(all@.subrange(start as int, i as int + 1) =~= all@.subrange(start as int, i as int).push(all@[i as int]));
        i = i + 1;
    }
    assert(out@ =~= window(reg.entries(), offset as int, limit as int));
    out
}

/// `n` capped at `u32::MAX`.
pub open spec fn cap_u32(n: int) -> int {
    if n > u32::MAX { u32::MAX as int } else { n }
}

/// The number of registered entries, saturating at `u32::MAX`.
pub fn contributor_count(reg: &Registry) -> (r: u32)
    ensures
        r == cap_u32(reg.entries().len() as int),
{
    let mut total: u32 = 0;
    let mut p: u64 = 0;
    let n: u64 = reg.page_count as u64 + 1;
    while p < n
        invariant
            p <= n,
            n == reg.page_count as u64 + 1,
            total == cap_u32(pages_concat(reg.pages@, p as nat).len() as int),
        decreases n - p,
    {
        let pg = p as u32;
        let len: usize = match reg.pages.get(&pg) {
            Some(page) => page.len(),
            None => 0,
        };
        assert(len == page_of(reg.pages@, p as int).len());
        total = if len >= (u32::MAX - total) as usize { u32::MAX } else { total + len as u32 };
        p = p + 1;
    }
    total
}

} // verus!
