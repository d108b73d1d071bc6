use vstd::prelude::*;
use std::collections::HashMap;
use crate::errors::ContractError;
use crate::store::GrantStore;

verus! {

broadcast use vstd::std_specs::hash::group_hash_axioms;

/// How a grant's waitlist is run.
#[derive(Clone, Copy, Debug, PartialEq, Eq, Structural)]
pub struct WaitlistConfig {
    pub grant_id: u64,
    pub max_slots: u32,
    pub max_waitlist_size: u32,
    pub rank_by_reputation: bool,
    pub auto_promote: bool,
}

/// One applicant's place on a waitlist.
#[derive(Clone, Copy, Debug, PartialEq, Eq, Structural)]
pub struct WaitlistEntry {
    pub applicant: u64,
    pub grant_id: u64,
    pub joined_at: u64,
    pub reputation_snapshot: u32,
    /// 1-based place in the list.
    pub position: u32,
    pub promoted: bool,
    pub promoted_at: Option<u64>,
}

/// How many waitlists one applicant may join within one window.
pub const RATE_LIMIT_WAITLIST_JOIN_MAX: u32 = 5;

/// The length of a join window, in seconds.
pub const RATE_LIMIT_WINDOW_SECS: u64 = 3600;

/// The joins an applicant has made in its current window.
#[derive(Clone, Copy, Debug, PartialEq, Eq, Structural)]
pub struct JoinWindow {
    /// When the window opened.
    pub window_start: u64,
    /// Joins counted since then.
    pub count: u32,
}

/// The waitlists of all grants.
pub struct WaitlistStore {
    pub configs: HashMap<u64, WaitlistConfig>,
    pub entries: HashMap<u64, Vec<WaitlistEntry>>,
    /// Each applicant's join window, by applicant.
    pub join_windows: HashMap<u64, JoinWindow>,
}

impl WaitlistStore {
    /// The waitlist of grant `g`, best placed first (empty when none).
    pub open spec fn entries_of(&self, g: u64) -> Seq<WaitlistEntry> {
        if self.entries@.contains_key(g) {
            self.entries@[g]@
        } else {
            Seq::empty()
        }
    }

    /// The join window of `applicant`, if it has one.
    pub open spec fn join_window_of(&self, applicant: u64) -> Option<JoinWindow> {
        if self.join_windows@.contains_key(applicant) {
            Some(self.join_windows@[applicant])
        } else {
            None
        }
    }

    /// The waitlist configuration of grant `g`, if any.
    pub open spec fn config_of(&self, g: u64) -> Option<WaitlistConfig> {
        if self.configs@.contains_key(g) {
            Some(self.configs@[g])
        } else {
            None
        }
    }

    /// An empty store.
    pub fn new() -> (s: Self)
        ensures
            s.configs@ == Map::<u64, WaitlistConfig>::empty(),
            s.entries@ == Map::<u64, Vec<WaitlistEntry>>::empty(),
            s.join_windows@ == Map::<u64, JoinWindow>::empty(),
    {
        WaitlistStore { configs: HashMap::new(), entries: HashMap::new(), join_windows: HashMap::new() }
    }
}

/// Whether a window opened at `start` has run out at time `now`.
pub open spec fn window_expired(start: u64, now: u64) -> bool {
    now as int - start as int >= RATE_LIMIT_WINDOW_SECS as int
}

/// The window that an applicant whose window was `w` would have after one
/// more join at time `now`: a fresh window when there was none or it ran out.
pub open spec fn next_join_window(w: Option<JoinWindow>, now: u64) -> JoinWindow {
    match w {
        Some(w) if !window_expired(w.window_start, now) => JoinWindow { window_start: w.window_start, count: (w.count + 1) as u32 },
        _ => JoinWindow { window_start: now, count: 1 },
    }
}

/// Whether an applicant whose window is `w` has used up its joins at time
/// `now`.
pub open spec fn join_limited(w: Option<JoinWindow>, now: u64) -> bool {
    match w {
        Some(w) => !window_expired(w.window_start, now) && w.count >= RATE_LIMIT_WAITLIST_JOIN_MAX,
        None => false,
    }
}

/// No applicant's window ever counts more than `RATE_LIMIT_WAITLIST_JOIN_MAX`
/// joins: a join that the limit lets through keeps the count within it, and
/// counts from the window's start while the window lasts.
pub proof fn lemma_join_count_bounded(w: Option<JoinWindow>, now: u64)
    requires
        w is Some ==> w->Some_0.count <= RATE_LIMIT_WAITLIST_JOIN_MAX,
        !join_limited(w, now),
    ensures
        1 <= next_join_window(w, now).count <= RATE_LIMIT_WAITLIST_JOIN_MAX,
        w is Some && !window_expired(w->Some_0.window_start, now) ==>
            next_join_window(w, now) == (JoinWindow { window_start: w->Some_0.window_start, count: (w->Some_0.count + 1) as u32 }),
{
}

/// Whether the account is the contract's admin, which no rate limit holds.
pub open spec fn rate_exempt(store: GrantStore, account: u64) -> bool {
    store.global_admin == Some(account)
}

/// The window of `applicant` after one more join at time `now`, or
/// `RateLimitExceeded` when it has used up its joins. Nothing is recorded.
fn check_join_rate(ws: &WaitlistStore, applicant: u64, now: u64) -> (r: Result<JoinWindow, ContractError>)
    ensures
        join_limited(ws.join_window_of(applicant), now) ==> r == Err::<JoinWindow, ContractError>(ContractError::RateLimitExceeded),
        !join_limited(ws.join_window_of(applicant), now) ==> r == Ok::<JoinWindow, ContractError>(next_join_window(ws.join_window_of(applicant), now)),
{
    match ws.join_windows.get(&applicant) {
        Some(w) => {
            let expired = now >= w.window_start && now - w.window_start >= RATE_LIMIT_WINDOW_SECS;
            if expired {
                Ok(JoinWindow { window_start: now, count: 1 })
            } else if w.count >= RATE_LIMIT_WAITLIST_JOIN_MAX {
                Err(ContractError::RateLimitExceeded)
            } else {
                Ok(JoinWindow { window_start: w.window_start, count: w.count + 1 })
            }
        },
        None => Ok(JoinWindow { window_start: now, count: 1 }),
    }
}

/// Every entry's position is its 1-based place in the list.
pub open spec fn positions_consistent(entries: Seq<WaitlistEntry>) -> bool {
    forall|i: int| 0 <= i < entries.len() ==> (#[trigger] entries[i]).position == i + 1
}

/// No applicant appears twice.
pub open spec fn applicants_distinct(entries: Seq<WaitlistEntry>) -> bool {
    forall|i: int, j: int| 0 <= i < j < entries.len() ==> (#[trigger] entries[i]).applicant != (#[trigger] entries[j]).applicant
}

/// Entries are ordered by reputation, highest first.
pub open spec fn ranked(entries: Seq<WaitlistEntry>) -> bool {
    forall|i: int, j: int| 0 <= i < j < entries.len() ==>
        (#[trigger] entries[i]).reputation_snapshot >= (#[trigger] entries[j]).reputation_snapshot
}

/// Whether `who` is on the list.
pub open spec fn on_list(entries: Seq<WaitlistEntry>, who: u64) -> bool {
    exists|i: int| 0 <= i < entries.len() && (#[trigger] entries[i]).applicant == who
}

/// Where a newcomer with reputation `rep` is placed in a ranked list,
/// searching from `i`: before the first entry with a lower reputation.
pub open spec fn insert_index(entries: Seq<WaitlistEntry>, rep: u32, i: int) -> int
    decreases entries.len() - i,
{
    if i >= entries.len() {
        entries.len() as int
    } else if rep > entries[i].reputation_snapshot {
        i
    } else {
        insert_index(entries, rep, i + 1)
    }
}

proof fn lemma_insert_index(entries: Seq<WaitlistEntry>, rep: u32, i: int)
    requires
        0 <= i <= entries.len(),
    ensures
        i <= insert_index(entries, rep, i) <= entries.len(),
        forall|j: int| i <= j < insert_index(entries, rep, i) ==> rep <= (#[trigger] entries[j]).reputation_snapshot,
        insert_index(entries, rep, i) < entries.len() ==> rep > entries[insert_index(entries, rep, i)].reputation_snapshot,
    decreases entries.len() - i,
{
    if i < entries.len() && !(rep > entries[i].reputation_snapshot) {
        lemma_insert_index(entries, rep, i + 1);
    }
}

/// `e` with its position set to `p`.
pub open spec fn at_position(e: WaitlistEntry, p: int) -> WaitlistEntry {
    WaitlistEntry { position: p as u32, ..e }
}

/// `entries` from index `from` on, each renumbered to its place.
pub open spec fn renumbered(entries: Seq<WaitlistEntry>, from: int) -> Seq<WaitlistEntry> {
    Seq::new(entries.len(), |i: int| if i >= from { at_position(entries[i], i + 1) } else { entries[i] })
}

/// Renumber `v[from..]` to their places.
fn renumber_from(v: &mut Vec<WaitlistEntry>, from: usize)
    requires
        old(v).len() <= u32::MAX,
    ensures
        final(v)@ == renumbered(old(v)@, from as int),
{
    let ghost orig = v@;
    let mut i = from;
    while i < v.len()
        invariant
            v.len() == orig.len(),
            orig.len() <= u32::MAX,
            from <= i || i == from,
            forall|j: int| 0 <= j < v.len() ==> #[trigger] v@[j] == (if from <= j < i { at_position(orig[j], j + 1) } else { orig[j] }),
        decreases v.len() - i,
    {
        let mut e = v[i];
        e.position = (i + 1) as u32;
        v.set(i, e);
        i = i + 1;
    }
    assert(v@ =~= renumbered(orig, from as int));
}

/// Configure the waitlist of a grant. Owner only: fails with
/// `GrantNotFound` or `Unauthorized`.
pub fn configure(store: &GrantStore, ws: &mut WaitlistStore, owner: u64, grant_id: u64, config: WaitlistConfig) -> (r: Result<(), ContractError>)
    ensures
        store.grant(grant_id) is None ==> r == Err::<(), ContractError>(ContractError::GrantNotFound),
        store.grant(grant_id) is Some && store.grant(grant_id)->Some_0.owner != owner ==> r == Err::<(), ContractError>(ContractError::Unauthorized),
        store.grant(grant_id) is Some && store.grant(grant_id)->Some_0.owner == owner ==> r is Ok,
        r is Ok ==> final(ws).configs@ == old(ws).configs@.insert(grant_id, config),
        r is Err ==> final(ws).configs@ == old(ws).configs@,
        final(ws).entries@ == old(ws).entries@,
        final(ws).join_windows@ == old(ws).join_windows@,
{
    let grant = match store.get_grant(grant_id) {
        Some(g) => g,
        None => {
            return Err(ContractError::GrantNotFound);
        },
    };
    if grant.owner != owner {
        return Err(ContractError::Unauthorized);
    }
    ws.configs.insert(grant_id, config);
    Ok(())
}

/// The entry of a newcomer.
pub open spec fn new_entry(applicant: u64, grant_id: u64, now: u64, rep: u32, position: int) -> WaitlistEntry {
    WaitlistEntry {
        applicant,
        grant_id,
        joined_at: now,
        reputation_snapshot: rep,
        position: position as u32,
        promoted: false,
        promoted_at: None,
    }
}

/// Join the waitlist of a grant; returns the applicant's 1-based position.
///
/// An applicant other than the admin may join at most
/// `RATE_LIMIT_WAITLIST_JOIN_MAX` waitlists per window of
/// `RATE_LIMIT_WINDOW_SECS` seconds; each successful join counts.
///
/// Fails with `RateLimitExceeded`, `InvalidInput` (no waitlist configured), `AlreadyOnWaitlist`,
/// `WaitlistFull` or `ContributorNotFound` (no profile), in that order. The
/// applicant's reputation is recorded (as 32 bits). On a ranked list the
/// applicant goes before the first entry with a lower reputation and the
/// entries after are renumbered; otherwise at the end.
pub fn join(store: &GrantStore, ws: &mut WaitlistStore, applicant: u64, grant_id: u64, now: u64) -> (r: Result<u32, ContractError>)
    ensures
        final(ws).configs@ == old(ws).configs@,
        ({
            let entries = old(ws).entries_of(grant_id);
            let cfg = old(ws).config_of(grant_id);
            if !rate_exempt(*store, applicant) && join_limited(old(ws).join_window_of(applicant), now) {
                r == Err::<u32, ContractError>(ContractError::RateLimitExceeded)
            } else if cfg is None {
                r == Err::<u32, ContractError>(ContractError::InvalidInput)
            } else if on_list(entries, applicant) {
                r == Err::<u32, ContractError>(ContractError::AlreadyOnWaitlist)
            } else if entries.len() >= cfg->Some_0.max_waitlist_size {
                r == Err::<u32, ContractError>(ContractError::WaitlistFull)
            } else if store.contributor(applicant) is None {
                r == Err::<u32, ContractError>(ContractError::ContributorNotFound)
            } else {
                let rep = store.contributor(applicant)->Some_0.reputation_score as u32;
                let after = final(ws).entries_of(grant_id);
                if cfg->Some_0.rank_by_reputation {
                    let idx = insert_index(entries, rep, 0);
                    &&& r == Ok::<u32, ContractError>((idx + 1) as u32)
                    &&& after == renumbered(entries.insert(idx, new_entry(applicant, grant_id, now, rep, idx + 1)), idx + 1)
                } else {
                    &&& r == Ok::<u32, ContractError>((entries.len() + 1) as u32)
                    &&& after == entries.push(new_entry(applicant, grant_id, now, rep, entries.len() + 1int))
                }
            }
        }),
        r is Err ==> final(ws).entries@ == old(ws).entries@,
        r is Err || rate_exempt(*store, applicant) ==> final(ws).join_windows@ == old(ws).join_windows@,
        r is Ok && !rate_exempt(*store, applicant) ==> final(ws).join_windows@
            == old(ws).join_windows@.insert(applicant, next_join_window(old(ws).join_window_of(applicant), now)),
        r is Ok ==> final(ws).entries@ == old(ws).entries@.insert(grant_id, final(ws).entries@[grant_id]),
        r is Ok ==> final(ws).entries@.contains_key(grant_id),
        // What every join keeps.
        r is Ok && positions_consistent(old(ws).entries_of(grant_id)) ==> positions_consistent(final(ws).entries_of(grant_id)),
        r is Ok && applicants_distinct(old(ws).entries_of(grant_id)) ==> applicants_distinct(final(ws).entries_of(grant_id)),
        r is Ok && old(ws).config_of(grant_id)->Some_0.rank_by_reputation && ranked(old(ws).entries_of(grant_id)) ==>
            ranked(final(ws).entries_of(grant_id)),
        r is Ok ==> on_list(final(ws).entries_of(grant_id), applicant),
{
    let exempt = match store.global_admin {
        Some(admin) => admin == applicant,
        None => false,
    };
    let window = if exempt {
        None
    } else {
        match check_join_rate(ws, applicant, now) {
            Ok(w) => Some(w),
            Err(e) => {
                return Err(e);
            },
        }
    };
    let position = enter_list(store, ws, applicant, grant_id, now)?;
    match window {
        Some(w) => {
            ws.join_windows.insert(applicant, w);
        },
        None => {},
    }
    Ok(position)
}

/// Put the applicant on a grant's waitlist, with no rate limit.
#[verifier::loop_isolation(false)]
fn enter_list(store: &GrantStore, ws: &mut WaitlistStore, applicant: u64, grant_id: u64, now: u64) -> (r: Result<u32, ContractError>)
    ensures
        final(ws).configs@ == old(ws).configs@,
        ({
            let entries = old(ws).entries_of(grant_id);
            let cfg = old(ws).config_of(grant_id);
            if cfg is None {
                r == Err::<u32, ContractError>(ContractError::InvalidInput)
            } else if on_list(entries, applicant) {
                r == Err::<u32, ContractError>(ContractError::AlreadyOnWaitlist)
            } else if entries.len() >= cfg->Some_0.max_waitlist_size {
                r == Err::<u32, ContractError>(ContractError::WaitlistFull)
            } else if store.contributor(applicant) is None {
                r == Err::<u32, ContractError>(ContractError::ContributorNotFound)
            } else {
                let rep = store.contributor(applicant)->Some_0.reputation_score as u32;
                let after = final(ws).entries_of(grant_id);
                if cfg->Some_0.rank_by_reputation {
                    let idx = insert_index(entries, rep, 0);
                    &&& r == Ok::<u32, ContractError>((idx + 1) as u32)
                    &&& after == renumbered(entries.insert(idx, new_entry(applicant, grant_id, now, rep, idx + 1)), idx + 1)
                } else {
                    &&& r == Ok::<u32, ContractError>((entries.len() + 1) as u32)
                    &&& after == entries.push(new_entry(applicant, grant_id, now, rep, entries.len() + 1int))
                }
            }
        }),
        r is Err ==> final(ws).entries@ == old(ws).entries@,
        final(ws).join_windows@ == old(ws).join_windows@,
        r is Ok ==> final(ws).entries@ == old(ws).entries@.insert(grant_id, final(ws).entries@[grant_id]),
        r is Ok ==> final(ws).entries@.contains_key(grant_id),
        // What every join keeps.
        r is Ok && positions_consistent(old(ws).entries_of(grant_id)) ==> positions_consistent(final(ws).entries_of(grant_id)),
        r is Ok && applicants_distinct(old(ws).entries_of(grant_id)) ==> applicants_distinct(final(ws).entries_of(grant_id)),
        r is Ok && old(ws).config_of(grant_id)->Some_0.rank_by_reputation && ranked(old(ws).entries_of(grant_id)) ==>
            ranked(final(ws).entries_of(grant_id)),
        r is Ok ==> on_list(final(ws).entries_of(grant_id), applicant),
{
    let config = match ws.configs.get(&grant_id) {
        Some(c) => *c,
        None => {
            return Err(ContractError::InvalidInput);
        },
    };
    let mut entries: Vec<WaitlistEntry> = match ws.entries.get(&grant_id) {
        Some(e) => e.clone(),
        None => Vec::new(),
    };
    let ghost old_entries = old(ws).entries_of(grant_id);
    assert(entries@ =~= old_entries);
    let mut i: usize = 0;
    while i < entries.len()
        invariant
            i <= entries.len(),
            entries@ == old_entries,
            forall|j: int| 0 <= j < i ==> (#[trigger] entries@[j]).applicant != applicant,
        decreases entries.len() - i,
    {
        if entries[i].applicant == applicant {
            assert(on_list(old_entries, applicant));
            return Err(ContractError::AlreadyOnWaitlist);
        }
        i = i + 1;
    }
    if entries.len() >= config.max_waitlist_size as usize {
        return Err(ContractError::WaitlistFull);
    }
    let profile = match store.get_contributor(applicant) {
        Some(p) => p,
        None => {
            return Err(ContractError::ContributorNotFound);
        },
    };
    let reputation_snapshot = profile.reputation_score as u32;
    let position;
    if config.rank_by_reputation {
        let mut insert_idx = entries.len();
        let mut k: usize = 0;
        while k < entries.len()
            invariant
                k <= entries.len(),
                entries@ == old_entries,
                insert_index(old_entries, reputation_snapshot, 0) == insert_index(old_entries, reputation_snapshot, k as int),
                insert_idx == entries.len(),
            decreases entries.len() - k,
        {
            if reputation_snapshot > entries[k].reputation_snapshot {
                insert_idx = k;
                break;
            }
            k = k + 1;
        }
        assert(insert_idx as int == insert_index(old_entries, reputation_snapshot, 0));
        proof {
            lemma_insert_index(old_entries, reputation_snapshot, 0);
        }
        let new_entry = WaitlistEntry {
            applicant,
            grant_id,
            joined_at: now,
            reputation_snapshot,
            position: (insert_idx + 1) as u32,
            promoted: false,
            promoted_at: None,
        };
        entries.insert(insert_idx, new_entry);
        position = (insert_idx + 1) as u32;
        renumber_from(&mut entries, insert_idx + 1);
        proof {
            let e = entries@;
            let ins = old_entries.insert(insert_idx as int, new_entry);
            assert(e == renumbered(ins, insert_idx + 1));
            assert(e[insert_idx as int].applicant == applicant);
            if positions_consistent(old_entries) {
                assert forall|j: int| 0 <= j < e.len() implies (#[trigger] e[j]).position == j + 1 by {
                    if j < insert_idx {
                        assert(old_entries[j].position == j + 1);
                    }
                }
            }
            if applicants_distinct(old_entries) {
                assert forall|a: int, b: int| 0 <= a < b < e.len() implies (#[trigger] e[a]).applicant != (#[trigger] e[b]).applicant by {
                    if a != insert_idx && b != insert_idx {
                        let oa = if a < insert_idx { a } else { a - 1 };
                        let ob = if b < insert_idx { b } else { b - 1 };
                        assert(old_entries[oa].applicant != old_entries[ob].applicant);
                    } else if a == insert_idx {
                        assert(old_entries[b - 1].applicant != applicant);
                    } else {
                        assert(old_entries[a].applicant != applicant);
                    }
                }
            }
            if ranked(old_entries) {
                assert forall|a: int, b: int| 0 <= a < b < e.len() implies (#[trigger] e[a]).reputation_snapshot >= (#[trigger] e[b]).reputation_snapshot by {
                    if a != insert_idx && b != insert_idx {
                        let oa = if a < insert_idx { a } else { a - 1 };
                        let ob = if b < insert_idx { b } else { b - 1 };
                        assert(old_entries[oa].reputation_snapshot >= old_entries[ob].reputation_snapshot);
                    } else if a == insert_idx {
                        assert(old_entries[insert_idx as int].reputation_snapshot >= old_entries[b - 1].reputation_snapshot || b - 1 == insert_idx);
                    } else {
                        assert(reputation_snapshot <= old_entries[a].reputation_snapshot);
                    }
                }
            }
        }
    } else {
        let new_entry = WaitlistEntry {
            applicant,
            grant_id,
            joined_at: now,
            reputation_snapshot,
            position: (entries.len() + 1) as u32,
            promoted: false,
            promoted_at: None,
        };
        entries.push(new_entry);
        position = entries.len() as u32;
        proof {
            let e = entries@;
            assert(e[e.len() - 1].applicant == applicant);
            if applicants_distinct(old_entries) {
                assert forall|a: int, b: int| 0 <= a < b < e.len() implies (#[trigger] e[a]).applicant != (#[trigger] e[b]).applicant by {
                    if b == e.len() - 1 {
                        assert(old_entries[a].applicant != applicant);
                    }
                }
            }
        }
    }
    ws.entries.insert(grant_id, entries);
    Ok(position)
}

/// Leave a grant's waitlist; the entries after are renumbered. Fails with
/// `NotOnWaitlist`.
#[verifier::loop_isolation(false)]
pub fn leave(ws: &mut WaitlistStore, applicant: u64, grant_id: u64) -> (r: Result<(), ContractError>)
    requires
        old(ws).entries_of(grant_id).len() <= u32::MAX,
    ensures
        final(ws).configs@ == old(ws).configs@,
        final(ws).join_windows@ == old(ws).join_windows@,
        !on_list(old(ws).entries_of(grant_id), applicant) ==> r == Err::<(), ContractError>(ContractError::NotOnWaitlist),
        on_list(old(ws).entries_of(grant_id), applicant) ==> r is Ok,
        r is Err ==> final(ws).entries@ == old(ws).entries@,
        r is Ok ==> ({
            let entries = old(ws).entries_of(grant_id);
            exists|idx: int| 0 <= idx < entries.len() && (#[trigger] entries[idx]).applicant == applicant
                && (forall|j: int| 0 <= j < idx ==> (#[trigger] entries[j]).applicant != applicant)
                && final(ws).entries_of(grant_id) == renumbered(entries.remove(idx), idx)
        }),
        r is Ok ==> final(ws).entries@ == old(ws).entries@.insert(grant_id, final(ws).entries@[grant_id]),
        r is Ok && positions_consistent(old(ws).entries_of(grant_id)) ==> positions_consistent(final(ws).entries_of(grant_id)),
        r is Ok && applicants_distinct(old(ws).entries_of(grant_id)) ==> applicants_distinct(final(ws).entries_of(grant_id))
            && !on_list(final(ws).entries_of(grant_id), applicant),
        r is Ok && ranked(old(ws).entries_of(grant_id)) ==> ranked(final(ws).entries_of(grant_id)),
{
    let mut entries: Vec<WaitlistEntry> = match ws.entries.get(&grant_id) {
        Some(e) => e.clone(),
        None => Vec::new(),
    };
    let ghost old_entries = old(ws).entries_of(grant_id);
    assert(entries@ =~= old_entries);
    let mut found: Option<usize> = None;
    let mut i: usize = 0;
    while i < entries.len()
        invariant
            i <= entries.len(),
            entries@ == old_entries,
            found is None,
            forall|j: int| 0 <= j < i ==> (#[trigger] entries@[j]).applicant != applicant,
        decreases entries.len() - i,
    {
        if entries[i].applicant == applicant {
            found = Some(i);
            break;
        }
        i = i + 1;
    }
    let idx = match found {
        Some(x) => x,
        None => {
            return Err(ContractError::NotOnWaitlist);
        },
    };
    entries.remove(idx);
    renumber_from(&mut entries, idx);
    proof {
        let e = entries@;
        let rem = old_entries.remove(idx as int);
        assert(e == renumbered(rem, idx as int));
        if positions_consistent(old_entries) {
            assert forall|j: int| 0 <= j < e.len() implies (#[trigger] e[j]).position == j + 1 by {
                if j < idx {
                    assert(old_entries[j].position == j + 1);
                }
            }
        }
        if applicants_distinct(old_entries) {
            assert forall|a: int, b: int| 0 <= a < b < e.len() implies (#[trigger] e[a]).applicant != (#[trigger] e[b]).applicant by {
                let oa = if a < idx { a } else { a + 1 };
                let ob = if b < idx { b } else { b + 1 };
                assert(old_entries[oa].applicant != old_entries[ob].applicant);
            }
            assert forall|j: int| 0 <= j < e.len() implies (#[trigger] e[j]).applicant != applicant by {
                let oj = if j < idx { j } else { j + 1 };
                if oj < idx {
                    assert(old_entries[oj].applicant != applicant);
                } else {
                    assert(old_entries[idx as int].applicant != old_entries[oj].applicant);
                }
            }
        }
        if ranked(old_entries) {
            assert forall|a: int, b: int| 0 <= a < b < e.len() implies (#[trigger] e[a]).reputation_snapshot >= (#[trigger] e[b]).reputation_snapshot by {
                let oa = if a < idx { a } else { a + 1 };
                let ob = if b < idx { b } else { b + 1 };
                assert(old_entries[oa].reputation_snapshot >= old_entries[ob].reputation_snapshot);
            }
        }
    }
    ws.entries.insert(grant_id, entries);
    Ok(())
}

/// Promote the best-placed entry of a grant's waitlist when a slot opens:
/// it leaves the list, the rest are renumbered, and its applicant is
/// returned. `None` when no waitlist is configured, promotion is not
/// automatic, or the list is empty.
pub fn promote_next(ws: &mut WaitlistStore, grant_id: u64) -> (r: Option<u64>)
    requires
        old(ws).entries_of(grant_id).len() <= u32::MAX,
    ensures
        final(ws).configs@ == old(ws).configs@,
        final(ws).join_windows@ == old(ws).join_windows@,
        ({
            let cfg = old(ws).config_of(grant_id);
            let entries = old(ws).entries_of(grant_id);
            if cfg is None || !cfg->Some_0.auto_promote || entries.len() == 0 {
                r is None && final(ws).entries@ == old(ws).entries@
            } else {
                &&& r == Some(entries[0].applicant)
                &&& final(ws).entries@ == old(ws).entries@.insert(grant_id, final(ws).entries@[grant_id])
                &&& final(ws).entries_of(grant_id) == renumbered(entries.remove(0), 0)
            }
        }),
        r is Some ==> positions_consistent(final(ws).entries_of(grant_id)),
        r is Some && ranked(old(ws).entries_of(grant_id)) ==> ranked(final(ws).entries_of(grant_id)),
{
    let config = match ws.configs.get(&grant_id) {
        Some(c) => *c,
        None => {
            return None;
        },
    };
    if !config.auto_promote {
        return None;
    }
    let mut entries: Vec<WaitlistEntry> = match ws.entries.get(&grant_id) {
        Some(e) => e.clone(),
        None => Vec::new(),
    };
    let ghost old_entries = old(ws).entries_of(grant_id);
    assert(entries@ =~= old_entries);
    if entries.len() == 0 {
        return None;
    }
    let promoted = entries.remove(0);
    renumber_from(&mut entries, 0);
    proof {
        let e = entries@;
        if ranked(old_entries) {
            assert forall|a: int, b: int| 0 <= a < b < e.len() implies (#[trigger] e[a]).reputation_snapshot >= (#[trigger] e[b]).reputation_snapshot by {
                assert(old_entries[a + 1].reputation_snapshot >= old_entries[b + 1].reputation_snapshot);
            }
        }
    }
    ws.entries.insert(grant_id, entries);
    Some(promoted.applicant)
}

/// The waitlist of a grant, best placed first.
pub fn get_waitlist(ws: &WaitlistStore, grant_id: u64) -> (r: Vec<WaitlistEntry>)
    ensures
        r@ == ws.entries_of(grant_id),
{
    match ws.entries.get(&grant_id) {
        Some(e) => {
            let r = e.clone();
            assert(r@ =~= e@);
            r
        },
        None => Vec::new(),
    }
}

/// The recorded position of an applicant on a grant's waitlist, if on it.
pub fn position_of(ws: &WaitlistStore, applicant: u64, grant_id: u64) -> (r: Option<u32>)
    ensures
        !on_list(ws.entries_of(grant_id), applicant) ==> r is None,
        on_list(ws.entries_of(grant_id), applicant) ==> exists|i: int|
            0 <= i < ws.entries_of(grant_id).len() && (#[trigger] ws.entries_of(grant_id)[i]).applicant == applicant
            && (forall|j: int| 0 <= j < i ==> (#[trigger] ws.entries_of(grant_id)[j]).applicant != applicant)
            && r == Some(ws.entries_of(grant_id)[i].position),
{
    let entries: &Vec<WaitlistEntry> = match ws.entries.get(&grant_id) {
        Some(e) => e,
        None => {
            return None;
        },
    };
    let mut i: usize = 0;
    while i < entries.len()
        invariant
            i <= entries.len(),
            entries@ == ws.entries_of(grant_id),
            forall|j: int| 0 <= j < i ==> (#[trigger] entries@[j]).applicant != applicant,
        decreases entries.len() - i,
    {
        if entries[i].applicant == applicant {
            return Some(entries[i].position);
        }
        i = i + 1;
    }
    None
}

} // verus!
