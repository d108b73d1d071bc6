use vstd::prelude::*;
use std::collections::HashMap;
use crate::errors::ContractError;
use crate::store::GrantStore;
use crate::types::MilestoneState;

verus! {

broadcast use vstd::std_specs::hash::group_hash_axioms;

/// Milestone `milestone_idx` may only be worked on once the milestones in
/// `depends_on` are approved.
#[derive(Clone, Debug, PartialEq, Eq)]
pub struct MilestoneDependency {
    pub milestone_idx: u32,
    pub depends_on: Vec<u32>,
}

/// The dependency graph attached to a grant's milestones.
#[derive(Clone, Debug, PartialEq, Eq)]
pub struct MilestoneDag {
    pub grant_id: u64,
    pub dependencies: Vec<MilestoneDependency>,
    pub is_valid: bool,
}

/// The dependency graphs of all grants.
pub struct DagStore {
    pub dags: HashMap<u64, MilestoneDag>,
}

impl DagStore {
    /// The graph attached to grant `g`, if any.
    pub open spec fn dag_of(&self, g: u64) -> Option<MilestoneDag> {
        if self.dags@.contains_key(g) {
            Some(self.dags@[g])
        } else {
            None
        }
    }

    /// An empty store.
    pub fn new() -> (s: Self)
        ensures
            s.dags@ == Map::<u64, MilestoneDag>::empty(),
    {
        DagStore { dags: HashMap::new() }
    }
}

/// Whether milestone `idx` of grant `g` is stored and approved.
pub open spec fn approved(store: GrantStore, g: u64, idx: u32) -> bool {
    store.milestone(g, idx) is Some && store.milestone(g, idx)->Some_0.state == MilestoneState::Approved
}

/// Whether a milestone may be submitted: every earlier milestone is
/// approved. Fails with `DependencyNotSatisfied` otherwise.
pub fn can_submit(store: &GrantStore, grant_id: u64, milestone_idx: u32) -> (r: Result<(), ContractError>)
    ensures
        (forall|p: u32| p < milestone_idx ==> #[trigger] approved(*store, grant_id, p)) ==> r is Ok,
        !(forall|p: u32| p < milestone_idx ==> #[trigger] approved(*store, grant_id, p)) ==> r == Err::<(), ContractError>(
            ContractError::DependencyNotSatisfied,
        ),
{
    if milestone_idx == 0 {
        return Ok(());
    }
    let mut prev: u32 = 0;
    while prev < milestone_idx
        invariant
            prev <= milestone_idx,
            forall|p: u32| p < prev ==> #[trigger] approved(*store, grant_id, p),
        decreases milestone_idx - prev,
    {
        match store.get_milestone(grant_id, prev) {
            Some(m) => {
                if m.state != MilestoneState::Approved {
                    assert(!approved(*store, grant_id, prev));
                    return Err(ContractError::DependencyNotSatisfied);
                }
            },
            None => {
                assert(!approved(*store, grant_id, prev));
                return Err(ContractError::DependencyNotSatisfied);
            },
        }
        prev = prev + 1;
    }
    Ok(())
}

/// Whether every dependency names a milestone of the grant and depends only
/// on earlier milestones.
pub open spec fn deps_valid(deps: Seq<MilestoneDependency>, total: u32) -> bool {
    forall|i: int| 0 <= i < deps.len() ==> {
        &&& (#[trigger] deps[i]).milestone_idx < total
        &&& forall|j: int| 0 <= j < deps[i].depends_on@.len() ==> {
            &&& (#[trigger] deps[i].depends_on@[j]) < total
            &&& deps[i].depends_on@[j] < deps[i].milestone_idx
        }
    }
}

/// Attach a dependency graph to a grant. Owner only.
///
/// Fails with `GrantNotFound`, `Unauthorized`, or `InvalidInput` when a
/// dependency names a milestone the grant does not have or depends on a
/// milestone that is not earlier. Such a graph is acyclic
/// (`lemma_valid_deps_acyclic`).
#[verifier::loop_isolation(false)]
pub fn attach_dag(store: &GrantStore, ds: &mut DagStore, owner: u64, grant_id: u64, deps: Vec<MilestoneDependency>) -> (r: Result<(), ContractError>)
    ensures
        ({
            let g = store.grant(grant_id)->Some_0;
            if store.grant(grant_id) is None {
                r == Err::<(), ContractError>(ContractError::GrantNotFound)
            } else if g.owner != owner {
                r == Err::<(), ContractError>(ContractError::Unauthorized)
            } else if !deps_valid(deps@, g.total_milestones) {
                r == Err::<(), ContractError>(ContractError::InvalidInput)
            } else {
                &&& r is Ok
                &&& final(ds).dags@ == old(ds).dags@.insert(grant_id, MilestoneDag { grant_id, dependencies: deps, is_valid: true })
            }
        }),
        r is Err ==> final(ds).dags@ == old(ds).dags@,
        // an attached graph is acyclic: listing its milestones by index orders it
        r is Ok ==> is_topological_order(Seq::new(store.grant(grant_id)->Some_0.total_milestones as nat, |i: int| i as u32),
            deps@, store.grant(grant_id)->Some_0.total_milestones),
{
    let grant = match store.get_grant(grant_id) {
        Some(g) => g,
        None => {
            return Err(ContractError::GrantNotFound);
        },
    };
    if grant.owner != owner {
        return Err(ContractError::Unauthorized);
    }
    let total = grant.total_milestones;
    let mut i: usize = 0;
    while i < deps.len()
        invariant
            i <= deps.len(),
            forall|a: int| 0 <= a < i ==> {
                &&& (#[trigger] deps@[a]).milestone_idx < total
                &&& forall|j: int| 0 <= j < deps@[a].depends_on@.len() ==> {
                    &&& (#[trigger] deps@[a].depends_on@[j]) < total
                    &&& deps@[a].depends_on@[j] < deps@[a].milestone_idx
                }
            },
        decreases deps.len() - i,
    {
        let dep = &deps[i];
        if dep.milestone_idx >= total {
            return Err(ContractError::InvalidInput);
        }
        let mut j: usize = 0;
        while j < dep.depends_on.len()
            invariant
                j <= dep.depends_on.len(),
                dep == deps@[i as int],
                dep.milestone_idx < total,
                forall|b: int| 0 <= b < j ==> {
                    &&& (#[trigger] dep.depends_on@[b]) < total
                    &&& dep.depends_on@[b] < dep.milestone_idx
                },
            decreases dep.depends_on.len() - j,
        {
            let parent = dep.depends_on[j];
            if parent >= total {
                return Err(ContractError::InvalidInput);
            }
            if parent >= dep.milestone_idx {
                return Err(ContractError::InvalidInput);
            }
            j = j + 1;
        }
        i = i + 1;
    }
    assert(deps_valid(deps@, total));
    proof {
        lemma_valid_deps_acyclic(deps@, total);
    }
    let dag = MilestoneDag { grant_id, dependencies: deps, is_valid: true };
    ds.dags.insert(grant_id, dag);
    Ok(())
}

/// The graph attached to a grant, if any.
pub fn get_dag(ds: &DagStore, grant_id: u64) -> (r: Option<&MilestoneDag>)
    ensures
        match r {
            Some(d) => ds.dag_of(grant_id) == Some(*d),
            None => ds.dag_of(grant_id) is None,
        },
{
    ds.dags.get(&grant_id)
}

/// Whether some parent of a dependency is not approved.
pub open spec fn some_parent_unapproved(store: GrantStore, g: u64, parents: Seq<u32>) -> bool {
    exists|j: int| 0 <= j < parents.len() && !approved(store, g, #[trigger] parents[j])
}

/// Whether milestone `idx` is blocked by the graph: a dependency of it has
/// an unapproved parent.
pub open spec fn blocked(store: GrantStore, g: u64, deps: Seq<MilestoneDependency>, idx: u32) -> bool {
    exists|i: int| 0 <= i < deps.len() && (#[trigger] deps[i]).milestone_idx == idx
        && some_parent_unapproved(store, g, deps[i].depends_on@)
}

/// Whether milestone `idx` of grant `g` is open for work: not yet approved
/// and not blocked.
pub open spec fn unblocked(store: GrantStore, ds: DagStore, g: u64, idx: u32) -> bool {
    &&& !approved(store, g, idx)
    &&& !(ds.dag_of(g) is Some && blocked(store, g, ds.dag_of(g)->Some_0.dependencies@, idx))
}

/// The milestones below `n` that are open for work, in order.
pub open spec fn spec_unblocked(store: GrantStore, ds: DagStore, g: u64, n: int) -> Seq<u32>
    decreases n,
{
    if n <= 0 {
        Seq::empty()
    } else if unblocked(store, ds, g, (n - 1) as u32) {
        spec_unblocked(store, ds, g, n - 1).push((n - 1) as u32)
    } else {
        spec_unblocked(store, ds, g, n - 1)
    }
}

/// Whether some parent in the list is not approved.
fn any_parent_unapproved(store: &GrantStore, grant_id: u64, parents: &Vec<u32>) -> (r: bool)
    ensures
        r == some_parent_unapproved(*store, grant_id, parents@),
{
    let mut j: usize = 0;
    while j < parents.len()
        invariant
            j <= parents.len(),
            forall|b: int| 0 <= b < j ==> approved(*store, grant_id, #[trigger] parents@[b]),
        decreases parents.len() - j,
    {
        let ok = match store.get_milestone(grant_id, parents[j]) {
            Some(m) => m.state == MilestoneState::Approved,
            None => false,
        };
        if !ok {
            assert(!approved(*store, grant_id, parents@[j as int]));
            return true;
        }
        j = j + 1;
    }
    false
}

/// Whether the dependencies block milestone `idx`.
fn blocks(store: &GrantStore, grant_id: u64, deps: &Vec<MilestoneDependency>, idx: u32) -> (r: bool)
    ensures
        r == blocked(*store, grant_id, deps@, idx),
{
    let mut i: usize = 0;
    while i < deps.len()
        invariant
            i <= deps.len(),
            forall|a: int| 0 <= a < i ==> !((#[trigger] deps@[a]).milestone_idx == idx
                && some_parent_unapproved(*store, grant_id, deps@[a].depends_on@)),
        decreases deps.len() - i,
    {
        let dep = &deps[i];
        if dep.milestone_idx == idx && any_parent_unapproved(store, grant_id, &dep.depends_on) {
            return true;
        }
        i = i + 1;
    }
    false
}

/// Whether a list of milestone indices holds `idx`.
fn contains_index(list: &Vec<u32>, idx: u32) -> (r: bool)
    ensures
        r == list@.contains(idx),
{
    let mut j: usize = 0;
    while j < list.len()
        invariant
            j <= list.len(),
            forall|b: int| 0 <= b < j ==> list@[b] != idx,
        decreases list.len() - j,
    {
        if list[j] == idx {
            assert(list@[j as int] == idx);
            return true;
        }
        j = j + 1;
    }
    false
}

/// The milestones of a grant whose dependencies are all satisfied and which
/// are not yet approved, in order. Empty for a missing grant.
pub fn unblocked_milestones(store: &GrantStore, ds: &DagStore, grant_id: u64) -> (r: Vec<u32>)
    ensures
        store.grant(grant_id) is None ==> r@.len() == 0,
        store.grant(grant_id) is Some ==> r@ == spec_unblocked(*store, *ds, grant_id,
            store.grant(grant_id)->Some_0.total_milestones as int),
{
    let total = match store.get_grant(grant_id) {
        Some(g) => g.total_milestones,
        None => {
            return Vec::new();
        },
    };
    let dag = get_dag(ds, grant_id);
    let mut result: Vec<u32> = Vec::new();
    let mut idx: u32 = 0;
    while idx < total
        invariant
            idx <= total,
            total == store.grant(grant_id)->Some_0.total_milestones,
            match dag {
                Some(d) => ds.dag_of(grant_id) == Some(*d),
                None => ds.dag_of(grant_id) is None,
            },
            result@ == spec_unblocked(*store, *ds, grant_id, idx as int),
        decreases total - idx,
    {
        let is_approved = match store.get_milestone(grant_id, idx) {
            Some(m) => m.state == MilestoneState::Approved,
            None => false,
        };
        if is_approved {
            idx = idx + 1;
            continue;
        }
        let is_blocked = match dag {
            Some(d) => blocks(store, grant_id, &d.dependencies, idx),
            None => false,
        };
        if !is_blocked {
            result.push(idx);
        }
        idx = idx + 1;
    }
    result
}

/// The milestones among the first `n` dependencies that depend on `idx`.
pub open spec fn spec_dependents(deps: Seq<MilestoneDependency>, idx: u32, n: int) -> Seq<u32>
    decreases n,
{
    if n <= 0 {
        Seq::empty()
    } else if deps[n - 1].depends_on@.contains(idx) {
        spec_dependents(deps, idx, n - 1).push(deps[n - 1].milestone_idx)
    } else {
        spec_dependents(deps, idx, n - 1)
    }
}

/// A milestone is among the dependents of `idx` exactly when some
/// dependency of it lists `idx` among its parents, at any position.
pub proof fn lemma_dependents_listed(deps: Seq<MilestoneDependency>, idx: u32, x: u32)
    ensures
        spec_dependents(deps, idx, deps.len() as int).contains(x) <==> exists|i: int, j: int|
            0 <= i < deps.len() && 0 <= j < deps[i].depends_on@.len()
            && #[trigger] deps[i].milestone_idx == x && #[trigger] deps[i].depends_on@[j] == idx,
{
    lemma_dependents_prefix(deps, idx, x, deps.len() as int);
}

proof fn lemma_dependents_prefix(deps: Seq<MilestoneDependency>, idx: u32, x: u32, n: int)
    requires
        0 <= n <= deps.len(),
    ensures
        spec_dependents(deps, idx, n).contains(x) <==> exists|i: int, j: int|
            0 <= i < n && 0 <= j < deps[i].depends_on@.len()
            && #[trigger] deps[i].milestone_idx == x && #[trigger] deps[i].depends_on@[j] == idx,
    decreases n,
{
    if n > 0 {
        lemma_dependents_prefix(deps, idx, x, n - 1);
        let prev = spec_dependents(deps, idx, n - 1);
        let cur = spec_dependents(deps, idx, n);
        let d = deps[n - 1];
        if cur.contains(x) {
            if d.depends_on@.contains(idx) && d.milestone_idx == x {
                let j = choose|j: int| 0 <= j < d.depends_on@.len() && d.depends_on@[j] == idx;
                assert(deps[n - 1].milestone_idx == x && deps[n - 1].depends_on@[j] == idx);
            } else {
                let k = choose|k: int| 0 <= k < cur.len() && cur[k] == x;
                if d.depends_on@.contains(idx) {
                    assert(k < prev.len());
                    assert(prev[k] == x);
                }
                assert(prev.contains(x));
            }
        }
        if exists|i: int, j: int| 0 <= i < n && 0 <= j < deps[i].depends_on@.len()
            && #[trigger] deps[i].milestone_idx == x && #[trigger] deps[i].depends_on@[j] == idx {
            let (i, j) = choose|i: int, j: int| 0 <= i < n && 0 <= j < deps[i].depends_on@.len()
                && #[trigger] deps[i].milestone_idx == x && #[trigger] deps[i].depends_on@[j] == idx;
            if i == n - 1 {
                assert(d.depends_on@.contains(idx));
                assert(cur[cur.len() - 1] == x);
            } else {
                assert(prev.contains(x));
                let k = choose|k: int| 0 <= k < prev.len() && prev[k] == x;
                assert(cur[k] == x);
            }
        }
    }
}

/// The milestones that directly depend on milestone `idx`, one per
/// dependency naming it, in the graph's order. Empty without a graph.
pub fn dependents_of(ds: &DagStore, grant_id: u64, idx: u32) -> (r: Vec<u32>)
    ensures
        ds.dag_of(grant_id) is None ==> r@.len() == 0,
        ds.dag_of(grant_id) is Some ==> r@ == spec_dependents(ds.dag_of(grant_id)->Some_0.dependencies@, idx,
            ds.dag_of(grant_id)->Some_0.dependencies@.len() as int),
{
    let dag = match ds.dags.get(&grant_id) {
        Some(d) => d,
        None => {
            return Vec::new();
        },
    };
    let mut result: Vec<u32> = Vec::new();
    let mut i: usize = 0;
    while i < dag.dependencies.len()
        invariant
            i <= dag.dependencies.len(),
            result@ == spec_dependents(dag.dependencies@, idx, i as int),
        decreases dag.dependencies.len() - i,
    {
        let dep = &dag.dependencies[i];
        let names_it = contains_index(&dep.depends_on, idx);
        if names_it {
            result.push(dep.milestone_idx);
        }
        i = i + 1;
    }
    result
}


// ---------------------------------------------------------------------------
// Topological order
// ---------------------------------------------------------------------------

/// The edges (parent, milestone) that the first `j` parents of `d` give,
/// among milestones below `n`.
pub open spec fn dep_edges(d: MilestoneDependency, n: u32, j: int) -> Seq<(u32, u32)>
    decreases j,
{
    if j <= 0 {
        Seq::empty()
    } else {
        let p = d.depends_on@[j - 1];
        dep_edges(d, n, j - 1) + (if p < n && d.milestone_idx < n { seq![(p, d.milestone_idx)] } else { Seq::empty() })
    }
}

/// The edges that the first `i` dependencies give.
pub open spec fn edges_upto(deps: Seq<MilestoneDependency>, n: u32, i: int) -> Seq<(u32, u32)>
    decreases i,
{
    if i <= 0 {
        Seq::empty()
    } else {
        edges_upto(deps, n, i - 1) + dep_edges(deps[i - 1], n, deps[i - 1].depends_on@.len() as int)
    }
}

/// All edges (parent, milestone) of a dependency list among milestones
/// below `n`, one per listed parent.
pub open spec fn spec_edges(deps: Seq<MilestoneDependency>, n: u32) -> Seq<(u32, u32)> {
    edges_upto(deps, n, deps.len() as int)
}

/// Whether `u` depends on `p`.
pub open spec fn is_edge(deps: Seq<MilestoneDependency>, n: u32, p: u32, u: u32) -> bool {
    spec_edges(deps, n).contains((p, u))
}

/// Whether `o` lists every milestone below `n` exactly once, each after
/// every milestone it depends on.
pub open spec fn is_topological_order(o: Seq<u32>, deps: Seq<MilestoneDependency>, n: u32) -> bool {
    &&& o.len() == n
    &&& o.no_duplicates()
    &&& forall|i: int| 0 <= i < o.len() ==> #[trigger] o[i] < n
    &&& forall|i: int, j: int| 0 <= i < o.len() && 0 <= j < o.len() && is_edge(deps, n, #[trigger] o[j], #[trigger] o[i]) ==> j < i
}

/// The number of edges into `v` whose parent is not in `done`.
pub open spec fn cnt_in(e: Seq<(u32, u32)>, v: u32, done: Set<u32>) -> nat
    decreases e.len(),
{
    if e.len() == 0 {
        0
    } else {
        cnt_in(e.drop_last(), v, done) + (if e.last().1 == v && !done.contains(e.last().0) { 1nat } else { 0nat })
    }
}

/// The milestones that the edges out of `p` lead to, in order.
pub open spec fn targets(e: Seq<(u32, u32)>, p: u32) -> Seq<u32>
    decreases e.len(),
{
    if e.len() == 0 {
        Seq::empty()
    } else if e.last().0 == p {
        targets(e.drop_last(), p).push(e.last().1)
    } else {
        targets(e.drop_last(), p)
    }
}

/// The number of times `v` occurs in `s`.
pub open spec fn occurrences(s: Seq<u32>, v: u32) -> nat
    decreases s.len(),
{
    if s.len() == 0 {
        0
    } else {
        occurrences(s.drop_last(), v) + (if s.last() == v { 1nat } else { 0nat })
    }
}

/// The milestones listed in `o`.
pub open spec fn listed(o: Seq<u32>) -> Set<u32> {
    Set::new(|v: u32| o.contains(v))
}

proof fn lemma_cnt_finish(e: Seq<(u32, u32)>, v: u32, done: Set<u32>, x: u32)
    requires
        !done.contains(x),
    ensures
        cnt_in(e, v, done) == cnt_in(e, v, done.insert(x)) + occurrences(targets(e, x), v),
    decreases e.len(),
{
    if e.len() > 0 {
        lemma_cnt_finish(e.drop_last(), v, done, x);
        let t = targets(e.drop_last(), x);
        if e.last().0 == x {
            assert(targets(e, x).drop_last() =~= t);
        }
    }
}

/// An edge into `v` from outside `done` is counted.
proof fn lemma_cnt_zero_sources(e: Seq<(u32, u32)>, v: u32, done: Set<u32>, p: u32)
    requires
        cnt_in(e, v, done) == 0,
        e.contains((p, v)),
    ensures
        done.contains(p),
    decreases e.len(),
{
    let k = choose|k: int| 0 <= k < e.len() && e[k] == (p, v);
    if k < e.len() - 1 {
        assert(e.drop_last()[k] == (p, v));
        lemma_cnt_zero_sources(e.drop_last(), v, done, p);
    }
}

/// A positive count has an edge from outside `done` behind it.
proof fn lemma_cnt_pos_source(e: Seq<(u32, u32)>, v: u32, done: Set<u32>) -> (p: u32)
    requires
        cnt_in(e, v, done) > 0,
    ensures
        e.contains((p, v)),
        !done.contains(p),
    decreases e.len(),
{
    if e.last().1 == v && !done.contains(e.last().0) {
        assert(e[e.len() - 1] == e.last());
        e.last().0
    } else {
        let p = lemma_cnt_pos_source(e.drop_last(), v, done);
        let k = choose|k: int| 0 <= k < e.drop_last().len() && e.drop_last()[k] == (p, v);
        assert(e[k] == (p, v));
        p
    }
}

proof fn lemma_occurrences_take(s: Seq<u32>, k: int, v: u32)
    requires
        0 <= k < s.len(),
    ensures
        occurrences(s.take(k + 1), v) == occurrences(s.take(k), v) + (if s[k] == v { 1nat } else { 0nat }),
        occurrences(s.take(k + 1), v) <= occurrences(s, v),
    decreases s.len() - k,
{
    assert(s.take(k + 1).drop_last() =~= s.take(k));
    if k + 1 < s.len() {
        lemma_occurrences_take(s, k + 1, v);
    } else {
        assert(s.take(k + 1) =~= s);
    }
}

proof fn lemma_cnt_append(a: Seq<(u32, u32)>, b: Seq<(u32, u32)>, v: u32, done: Set<u32>)
    ensures
        cnt_in(a + b, v, done) == cnt_in(a, v, done) + cnt_in(b, v, done),
    decreases b.len(),
{
    if b.len() > 0 {
        assert((a + b).drop_last() =~= a + b.drop_last());
        lemma_cnt_append(a, b.drop_last(), v, done);
    } else {
        assert(a + b =~= a);
    }
}

/// The edges given before parent `j` of dependency `i` lead into `v` no more
/// often than all the edges do.
proof fn lemma_cnt_prefix(deps: Seq<MilestoneDependency>, n: u32, i: int, j: int, v: u32)
    requires
        0 <= i < deps.len(),
        0 <= j <= deps[i].depends_on@.len(),
    ensures
        cnt_in(edges_upto(deps, n, i) + dep_edges(deps[i], n, j), v, Set::empty())
            <= cnt_in(spec_edges(deps, n), v, Set::empty()),
    decreases deps.len() - i, deps[i].depends_on@.len() - j,
{
    let cur = edges_upto(deps, n, i) + dep_edges(deps[i], n, j);
    if j < deps[i].depends_on@.len() {
        lemma_cnt_prefix(deps, n, i, j + 1, v);
        let p = deps[i].depends_on@[j];
        let tail = if p < n && deps[i].milestone_idx < n { seq![(p, deps[i].milestone_idx)] } else { Seq::empty() };
        assert(edges_upto(deps, n, i) + dep_edges(deps[i], n, j + 1) =~= cur + tail);
        lemma_cnt_append(cur, tail, v, Set::empty());
    } else if i + 1 < deps.len() {
        lemma_cnt_prefix(deps, n, i + 1, 0, v);
        assert(edges_upto(deps, n, i + 1) + dep_edges(deps[i + 1], n, 0) =~= cur);
    } else {
        assert(cur == spec_edges(deps, n));
    }
}

proof fn lemma_edges_in_range(deps: Seq<MilestoneDependency>, n: u32, p: u32, u: u32)
    requires
        is_edge(deps, n, p, u),
    ensures
        p < n && u < n,
{
    lemma_edges_upto_in_range(deps, n, deps.len() as int);
}

proof fn lemma_edges_upto_in_range(deps: Seq<MilestoneDependency>, n: u32, i: int)
    requires
        0 <= i <= deps.len(),
    ensures
        forall|k: int| 0 <= k < edges_upto(deps, n, i).len() ==> (#[trigger] edges_upto(deps, n, i)[k]).0 < n
            && edges_upto(deps, n, i)[k].1 < n,
    decreases i,
{
    if i > 0 {
        lemma_edges_upto_in_range(deps, n, i - 1);
        lemma_dep_edges_in_range(deps[i - 1], n, deps[i - 1].depends_on@.len() as int);
        let prev = edges_upto(deps, n, i - 1);
        let tail = dep_edges(deps[i - 1], n, deps[i - 1].depends_on@.len() as int);
        let cur = edges_upto(deps, n, i);
        assert forall|k: int| 0 <= k < cur.len() implies (#[trigger] cur[k]).0 < n && cur[k].1 < n by {
            if k < prev.len() {
                assert(cur[k] == prev[k]);
            } else {
                assert(cur[k] == tail[k - prev.len()]);
            }
        }
    }
}

proof fn lemma_dep_edges_in_range(d: MilestoneDependency, n: u32, j: int)
    requires
        0 <= j <= d.depends_on@.len(),
    ensures
        forall|k: int| 0 <= k < dep_edges(d, n, j).len() ==> (#[trigger] dep_edges(d, n, j)[k]).0 < n
            && dep_edges(d, n, j)[k].1 < n,
    decreases j,
{
    if j > 0 {
        lemma_dep_edges_in_range(d, n, j - 1);
        let prev = dep_edges(d, n, j - 1);
        let cur = dep_edges(d, n, j);
        assert forall|k: int| 0 <= k < cur.len() implies (#[trigger] cur[k]).0 < n && cur[k].1 < n by {
            if k < prev.len() {
                assert(cur[k] == prev[k]);
            }
        }
    }
}

/// A dependency graph that `attach_dag` accepts is acyclic: listing the
/// milestones by index is a topological order of it.
pub proof fn lemma_valid_deps_acyclic(deps: Seq<MilestoneDependency>, total: u32)
    requires
        deps_valid(deps, total),
    ensures
        is_topological_order(Seq::new(total as nat, |i: int| i as u32), deps, total),
{
    let o = Seq::new(total as nat, |i: int| i as u32);
    lemma_edges_upto_forward(deps, total, deps.len() as int);
    let e = spec_edges(deps, total);
    assert forall|i: int, j: int| 0 <= i < o.len() && 0 <= j < o.len() && is_edge(deps, total, #[trigger] o[j], #[trigger] o[i])
        implies j < i by {
        let k = choose|k: int| 0 <= k < e.len() && e[k] == (o[j], o[i]);
        assert(e[k].0 < e[k].1);
    }
    assert(o.no_duplicates());
}

proof fn lemma_edges_upto_forward(deps: Seq<MilestoneDependency>, n: u32, i: int)
    requires
        0 <= i <= deps.len(),
        deps_valid(deps, n),
    ensures
        forall|k: int| 0 <= k < edges_upto(deps, n, i).len() ==>
            (#[trigger] edges_upto(deps, n, i)[k]).0 < edges_upto(deps, n, i)[k].1,
    decreases i,
{
    if i > 0 {
        lemma_edges_upto_forward(deps, n, i - 1);
        let d = deps[i - 1];
        assert forall|k: int| 0 <= k < d.depends_on@.len() implies #[trigger] d.depends_on@[k] < d.milestone_idx by {
            assert(deps[i - 1].depends_on@[k] < deps[i - 1].milestone_idx);
        }
        lemma_dep_edges_forward(d, n, d.depends_on@.len() as int);
        let prev = edges_upto(deps, n, i - 1);
        let tail = dep_edges(d, n, d.depends_on@.len() as int);
        let cur = edges_upto(deps, n, i);
        assert forall|k: int| 0 <= k < cur.len() implies (#[trigger] cur[k]).0 < cur[k].1 by {
            if k < prev.len() {
                assert(cur[k] == prev[k]);
            } else {
                assert(cur[k] == tail[k - prev.len()]);
            }
        }
    }
}

proof fn lemma_dep_edges_forward(d: MilestoneDependency, n: u32, j: int)
    requires
        0 <= j <= d.depends_on@.len(),
        forall|k: int| 0 <= k < d.depends_on@.len() ==> #[trigger] d.depends_on@[k] < d.milestone_idx,
    ensures
        forall|k: int| 0 <= k < dep_edges(d, n, j).len() ==> (#[trigger] dep_edges(d, n, j)[k]).0 < dep_edges(d, n, j)[k].1,
    decreases j,
{
    if j > 0 {
        lemma_dep_edges_forward(d, n, j - 1);
        let prev = dep_edges(d, n, j - 1);
        let cur = dep_edges(d, n, j);
        assert(d.depends_on@[j - 1] < d.milestone_idx);
        assert forall|k: int| 0 <= k < cur.len() implies (#[trigger] cur[k]).0 < cur[k].1 by {
            if k < prev.len() {
                assert(cur[k] == prev[k]);
            }
        }
    }
}

/// A list of distinct numbers below `n` has at most `n` of them, and has `n`
/// exactly when it lists every number below `n`.
proof fn lemma_distinct_below(s: Seq<u32>, n: u32)
    requires
        s.no_duplicates(),
        forall|i: int| 0 <= i < s.len() ==> #[trigger] s[i] < n,
    ensures
        s.len() <= n,
        s.len() == n <==> forall|v: u32| v < n ==> #[trigger] s.contains(v),
{
    let t = Seq::new(s.len(), |i: int| s[i] as int);
    assert(t.no_duplicates());
    t.unique_seq_to_set();
    let ts = t.to_set();
    let range = vstd::set_lib::set_int_range(0, n as int);
    vstd::set_lib::lemma_int_range(0, n as int);
    assert(ts.subset_of(range)) by {
        assert forall|x: int| ts.contains(x) implies range.contains(x) by {
            let k = choose|k: int| 0 <= k < t.len() && t[k] == x;
            assert(s[k] < n);
        }
    }
    vstd::set_lib::lemma_len_subset(ts, range);
    if s.len() == n {
        assert forall|v: u32| v < n implies #[trigger] s.contains(v) by {
            if !s.contains(v) {
                assert(ts.subset_of(range.remove(v as int))) by {
                    assert forall|x: int| ts.contains(x) implies range.remove(v as int).contains(x) by {
                        let k = choose|k: int| 0 <= k < t.len() && t[k] == x;
                        assert(s[k] < n);
                        if x == v as int {
                            assert(s.contains(v));
                        }
                    }
                }
                vstd::set_lib::lemma_len_subset(ts, range.remove(v as int));
            }
        }
    }
    if forall|v: u32| v < n ==> #[trigger] s.contains(v) {
        assert(range.subset_of(ts)) by {
            assert forall|x: int| range.contains(x) implies ts.contains(x) by {
                let v = x as u32;
                assert(s.contains(v));
                let k = choose|k: int| 0 <= k < s.len() && s[k] == v;
                assert(t[k] == x);
            }
        }
        vstd::set_lib::lemma_len_subset(range, ts);
    }
}

/// When every milestone of a non-empty set below `n` depends on another
/// member of the set, no topological order exists.
pub proof fn lemma_cycle_has_no_order(deps: Seq<MilestoneDependency>, n: u32, s: Set<u32>, w: u32)
    requires
        s.contains(w),
        forall|v: u32| #[trigger] s.contains(v) ==> v < n,
        forall|v: u32| #[trigger] s.contains(v) ==> exists|p: u32| s.contains(p) && is_edge(deps, n, p, v),
    ensures
        forall|o: Seq<u32>| !is_topological_order(o, deps, n),
{
    assert forall|o: Seq<u32>| !is_topological_order(o, deps, n) by {
        if is_topological_order(o, deps, n) {
            lemma_distinct_below(o, n);
            lemma_order_avoids(deps, n, s, o, o.len() as int);
            assert(o.contains(w));
            let k = choose|k: int| 0 <= k < o.len() && o[k] == w;
            assert(!s.contains(o[k]));
        }
    }
}

proof fn lemma_order_avoids(deps: Seq<MilestoneDependency>, n: u32, s: Set<u32>, o: Seq<u32>, m: int)
    requires
        is_topological_order(o, deps, n),
        0 <= m <= o.len(),
        forall|v: u32| v < n ==> #[trigger] o.contains(v),
        forall|v: u32| #[trigger] s.contains(v) ==> v < n,
        forall|v: u32| #[trigger] s.contains(v) ==> exists|p: u32| s.contains(p) && is_edge(deps, n, p, v),
    ensures
        forall|i: int| 0 <= i < m ==> !s.contains(#[trigger] o[i]),
    decreases m,
{
    if m > 0 {
        lemma_order_avoids(deps, n, s, o, m - 1);
        let i = m - 1;
        if s.contains(o[i]) {
            let p = choose|p: u32| s.contains(p) && is_edge(deps, n, p, o[i]);
            assert(o.contains(p));
            let j = choose|j: int| 0 <= j < o.len() && o[j] == p;
            assert(j < i);
            assert(!s.contains(o[j]));
        }
    }
}

/// The number of edges into each milestone below `n`.
pub open spec fn initial_degrees(e: Seq<(u32, u32)>, n: u32) -> Seq<u32> {
    Seq::new(n as nat, |v: int| cnt_in(e, v as u32, Set::empty()) as u32)
}

/// The milestones below `i` whose count in `deg` is zero, in increasing order.
pub open spec fn initial_ready(deg: Seq<u32>, i: int) -> Seq<u32>
    decreases i,
{
    if i <= 0 {
        Seq::empty()
    } else {
        initial_ready(deg, i - 1) + (if deg[i - 1] == 0 { seq![(i - 1) as u32] } else { Seq::empty() })
    }
}

/// Take one edge away from each milestone of `next`, in order, pushing each
/// whose count drops to zero onto `ready`; gives the new counts and stack.
pub open spec fn release(deg: Seq<u32>, ready: Seq<u32>, next: Seq<u32>) -> (Seq<u32>, Seq<u32>)
    decreases next.len(),
{
    if next.len() == 0 {
        (deg, ready)
    } else {
        let v = next[0];
        let d: u32 = if deg[v as int] == 0 { 0 } else { (deg[v as int] - 1) as u32 };
        release(deg.update(v as int, d), if d == 0 { ready.push(v) } else { ready }, next.drop_first())
    }
}

/// At most `fuel` steps of the traversal from counts `deg`, stack `ready` and
/// output `order`: each step pops the top of the stack, appends it to the
/// output and releases the milestones that depend on it.
pub open spec fn kahn_from(e: Seq<(u32, u32)>, deg: Seq<u32>, ready: Seq<u32>, order: Seq<u32>, fuel: nat) -> Seq<u32>
    decreases fuel,
{
    if fuel == 0 || ready.len() == 0 {
        order
    } else {
        let node = ready.last();
        let rel = release(deg, ready.drop_last(), targets(e, node));
        kahn_from(e, rel.0, rel.1, order.push(node), (fuel - 1) as nat)
    }
}

/// What the stack-based traversal of the dependencies outputs: it starts
/// from the milestones that depend on nothing, in increasing order, and runs
/// until the stack is empty. It lists every milestone below `n` exactly when
/// the dependencies have no cycle.
pub open spec fn spec_kahn_order(deps: Seq<MilestoneDependency>, n: u32) -> Seq<u32> {
    let e = spec_edges(deps, n);
    let deg = initial_degrees(e, n);
    kahn_from(e, deg, initial_ready(deg, n as int), Seq::empty(), n as nat)
}

/// Order the milestones below `total` so that each comes after the
/// milestones it depends on (parents or milestones at or above `total` are
/// ignored). Ready milestones are taken last-in first-out.
///
/// Returns such an order, listing each milestone once: the one that the
/// stack-based traversal `spec_kahn_order` outputs. Fails with
/// `InvalidInput` exactly when no such order exists (the dependencies have a
/// cycle).
#[verifier::loop_isolation(false)]
pub fn topological_order(deps: &Vec<MilestoneDependency>, total: u32) -> (r: Result<Vec<u32>, ContractError>)
    requires
        forall|v: u32| v < total ==> #[trigger] cnt_in(spec_edges(deps@, total), v, Set::empty()) <= u32::MAX,
    ensures
        match r {
            Ok(o) => o@ == spec_kahn_order(deps@, total) && is_topological_order(o@, deps@, total),
            Err(e) => e == ContractError::InvalidInput && spec_kahn_order(deps@, total).len() != total
                && forall|o: Seq<u32>| !is_topological_order(o, deps@, total),
        },
{
    let n = total;
    let ghost ds = deps@;
    let ghost e = spec_edges(ds, n);
    let mut in_degree: Vec<u32> = Vec::new();
    let mut adj: Vec<Vec<u32>> = Vec::new();
    let mut i: u32 = 0;
    while i < n
        invariant
            i <= n,
            in_degree@.len() == i,
            adj@.len() == i,
            forall|v: int| 0 <= v < i ==> #[trigger] in_degree@[v] == 0,
            forall|v: int| 0 <= v < i ==> (#[trigger] adj@[v])@ == Seq::<u32>::empty(),
        decreases n - i,
    {
        in_degree.push(0u32);
        adj.push(Vec::new());
        i = i + 1;
    }
    assert(edges_upto(ds, n, 0) =~= Seq::<(u32, u32)>::empty());
    let mut di: usize = 0;
    while di < deps.len()
        invariant
            di <= deps.len(),
            in_degree@.len() == n,
            adj@.len() == n,
            forall|v: u32| v < n ==> #[trigger] in_degree@[v as int] == cnt_in(edges_upto(ds, n, di as int), v, Set::empty()),
            forall|p: u32| p < n ==> (#[trigger] adj@[p as int])@ == targets(edges_upto(ds, n, di as int), p),
        decreases deps.len() - di,
    {
        let dep = &deps[di];
        let u = dep.milestone_idx;
        let ghost base = edges_upto(ds, n, di as int);
        assert(dep_edges(*dep, n, 0) =~= Seq::<(u32, u32)>::empty());
        assert(base + dep_edges(*dep, n, 0) =~= base);
        let mut pj: usize = 0;
        while pj < dep.depends_on.len()
            invariant
                pj <= dep.depends_on.len(),
                *dep == ds[di as int],
                in_degree@.len() == n,
                adj@.len() == n,
                forall|v: u32| v < n ==> #[trigger] in_degree@[v as int] == cnt_in(base + dep_edges(*dep, n, pj as int), v, Set::empty()),
                forall|p: u32| p < n ==> (#[trigger] adj@[p as int])@ == targets(base + dep_edges(*dep, n, pj as int), p),
            decreases dep.depends_on.len() - pj,
        {
            let p = dep.depends_on[pj];
            let ghost cur = base + dep_edges(*dep, n, pj as int);
            let ghost next = base + dep_edges(*dep, n, pj + 1);
            if p < n && u < n {
                assert(next =~= cur.push((p, u)));
                assert(next.drop_last() =~= cur);
                proof {
                    lemma_cnt_prefix(ds, n, di as int, pj + 1, u);
                }
                let mut neighbors = adj[p as usize].clone();
                neighbors.push(u);
                adj.set(p as usize, neighbors);
                let deg = in_degree[u as usize];
                in_degree.set(u as usize, deg + 1);
                assert forall|v: u32| v < n implies #[trigger] in_degree@[v as int] == cnt_in(next, v, Set::empty()) by {}
                assert forall|q: u32| q < n implies (#[trigger] adj@[q as int])@ == targets(next, q) by {
                    if q == p {
                        assert(adj@[q as int]@ =~= targets(cur, q).push(u));
                    }
                }
            } else {
                assert(next =~= cur);
            }
            pj = pj + 1;
        }
        assert(base + dep_edges(*dep, n, dep.depends_on@.len() as int) =~= edges_upto(ds, n, di + 1));
        di = di + 1;
    }
    assert(edges_upto(ds, n, deps@.len() as int) == e);
    assert(in_degree@ =~= initial_degrees(e, n)) by {
        assert forall|v: int| 0 <= v < n implies #[trigger] in_degree@[v] == initial_degrees(e, n)[v] by {
            assert(in_degree@[(v as u32) as int] == cnt_in(e, v as u32, Set::empty()));
        }
    }

    let mut queue: Vec<u32> = Vec::new();
    let mut v0: u32 = 0;
    while v0 < n
        invariant
            v0 <= n,
            in_degree@.len() == n,
            forall|v: u32| v < n ==> #[trigger] in_degree@[v as int] == cnt_in(e, v, Set::empty()),
            queue@.no_duplicates(),
            forall|k: int| 0 <= k < queue@.len() ==> #[trigger] queue@[k] < v0,
            forall|v: u32| v < n ==> (#[trigger] queue@.contains(v) <==> (v < v0 && in_degree@[v as int] == 0)),
            in_degree@ == initial_degrees(e, n),
            queue@ == initial_ready(in_degree@, v0 as int),
        decreases n - v0,
    {
        if in_degree[v0 as usize] == 0 {
            proof {
                lemma_push_contains(queue@, v0);
            }
            queue.push(v0);
        }
        v0 = v0 + 1;
    }

    let mut order: Vec<u32> = Vec::new();
    assert(listed(order@) =~= Set::<u32>::empty());
    let ghost target = kahn_from(e, in_degree@, queue@, order@, n as nat);
    assert(target == spec_kahn_order(ds, n));
    while queue.len() > 0
        invariant
            order@.len() <= n,
            kahn_from(e, in_degree@, queue@, order@, (n - order@.len()) as nat) == target,
            in_degree@.len() == n,
            adj@.len() == n,
            forall|p: u32| p < n ==> (#[trigger] adj@[p as int])@ == targets(e, p),
            order@.no_duplicates(),
            queue@.no_duplicates(),
            forall|k: int| 0 <= k < order@.len() ==> #[trigger] order@[k] < n,
            forall|k: int| 0 <= k < queue@.len() ==> #[trigger] queue@[k] < n,
            forall|v: u32| !(#[trigger] order@.contains(v) && queue@.contains(v)),
            forall|v: u32| v < n ==> #[trigger] in_degree@[v as int] == cnt_in(e, v, listed(order@)),
            forall|v: u32| v < n ==> (#[trigger] in_degree@[v as int] == 0 <==> (order@.contains(v) || queue@.contains(v))),
            forall|a: int, p: u32| 0 <= a < order@.len() && #[trigger] e.contains((p, order@[a])) ==>
                exists|b: int| 0 <= b < a && #[trigger] order@[b] == p,
        decreases n - order@.len(),
    {
        proof {
            let oq = order@ + queue@;
            assert forall|a: int, b: int| 0 <= a < oq.len() && 0 <= b < oq.len() && a != b implies oq[a] != oq[b] by {
                if a < order@.len() && b >= order@.len() {
                    assert(order@.contains(oq[a]));
                    assert(queue@.contains(oq[b]));
                } else if a >= order@.len() && b < order@.len() {
                    assert(queue@.contains(oq[a]));
                    assert(order@.contains(oq[b]));
                }
            }
            assert forall|a: int| 0 <= a < oq.len() implies #[trigger] oq[a] < n by {
                if a < order@.len() {
                    assert(oq[a] == order@[a]);
                } else {
                    assert(oq[a] == queue@[a - order@.len()]);
                }
            }
            lemma_distinct_below(oq, n);
        }
        let ghost q0 = queue@;
        let ghost deg0 = in_degree@;
        let ghost order0 = order@;
        assert(order@.len() < n);
        let node = queue.pop().unwrap();
        assert(queue@ =~= q0.drop_last());
        assert(q0[q0.len() - 1] == node);
        assert(q0.contains(node));
        assert(in_degree@[node as int] == 0);
        let ghost done = listed(order@);
        assert(!order@.contains(node));
        assert(!done.contains(node));
        proof {
            assert forall|p: u32| e.contains((p, node)) implies order@.contains(p) by {
                lemma_cnt_zero_sources(e, node, done, p);
            }
        }
        let ghost old_order = order@;
        order.push(node);
        assert forall|v: u32| #[trigger] order@.contains(v) <==> (old_order.contains(v) || v == node) by {
            if order@.contains(v) {
                let b = choose|b: int| 0 <= b < order@.len() && order@[b] == v;
                if b < old_order.len() {
                    assert(old_order[b] == v);
                }
            }
            if old_order.contains(v) {
                let b = choose|b: int| 0 <= b < old_order.len() && old_order[b] == v;
                assert(order@[b] == v);
            }
            if v == node {
                assert(order@[old_order.len() as int] == v);
            }
        }
        assert(listed(order@) =~= done.insert(node));
        assert forall|v: u32| #[trigger] queue@.contains(v) <==> (q0.contains(v) && v != node) by {
            if queue@.contains(v) {
                let b = choose|b: int| 0 <= b < queue@.len() && queue@[b] == v;
                assert(q0[b] == v);
                assert(q0[q0.len() - 1] == node);
            }
            if q0.contains(v) && v != node {
                let b = choose|b: int| 0 <= b < q0.len() && q0[b] == v;
                assert(b != q0.len() - 1);
                assert(queue@[b] == v);
            }
        }
        assert forall|v: u32| !(#[trigger] order@.contains(v) && queue@.contains(v)) by {
            if queue@.contains(v) {
                assert(q0.contains(v));
            }
        }
        assert forall|a: int, p: u32| 0 <= a < order@.len() && #[trigger] e.contains((p, order@[a])) implies
            exists|b: int| 0 <= b < a && #[trigger] order@[b] == p by {
            if a < old_order.len() {
                let b = choose|b: int| 0 <= b < a && old_order[b] == p;
                assert(order@[b] == p);
            } else {
                assert(old_order.contains(p));
                let b = choose|b: int| 0 <= b < old_order.len() && old_order[b] == p;
                assert(order@[b] == p);
            }
        }
        let neighbors = adj[node as usize].clone();
        assert(neighbors@ =~= targets(e, node));
        proof {
            assert forall|v: u32| v < n implies cnt_in(e, v, done) == cnt_in(e, v, done.insert(node))
                + occurrences(targets(e, node), v) by {
                lemma_cnt_finish(e, v, done, node);
            }
        }
        assert(neighbors@.take(0) =~= Seq::<u32>::empty());
        let ghost rel = release(deg0, q0.drop_last(), targets(e, node));
        assert(kahn_from(e, deg0, q0, order0, (n - order0.len()) as nat)
            == kahn_from(e, rel.0, rel.1, order@, (n - order@.len()) as nat));
        assert(neighbors@.skip(0) =~= neighbors@);
        let mut k: usize = 0;
        while k < neighbors.len()
            invariant
                k <= neighbors.len(),
                neighbors@ == targets(e, node),
                release(in_degree@, queue@, neighbors@.skip(k as int)) == rel,
                in_degree@.len() == n,
                order@.no_duplicates(),
                queue@.no_duplicates(),
                forall|a: int| 0 <= a < order@.len() ==> #[trigger] order@[a] < n,
                forall|a: int| 0 <= a < queue@.len() ==> #[trigger] queue@[a] < n,
                forall|v: u32| !(#[trigger] order@.contains(v) && queue@.contains(v)),
                forall|v: u32| v < n ==> #[trigger] in_degree@[v as int] + occurrences(neighbors@.take(k as int), v)
                    == cnt_in(e, v, done),
                forall|v: u32| v < n ==> (#[trigger] in_degree@[v as int] == 0 <==> (order@.contains(v) || queue@.contains(v))),
            decreases neighbors.len() - k,
        {
            let next = neighbors[k];
            proof {
                lemma_edges_upto_in_range(ds, n, ds.len() as int);
                lemma_targets_in_range(e, node, n);
                lemma_occurrences_take(neighbors@, k as int, next);
                assert forall|v: u32| v < n && v != next implies occurrences(neighbors@.take(k + 1), v)
                    == occurrences(neighbors@.take(k as int), v) by {
                    lemma_occurrences_take(neighbors@, k as int, v);
                }
            }
            assert(next < n);
            assert(neighbors@.skip(k as int)[0] == next);
            assert(neighbors@.skip(k as int).drop_first() =~= neighbors@.skip(k + 1));
            let deg = in_degree[next as usize].saturating_sub(1);
            in_degree.set(next as usize, deg);
            if deg == 0 {
                proof {
                    lemma_push_contains(queue@, next);
                }
                queue.push(next);
            }
            k = k + 1;
        }
        assert(neighbors@.take(neighbors@.len() as int) =~= neighbors@);
        assert(neighbors@.skip(neighbors@.len() as int) =~= Seq::<u32>::empty());
    }
    assert(order@ == target);

    if order.len() != n as usize {
        proof {
            lemma_distinct_below(order@, n);
            let w = choose|w: u32| w < n && !order@.contains(w);
            let s = Set::new(|v: u32| v < n && !order@.contains(v));
            assert forall|v: u32| #[trigger] s.contains(v) implies exists|p: u32| s.contains(p) && is_edge(ds, n, p, v) by {
                assert(in_degree@[v as int] != 0);
                let p = lemma_cnt_pos_source(e, v, listed(order@));
                lemma_edges_in_range(ds, n, p, v);
                assert(s.contains(p));
            }
            lemma_cycle_has_no_order(ds, n, s, w);
        }
        return Err(ContractError::InvalidInput);
    }
    proof {
        assert forall|a: int, b: int| 0 <= a < order@.len() && 0 <= b < order@.len()
            && is_edge(ds, n, #[trigger] order@[b], #[trigger] order@[a]) implies b < a by {
            let c = choose|c: int| 0 <= c < a && order@[c] == order@[b];
            assert(c == b);
        }
    }
    Ok(order)
}

proof fn lemma_push_contains(s: Seq<u32>, x: u32)
    ensures
        forall|v: u32| #[trigger] s.push(x).contains(v) <==> (s.contains(v) || v == x),
{
    assert forall|v: u32| #[trigger] s.push(x).contains(v) <==> (s.contains(v) || v == x) by {
        if s.push(x).contains(v) {
            let b = choose|b: int| 0 <= b < s.push(x).len() && s.push(x)[b] == v;
            if b < s.len() {
                assert(s[b] == v);
            }
        }
        if s.contains(v) {
            let b = choose|b: int| 0 <= b < s.len() && s[b] == v;
            assert(s.push(x)[b] == v);
        }
        if v == x {
            assert(s.push(x)[s.len() as int] == v);
        }
    }
}

proof fn lemma_targets_in_range(e: Seq<(u32, u32)>, x: u32, n: u32)
    requires
        forall|k: int| 0 <= k < e.len() ==> (#[trigger] e[k]).0 < n && e[k].1 < n,
    ensures
        forall|k: int| 0 <= k < targets(e, x).len() ==> #[trigger] targets(e, x)[k] < n,
    decreases e.len(),
{
    if e.len() > 0 {
        assert forall|k: int| 0 <= k < e.drop_last().len() implies (#[trigger] e.drop_last()[k]).0 < n && e.drop_last()[k].1 < n by {
            assert(e.drop_last()[k] == e[k]);
        }
        lemma_targets_in_range(e.drop_last(), x, n);
        assert(e[e.len() - 1] == e.last());
        let prev = targets(e.drop_last(), x);
        let cur = targets(e, x);
        assert forall|k: int| 0 <= k < cur.len() implies #[trigger] cur[k] < n by {
            if k < prev.len() {
                assert(cur[k] == prev[k]);
            }
        }
    }
}

} // verus!
