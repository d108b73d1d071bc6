use vstd::prelude::*;
use std::collections::HashMap;
use crate::errors::ContractError;
use crate::registry::without;

verus! {

broadcast use vstd::std_specs::hash::group_hash_axioms;

/// A reusable milestone description with a default share of the budget.
#[derive(Clone, Debug, PartialEq, Eq)]
pub struct MilestoneTemplate {
    pub id: u64,
    pub owner: u64,
    pub name: Vec<u8>,
    pub description: Vec<u8>,
    /// The template's category, as a numeric code.
    pub category: u32,
    pub default_amount_pct: u32,
    pub is_public: bool,
    pub use_count: u32,
}

/// Templates by id (ids are `1..=counter`), and each owner's template ids
/// in creation order.
pub struct TemplateStore {
    pub templates: HashMap<u64, MilestoneTemplate>,
    pub by_owner: HashMap<u64, Vec<u64>>,
    pub counter: u64,
}

impl TemplateStore {
    /// The template with id `id`, if any.
    pub open spec fn template(&self, id: u64) -> Option<MilestoneTemplate> {
        if self.templates@.contains_key(id) {
            Some(self.templates@[id])
        } else {
            None
        }
    }

    /// The template ids of `owner`.
    pub open spec fn owned(&self, owner: u64) -> Seq<u64> {
        if self.by_owner@.contains_key(owner) {
            self.by_owner@[owner]@
        } else {
            Seq::empty()
        }
    }

    /// No templates.
    pub fn new() -> (s: Self)
        ensures
            s.templates@ == Map::<u64, MilestoneTemplate>::empty(),
            s.by_owner@ == Map::<u64, Vec<u64>>::empty(),
            s.counter == 0,
    {
        TemplateStore { templates: HashMap::new(), by_owner: HashMap::new(), counter: 0 }
    }
}

/// A copy of a list of ids.
fn copy_ids(v: &Vec<u64>) -> (r: Vec<u64>)
    ensures
        r@ == v@,
{
    let r = v.clone();
    assert(r@ =~= v@);
    r
}

/// Store a new template for `owner` under the next id and return that id.
pub fn save_template(
    ts: &mut TemplateStore,
    owner: u64,
    name: Vec<u8>,
    description: Vec<u8>,
    category: u32,
    default_amount_pct: u32,
    is_public: bool,
) -> (r: Result<u64, ContractError>)
    requires
        old(ts).counter < u64::MAX,
    ensures
        r == Ok::<u64, ContractError>((old(ts).counter + 1) as u64),
        final(ts).counter == old(ts).counter + 1,
        ({
            let id = (old(ts).counter + 1) as u64;
            let t = final(ts).templates@[id];
            &&& final(ts).templates@ == old(ts).templates@.insert(id, t)
            &&& t.id == id
            &&& t.owner == owner
            &&& t.name@ == name@
            &&& t.description@ == description@
            &&& t.category == category
            &&& t.default_amount_pct == default_amount_pct
            &&& t.is_public == is_public
            &&& t.use_count == 0
            &&& final(ts).by_owner@ == old(ts).by_owner@.insert(owner, final(ts).by_owner@[owner])
            &&& final(ts).owned(owner) == old(ts).owned(owner).push(id)
        }),
{
    let id = ts.counter + 1;
    ts.counter = id;
    let t = MilestoneTemplate { id, owner, name, description, category, default_amount_pct, is_public, use_count: 0 };
    ts.templates.insert(id, t);
    let mut list: Vec<u64> = match ts.by_owner.get(&owner) {
        Some(l) => copy_ids(l),
        None => Vec::new(),
    };
    list.push(id);
    ts.by_owner.insert(owner, list);
    Ok(id)
}

/// `p / 100`, rounded toward zero.
pub open spec fn trunc_div_100(p: int) -> int {
    if p >= 0 { p / 100 } else { -((-p) / 100) }
}

/// The amount a template with `pct` percent assigns out of `total`.
pub open spec fn share_of(total: i128, pct: u32) -> int {
    trunc_div_100(total * pct)
}

/// How often `x` occurs in `s`.
pub open spec fn count_occ(s: Seq<u64>, x: u64) -> nat
    decreases s.len(),
{
    if s.len() == 0 {
        0
    } else {
        count_occ(s.drop_last(), x) + if s.last() == x { 1nat } else { 0nat }
    }
}

/// The first error among the first `n` ids: a missing template
/// (`InvalidState`) or a private template of another owner
/// (`Unauthorized`).
pub open spec fn first_error(ts: &TemplateStore, caller: u64, ids: Seq<u64>, n: int) -> Option<ContractError>
    decreases n,
{
    if n <= 0 {
        None
    } else {
        match first_error(ts, caller, ids, n - 1) {
            Some(e) => Some(e),
            None => match ts.template(ids[n - 1]) {
                None => Some(ContractError::InvalidState),
                Some(t) => if !t.is_public && t.owner != caller {
                    Some(ContractError::Unauthorized)
                } else {
                    None
                },
            },
        }
    }
}

/// What `create_from_templates` needs to run without overflow: each id it
/// reaches before any error names a template whose share of `total` fits an
/// `i128` and whose use count can grow by one more use.
pub open spec fn templates_fit(ts: &TemplateStore, caller: u64, ids: Seq<u64>, total: i128) -> bool {
    forall|k: int| 0 <= k < ids.len() && first_error(ts, caller, ids, k + 1) is None ==> {
        let t = ts.templates@[#[trigger] ids[k]];
        &&& i128::MIN <= total * t.default_amount_pct <= i128::MAX
        &&& t.use_count + count_occ(ids.take(k + 1), ids[k]) <= u32::MAX
    }
}

/// `total * pct / 100` rounded toward zero, for a product that fits.
fn percent_share(total: i128, pct: u32) -> (r: i128)
    requires
        i128::MIN <= total * pct <= i128::MAX,
    ensures
        r == share_of(total, pct),
{
    let p: i128 = total * (pct as i128);
    if p >= 0 {
        ((p as u128) / 100) as i128
    } else {
        let mag: u128 = ((-(p + 1)) as u128) + 1;
        let q: u128 = mag / 100;
        assert(mag == -p);
        assert(q <= i128::MAX);
        -(q as i128)
    }
}

/// Every id of `ids` names a template that `caller` may use, and they
/// occur among `ids`.
proof fn lemma_first_error_none(ts: &TemplateStore, caller: u64, ids: Seq<u64>, n: int, i: int)
    requires
        first_error(ts, caller, ids, n) is None,
        0 <= i < n <= ids.len(),
    ensures
        ts.template(ids[i]) is Some,
        ts.template(ids[i])->Some_0.is_public || ts.template(ids[i])->Some_0.owner == caller,
    decreases n,
{
    if i < n - 1 {
        lemma_first_error_none(ts, caller, ids, n - 1, i);
    }
}

/// Counting occurrences in a growing prefix.
proof fn lemma_count_occ_step(s: Seq<u64>, i: int, x: u64)
    requires
        0 <= i < s.len(),
    ensures
        count_occ(s.take(i + 1), x) == count_occ(s.take(i), x) + if s[i] == x { 1nat } else { 0nat },
{
    assert(s.take(i + 1).drop_last() =~= s.take(i));
}

/// Once an error is found among the first ids, it stays the first error.
proof fn lemma_first_error_stable(ts: &TemplateStore, caller: u64, ids: Seq<u64>, m: int, n: int)
    requires
        first_error(ts, caller, ids, m) is Some,
        0 <= m <= n,
    ensures
        first_error(ts, caller, ids, n) == first_error(ts, caller, ids, m),
    decreases n - m,
{
    if m < n {
        lemma_first_error_stable(ts, caller, ids, m, n - 1);
    }
}

/// The use counts after `create_from_templates` has used `ids[..n]`.
pub open spec fn used(before: Map<u64, MilestoneTemplate>, after: Map<u64, MilestoneTemplate>, ids: Seq<u64>) -> bool {
    &&& after.dom() == before.dom()
    &&& forall|id: u64| #[trigger] after.contains_key(id) ==> after[id] == (MilestoneTemplate {
        use_count: (before[id].use_count + count_occ(ids, id)) as u32,
        ..before[id]
    })
}

/// Turn the templates `template_ids` into milestones of a grant of
/// `total_amount`: each gives its description and its percentage of the
/// total (rounded toward zero), in order, and has its use count raised
/// once per use.
///
/// Fails, changing nothing, at the first id with no template
/// (`InvalidState`) or naming another owner's private template
/// (`Unauthorized`).
pub fn create_from_templates(ts: &mut TemplateStore, caller: u64, template_ids: &Vec<u64>, total_amount: i128) -> (r: Result<Vec<(Vec<u8>, i128)>, ContractError>)
    requires
        templates_fit(old(ts), caller, template_ids@, total_amount),
    ensures
        final(ts).counter == old(ts).counter,
        final(ts).by_owner@ == old(ts).by_owner@,
        match first_error(old(ts), caller, template_ids@, template_ids@.len() as int) {
            Some(e) => r == Err::<Vec<(Vec<u8>, i128)>, ContractError>(e) && final(ts).templates@ == old(ts).templates@,
            None => r is Ok && used(old(ts).templates@, final(ts).templates@, template_ids@),
        },
        r matches Ok(v) ==> {
            &&& v@.len() == template_ids@.len()
            &&& forall|i: int| 0 <= i < v@.len() ==> {
                let t = old(ts).templates@[template_ids@[i]];
                &&& (#[trigger] v@[i]).0@ == t.description@
                &&& v@[i].1 == share_of(total_amount, t.default_amount_pct)
            }
        },
{
    let n = template_ids.len();
    let mut i: usize = 0;
    while i < n
        invariant
            n == template_ids.len(),
            i <= n,
            first_error(ts, caller, template_ids@, i as int) is None,
        decreases n - i,
    {
        let id = template_ids[i];
        match ts.templates.get(&id) {
            Some(t) => if !t.is_public && t.owner != caller {
                proof {
                    lemma_first_error_stable(ts, caller, template_ids@, i as int + 1, n as int);
                }
                return Err(ContractError::Unauthorized);
            },
            None => {
                proof {
                    lemma_first_error_stable(ts, caller, template_ids@, i as int + 1, n as int);
                }
                return Err(ContractError::InvalidState);
            },
        }
        i = i + 1;
    }
    let ghost before = ts.templates@;
    let mut results: Vec<(Vec<u8>, i128)> = Vec::new();
    let mut j: usize = 0;
    while j < n
        invariant
            n == template_ids.len(),
            j <= n,
            first_error(old(ts), caller, template_ids@, n as int) is None,
            before == old(ts).templates@,
            templates_fit(old(ts), caller, template_ids@, total_amount),
            ts.counter == old(ts).counter,
            ts.by_owner@ == old(ts).by_owner@,
            used(before, ts.templates@, template_ids@.take(j as int)),
            results@.len() == j,
            forall|k: int| 0 <= k < j ==> {
                let t = before[template_ids@[k]];
                &&& (#[trigger] results@[k]).0@ == t.description@
                &&& results@[k].1 == share_of(total_amount, t.default_amount_pct)
            },
        decreases n - j,
    {
        let id = template_ids[j];
        proof {
            lemma_first_error_none(old(ts), caller, template_ids@, n as int, j as int);
            lemma_count_occ_step(template_ids@, j as int, id);
            if first_error(old(ts), caller, template_ids@, j as int + 1) is Some {
                lemma_first_error_stable(old(ts), caller, template_ids@, j as int + 1, n as int);
            }
            assert(template_ids@[j as int] == id);
            assert(template_ids@.contains(id)) by {
                assert(template_ids@[j as int] == id);
            }
            assert(before.contains_key(id));
            assert(ts.templates@.contains_key(id));
        }
        let ghost cur = ts.templates@;
        match ts.templates.remove(&id) {
            Some(mut t) => {
                t.use_count = t.use_count + 1;
                let d = crate::bytes::copy_bytes(&t.description);
                let amount = percent_share(total_amount, t.default_amount_pct);
                results.push((d, amount));
                ts.templates.insert(id, t);
            },
            None => {},
        }
        proof {
            assert forall|x: u64| #[trigger] ts.templates@.contains_key(x) implies ts.templates@[x] == (MilestoneTemplate {
                use_count: (before[x].use_count + count_occ(template_ids@.take(j as int + 1), x)) as u32,
                ..before[x]
            }) by {
                lemma_count_occ_step(template_ids@, j as int, x);
                assert(cur.contains_key(x));
            }
            assert(ts.templates@.dom() =~= before.dom());
        }
        j = j + 1;
    }
    assert(template_ids@.take(n as int) =~= template_ids@);
    Ok(results)
}

/// The template with id `id`.
pub fn get_template(ts: &TemplateStore, id: u64) -> (r: Option<&MilestoneTemplate>)
    ensures
        match r {
            Some(t) => ts.template(id) == Some(*t),
            None => ts.template(id) is None,
        },
{
    ts.templates.get(&id)
}

/// The template ids of `owner`, in creation order.
pub fn templates_by_owner(ts: &TemplateStore, owner: u64) -> (r: Vec<u64>)
    ensures
        r@ == ts.owned(owner),
{
    match ts.by_owner.get(&owner) {
        Some(l) => copy_ids(l),
        None => Vec::new(),
    }
}

/// The ids in `1..=top` of public templates, newest first.
pub open spec fn public_desc(ts: &TemplateStore, top: nat) -> Seq<u64>
    decreases top,
{
    if top == 0 || top > u64::MAX {
        Seq::empty()
    } else {
        let rest = public_desc(ts, (top - 1) as nat);
        if ts.template(top as u64) matches Some(t) && t.is_public {
            seq![top as u64] + rest
        } else {
            rest
        }
    }
}

/// The public templates, newest first: at most `limit` of them, and at
/// least the newest one when there is any (also for a `limit` of 0).
pub fn public_templates(ts: &TemplateStore, limit: u32) -> (r: Vec<u64>)
    ensures
        ({
            let all = public_desc(ts, ts.counter as nat);
            let k: int = if limit == 0 { 1 } else { limit as int };
            r@ == all.take(if all.len() < k { all.len() as int } else { k })
        }),
{
    let mut results: Vec<u64> = Vec::new();
    let mut count: u32 = 0;
    let mut id: u64 = ts.counter;
    let ghost k: int = if limit == 0 { 1 } else { limit as int };
    while id > 0
        invariant
            id <= ts.counter,
            k == (if limit == 0 { 1 } else { limit as int }),
            count as int == results@.len(),
            count < k,
            public_desc(ts, ts.counter as nat) == results@ + public_desc(ts, id as nat),
        decreases id,
    {
        let is_public = match ts.templates.get(&id) {
            Some(t) => t.is_public,
            None => false,
        };
        let ghost rest = public_desc(ts, (id - 1) as nat);
        if is_public {
            results.push(id);
            count = count + 1;
            assert(public_desc(ts, ts.counter as nat) =~= results@ + rest);
            if count >= limit {
                let ghost all = public_desc(ts, ts.counter as nat);
                assert(all.take(results@.len() as int) =~= results@);
                return results;
            }
        }
        id = id - 1;
    }
    let ghost all = public_desc(ts, ts.counter as nat);
    assert(public_desc(ts, 0) =~= Seq::<u64>::empty());
    assert(all =~= results@);
    assert(all.take(all.len() as int) =~= all);
    results
}

/// The owner deletes template `id`, which must be unused; it leaves their
/// list.
///
/// Fails with `InvalidState` (no such template, or it was used) or
/// `Unauthorized` (not the owner), changing nothing.
pub fn delete_template(ts: &mut TemplateStore, caller: u64, id: u64) -> (r: Result<(), ContractError>)
    ensures
        r == (match old(ts).template(id) {
            None => Err(ContractError::InvalidState),
            Some(t) => if t.owner != caller {
                Err(ContractError::Unauthorized)
            } else if t.use_count > 0 {
                Err(ContractError::InvalidState)
            } else {
                Ok(())
            },
        }),
        final(ts).counter == old(ts).counter,
        r is Err ==> final(ts).templates@ == old(ts).templates@ && final(ts).by_owner@ == old(ts).by_owner@,
        r is Ok ==> {
            &&& final(ts).templates@ == old(ts).templates@.remove(id)
            &&& final(ts).by_owner@ == old(ts).by_owner@.insert(caller, final(ts).by_owner@[caller])
            &&& final(ts).owned(caller) == without(old(ts).owned(caller), id)
        },
{
    let t = match ts.templates.get(&id) {
        Some(t) => t,
        None => {
            return Err(ContractError::InvalidState);
        },
    };
    if t.owner != caller {
        return Err(ContractError::Unauthorized);
    }
    if t.use_count > 0 {
        return Err(ContractError::InvalidState);
    }
    ts.templates.remove(&id);
    let old_list: Vec<u64> = match ts.by_owner.get(&caller) {
        Some(l) => copy_ids(l),
        None => Vec::new(),
    };
    let ghost ol = old_list@;
    assert(ol == old(ts).owned(caller));
    let mut new_list: Vec<u64> = Vec::new();
    let mut i: usize = 0;
    while i < old_list.len()
        invariant
            i <= old_list.len(),
            old_list@ == ol,
            new_list@ == without(ol.subrange(0, i as int), id),
        decreases old_list.len() - i,
    {
        let x = old_list[i];
        assert(ol.subrange(0, i as int + 1).drop_last() =~= ol.subrange(0, i as int));
        if x != id {
            new_list.push(x);
        }
        i = i + 1;
    }
    assert(ol.subrange(0, ol.len() as int) =~= ol);
    ts.by_owner.insert(caller, new_list);
    Ok(())
}

} // verus!
