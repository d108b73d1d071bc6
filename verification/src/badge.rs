use vstd::prelude::*;
use std::collections::HashMap;
use crate::errors::ContractError;
use crate::store::{pair_key, spec_pair_key, GrantStore};
use crate::types::ContributorProfile;

verus! {

broadcast use vstd::std_specs::hash::group_hash_axioms;

/// The achievements a contributor can earn.
#[derive(Clone, Copy, Debug, PartialEq, Eq, Structural)]
pub enum BadgeType {
    FirstMilestone,
    TenMilestones,
    FiftyMilestones,
    BronzeContributor,
    SilverContributor,
    GoldContributor,
    PlatinumContributor,
    EarlyAdopter,
}

/// What a contributor's profile must show to earn a badge.
#[derive(Clone, Copy, Debug, PartialEq, Eq, Structural)]
pub struct BadgeCriteria {
    pub badge_type: BadgeType,
    pub required_milestones: Option<u32>,
    pub required_reputation: Option<u32>,
    pub required_grants: Option<u32>,
    pub one_time: bool,
}

/// One badge held by one contributor.
#[derive(Clone, Copy, Debug, PartialEq, Eq, Structural)]
pub struct BadgeRecord {
    pub badge_type: BadgeType,
    pub recipient: u64,
    pub awarded_at: u64,
    pub grant_id: Option<u64>,
    pub milestone_idx: Option<u32>,
}

/// Announces an award.
#[derive(Clone, Copy, Debug, PartialEq, Eq, Structural)]
pub struct BadgeAwarded {
    pub contributor: u64,
    pub badge_type: BadgeType,
    pub grant_id: Option<u64>,
    pub awarded_at: u64,
}

/// Awarded badges: one record per contributor and type (keyed by
/// `spec_pair_key(contributor, spec_badge_rank(type))`), each contributor's
/// list in award order, the number of awards of each type (by rank), and
/// every award in order.
pub struct BadgeStore {
    pub badges: HashMap<u128, BadgeRecord>,
    pub lists: HashMap<u64, Vec<BadgeRecord>>,
    pub award_counts: HashMap<u32, u32>,
    pub registry: Vec<BadgeRecord>,
}

/// The position of a badge type in the declaration order.
pub open spec fn spec_badge_rank(t: BadgeType) -> u32 {
    match t {
        BadgeType::FirstMilestone => 0,
        BadgeType::TenMilestones => 1,
        BadgeType::FiftyMilestones => 2,
        BadgeType::BronzeContributor => 3,
        BadgeType::SilverContributor => 4,
        BadgeType::GoldContributor => 5,
        BadgeType::PlatinumContributor => 6,
        BadgeType::EarlyAdopter => 7,
    }
}

/// Computes `spec_badge_rank(t)`.
pub fn badge_rank(t: BadgeType) -> (r: u32)
    ensures
        r == spec_badge_rank(t),
{
    match t {
        BadgeType::FirstMilestone => 0,
        BadgeType::TenMilestones => 1,
        BadgeType::FiftyMilestones => 2,
        BadgeType::BronzeContributor => 3,
        BadgeType::SilverContributor => 4,
        BadgeType::GoldContributor => 5,
        BadgeType::PlatinumContributor => 6,
        BadgeType::EarlyAdopter => 7,
    }
}

/// Distinct badge types have distinct ranks.
proof fn lemma_rank_injective(a: BadgeType, b: BadgeType)
    ensures
        spec_badge_rank(a) == spec_badge_rank(b) ==> a == b,
{
}

/// The criteria of each badge type: milestone counts for the milestone
/// badges (1, 10, 50), reputation for the contributor tiers (100, 400,
/// 700, 900), one grant for the early adopter; every badge is one-time.
pub open spec fn spec_criteria(t: BadgeType) -> BadgeCriteria {
    let (m, rep, g): (Option<u32>, Option<u32>, Option<u32>) = match t {
        BadgeType::FirstMilestone => (Some(1u32), None, None),
        BadgeType::TenMilestones => (Some(10u32), None, None),
        BadgeType::FiftyMilestones => (Some(50u32), None, None),
        BadgeType::BronzeContributor => (None, Some(100u32), None),
        BadgeType::SilverContributor => (None, Some(400u32), None),
        BadgeType::GoldContributor => (None, Some(700u32), None),
        BadgeType::PlatinumContributor => (None, Some(900u32), None),
        BadgeType::EarlyAdopter => (None, None, Some(1u32)),
    };
    BadgeCriteria { badge_type: t, required_milestones: m, required_reputation: rep, required_grants: g, one_time: true }
}

/// The criteria a badge type is awarded by.
pub fn get_criteria(badge_type: BadgeType) -> (c: BadgeCriteria)
    ensures
        c == spec_criteria(badge_type),
{
    match badge_type {
        BadgeType::FirstMilestone => BadgeCriteria {
            badge_type,
            required_milestones: Some(1),
            required_reputation: None,
            required_grants: None,
            one_time: true,
        },
        BadgeType::TenMilestones => BadgeCriteria {
            badge_type,
            required_milestones: Some(10),
            required_reputation: None,
            required_grants: None,
            one_time: true,
        },
        BadgeType::FiftyMilestones => BadgeCriteria {
            badge_type,
            required_milestones: Some(50),
            required_reputation: None,
            required_grants: None,
            one_time: true,
        },
        BadgeType::BronzeContributor => BadgeCriteria {
            badge_type,
            required_milestones: None,
            required_reputation: Some(100),
            required_grants: None,
            one_time: true,
        },
        BadgeType::SilverContributor => BadgeCriteria {
            badge_type,
            required_milestones: None,
            required_reputation: Some(400),
            required_grants: None,
            one_time: true,
        },
        BadgeType::GoldContributor => BadgeCriteria {
            badge_type,
            required_milestones: None,
            required_reputation: Some(700),
            required_grants: None,
            one_time: true,
        },
        BadgeType::PlatinumContributor => BadgeCriteria {
            badge_type,
            required_milestones: None,
            required_reputation: Some(900),
            required_grants: None,
            one_time: true,
        },
        BadgeType::EarlyAdopter => BadgeCriteria {
            badge_type,
            required_milestones: None,
            required_reputation: None,
            required_grants: Some(1),
            one_time: true,
        },
    }
}

/// Whether a profile satisfies every requirement the criteria set.
pub open spec fn profile_meets(p: ContributorProfile, c: BadgeCriteria) -> bool {
    &&& (c.required_milestones matches Some(n) ==> p.milestones_completed >= n)
    &&& (c.required_reputation matches Some(n) ==> p.reputation_score >= n)
    &&& (c.required_grants matches Some(n) ==> p.grants_count >= n)
}

/// Whether contributor `who` is registered and satisfies the criteria.
pub open spec fn spec_meets(store: &GrantStore, who: u64, c: BadgeCriteria) -> bool {
    store.contributor(who) matches Some(p) && profile_meets(p, c)
}

/// A contributor qualifies for a badge exactly when it is registered and
/// reaches every threshold that the badge's criteria set: completed
/// milestones, reputation and number of grants; a threshold left unset asks
/// nothing.
pub proof fn lemma_meets_thresholds(store: GrantStore, who: u64, t: BadgeType)
    ensures
        spec_meets(&store, who, spec_criteria(t)) <==> (store.contributor(who) matches Some(p)
            && (spec_criteria(t).required_milestones is None || p.milestones_completed >= spec_criteria(t).required_milestones->Some_0)
            && (spec_criteria(t).required_reputation is None || p.reputation_score >= spec_criteria(t).required_reputation->Some_0)
            && (spec_criteria(t).required_grants is None || p.grants_count >= spec_criteria(t).required_grants->Some_0)),
{
}

/// Whether a list of records holds one of type `t`.
pub open spec fn lists_type(s: Seq<BadgeRecord>, t: BadgeType) -> bool {
    exists|i: int| 0 <= i < s.len() && (#[trigger] s[i]).badge_type == t
}

/// No badge type occurs twice in a list of records.
pub open spec fn types_distinct(s: Seq<BadgeRecord>) -> bool {
    forall|i: int, j: int| 0 <= i < j < s.len() ==> (#[trigger] s[i]).badge_type != (#[trigger] s[j]).badge_type
}

impl BadgeStore {
    /// Whether `who` holds a badge of type `t`.
    pub open spec fn has(&self, who: u64, t: BadgeType) -> bool {
        self.badges@.contains_key(spec_pair_key(who, spec_badge_rank(t)))
    }

    /// The badges of `who`, in award order.
    pub open spec fn list_of(&self, who: u64) -> Seq<BadgeRecord> {
        if self.lists@.contains_key(who) {
            self.lists@[who]@
        } else {
            Seq::empty()
        }
    }

    /// The number of awards of type `t`.
    pub open spec fn count_of(&self, t: BadgeType) -> u32 {
        let r = spec_badge_rank(t);
        if self.award_counts@.contains_key(r) {
            self.award_counts@[r]
        } else {
            0
        }
    }

    /// Each contributor's list holds exactly the badges they hold, each
    /// type at most once.
    pub open spec fn wf(&self) -> bool {
        &&& forall|who: u64, t: BadgeType| #![trigger self.has(who, t)] #![trigger lists_type(self.list_of(who), t)]
            self.has(who, t) <==> lists_type(self.list_of(who), t)
        &&& forall|who: u64| #[trigger] types_distinct(self.list_of(who))
    }

    /// No badges awarded yet.
    pub fn new() -> (s: Self)
        ensures
            s.badges@ == Map::<u128, BadgeRecord>::empty(),
            s.lists@ == Map::<u64, Vec<BadgeRecord>>::empty(),
            s.award_counts@ == Map::<u32, u32>::empty(),
            s.registry@ == Seq::<BadgeRecord>::empty(),
            s.wf(),
    {
        BadgeStore { badges: HashMap::new(), lists: HashMap::new(), award_counts: HashMap::new(), registry: Vec::new() }
    }
}

/// Whether `who` is registered and satisfies `criteria`.
fn meets_criteria(store: &GrantStore, who: u64, criteria: &BadgeCriteria) -> (r: bool)
    ensures
        r == spec_meets(store, who, *criteria),
{
    let p = match store.get_contributor(who) {
        Some(p) => p,
        None => {
            return false;
        },
    };
    match criteria.required_milestones {
        Some(n) => if p.milestones_completed < n {
            return false;
        },
        None => {},
    }
    match criteria.required_reputation {
        Some(n) => if p.reputation_score < n as u64 {
            return false;
        },
        None => {},
    }
    match criteria.required_grants {
        Some(n) => if p.grants_count < n {
            return false;
        },
        None => {},
    }
    true
}

/// How the store changes when `who` receives a badge of type `t` at time
/// `now`: the record is kept, appended to their list and to the registry,
/// and the type's count grows by one (saturating).
pub open spec fn awarded(
    before: &BadgeStore,
    after: &BadgeStore,
    who: u64,
    t: BadgeType,
    grant_id: Option<u64>,
    milestone_idx: Option<u32>,
    now: u64,
) -> bool {
    let rec = BadgeRecord { badge_type: t, recipient: who, awarded_at: now, grant_id, milestone_idx };
    let c = before.count_of(t);
    &&& after.badges@ == before.badges@.insert(spec_pair_key(who, spec_badge_rank(t)), rec)
    &&& after.list_of(who) == before.list_of(who).push(rec)
    &&& forall|o: u64| o != who ==> #[trigger] after.list_of(o) == before.list_of(o)
    &&& after.award_counts@ == before.award_counts@.insert(spec_badge_rank(t), if c == u32::MAX { c } else { (c + 1) as u32 })
    &&& after.registry@ == before.registry@.push(rec)
}

/// The store is as it was.
pub open spec fn unchanged(before: &BadgeStore, after: &BadgeStore) -> bool {
    &&& after.badges@ == before.badges@
    &&& after.lists@ == before.lists@
    &&& after.award_counts@ == before.award_counts@
    &&& after.registry@ == before.registry@
}

/// Award `who` a badge of type `badge_type` at time `now` unless they hold
/// one already; returns whether it was awarded.
fn write_award(
    bs: &mut BadgeStore,
    who: u64,
    badge_type: BadgeType,
    grant_id: Option<u64>,
    milestone_idx: Option<u32>,
    now: u64,
) -> (r: bool)
    requires
        old(bs).wf(),
    ensures
        final(bs).wf(),
        r == !old(bs).has(who, badge_type),
        r ==> awarded(old(bs), final(bs), who, badge_type, grant_id, milestone_idx, now),
        !r ==> unchanged(old(bs), final(bs)),
{
    let rank = badge_rank(badge_type);
    let k = pair_key(who, rank);
    if bs.badges.contains_key(&k) {
        return false;
    }
    let rec = BadgeRecord { badge_type, recipient: who, awarded_at: now, grant_id, milestone_idx };
    bs.badges.insert(k, rec);
    let mut list: Vec<BadgeRecord> = match bs.lists.get(&who) {
        Some(l) => l.clone(),
        None => Vec::new(),
    };
    assert(list@ =~= old(bs).list_of(who));
    list.push(rec);
    bs.lists.insert(who, list);
    let c: u32 = match bs.award_counts.get(&rank) {
        Some(c) => *c,
        None => 0,
    };
    let c2: u32 = if c == u32::MAX { c } else { c + 1 };
    bs.award_counts.insert(rank, c2);
    bs.registry.push(rec);
    proof {
        assert forall|o: u64| o != who implies #[trigger] bs.list_of(o) == old(bs).list_of(o) by {}
        assert forall|w: u64, t: BadgeType| #![trigger bs.has(w, t)] #![trigger lists_type(bs.list_of(w), t)]
            bs.has(w, t) <==> lists_type(bs.list_of(w), t) by {
            lemma_pair_key_injective_badges(w, t, who, badge_type);
            assert(old(bs).has(w, t) <==> lists_type(old(bs).list_of(w), t));
            if w == who {
                let s = old(bs).list_of(who);
                let s2 = bs.list_of(who);
                assert(s2 == s.push(rec));
                if lists_type(s2, t) {
                    let i = choose|i: int| 0 <= i < s2.len() && (#[trigger] s2[i]).badge_type == t;
                    if i < s.len() {
                        assert(s[i] == s2[i]);
                        assert(lists_type(s, t));
                    }
                }
                if lists_type(s, t) {
                    let i = choose|i: int| 0 <= i < s.len() && (#[trigger] s[i]).badge_type == t;
                    assert(s2[i] == s[i]);
                }
                if t == badge_type {
                    assert(s2[s.len() as int].badge_type == t);
                }
            }
        }
        assert forall|w: u64| #[trigger] types_distinct(bs.list_of(w)) by {
            assert(types_distinct(old(bs).list_of(w)));
            if w == who {
                let s = old(bs).list_of(who);
                let s2 = bs.list_of(who);
                assert(!lists_type(s, badge_type));
                assert forall|i: int, j: int| 0 <= i < j < s2.len() implies (#[trigger] s2[i]).badge_type != (#[trigger] s2[j]).badge_type by {
                    if j == s.len() {
                        assert(s2[i] == s[i]);
                        if s[i].badge_type == badge_type {
                            assert(lists_type(s, badge_type));
                        }
                    } else {
                        assert(s2[i] == s[i] && s2[j] == s[j]);
                    }
                }
            }
        }
    }
    true
}

/// Keys of distinct (contributor, type) pairs differ.
proof fn lemma_pair_key_injective_badges(w1: u64, t1: BadgeType, w2: u64, t2: BadgeType)
    ensures
        spec_pair_key(w1, spec_badge_rank(t1)) == spec_pair_key(w2, spec_badge_rank(t2)) ==> w1 == w2 && t1 == t2,
{
    crate::store::lemma_pair_key_injective(w1, spec_badge_rank(t1), w2, spec_badge_rank(t2));
    lemma_rank_injective(t1, t2);
}

/// Award `contributor` a badge of type `badge_type` at time `now` when
/// their profile meets its criteria and they do not hold it yet; returns
/// whether it was awarded.
pub fn try_award(
    bs: &mut BadgeStore,
    store: &GrantStore,
    contributor: u64,
    badge_type: BadgeType,
    grant_id: Option<u64>,
    milestone_idx: Option<u32>,
    now: u64,
) -> (r: bool)
    requires
        old(bs).wf(),
    ensures
        final(bs).wf(),
        r == (!old(bs).has(contributor, badge_type) && spec_meets(store, contributor, spec_criteria(badge_type))),
        r ==> awarded(old(bs), final(bs), contributor, badge_type, grant_id, milestone_idx, now),
        !r ==> unchanged(old(bs), final(bs)),
{
    let criteria = get_criteria(badge_type);
    if criteria.one_time && has_badge(bs, contributor, badge_type) {
        return false;
    }
    if !meets_criteria(store, contributor, &criteria) {
        return false;
    }
    write_award(bs, contributor, badge_type, grant_id, milestone_idx, now)
}

/// The badges of `contributor`, in award order.
pub fn get_badges(bs: &BadgeStore, contributor: u64) -> (r: Vec<BadgeRecord>)
    ensures
        r@ == bs.list_of(contributor),
{
    match bs.lists.get(&contributor) {
        Some(l) => {
            let v = l.clone();
            assert(v@ =~= l@);
            v
        },
        None => Vec::new(),
    }
}

/// Whether `contributor` holds a badge of type `badge_type`.
pub fn has_badge(bs: &BadgeStore, contributor: u64, badge_type: BadgeType) -> (r: bool)
    ensures
        r == bs.has(contributor, badge_type),
{
    let k = pair_key(contributor, badge_rank(badge_type));
    bs.badges.contains_key(&k)
}

/// How many badges of type `badge_type` have been awarded.
pub fn award_count(bs: &BadgeStore, badge_type: BadgeType) -> (r: u32)
    ensures
        r == bs.count_of(badge_type),
{
    match bs.award_counts.get(&badge_rank(badge_type)) {
        Some(c) => *c,
        None => 0,
    }
}

/// The treasury account awards `contributor` a badge of type `badge_type`
/// at time `now`, bypassing the criteria (a no-op when they hold it).
///
/// Fails with `Unauthorized`, changing nothing, when `admin` is not the
/// treasury.
pub fn manual_award(
    bs: &mut BadgeStore,
    store: &GrantStore,
    admin: u64,
    contributor: u64,
    badge_type: BadgeType,
    now: u64,
) -> (r: Result<(), ContractError>)
    requires
        old(bs).wf(),
    ensures
        final(bs).wf(),
        r is Ok <==> store.treasury == Some(admin),
        r is Err ==> r == Err::<(), ContractError>(ContractError::Unauthorized),
        r is Ok && !old(bs).has(contributor, badge_type) ==> awarded(old(bs), final(bs), contributor, badge_type, None, None, now),
        r is Err || old(bs).has(contributor, badge_type) ==> unchanged(old(bs), final(bs)),
{
    match store.treasury {
        Some(t) => if t != admin {
            return Err(ContractError::Unauthorized);
        },
        None => {
            return Err(ContractError::Unauthorized);
        },
    }
    write_award(bs, contributor, badge_type, None, None, now);
    Ok(())
}

} // verus!
