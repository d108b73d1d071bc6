use vstd::prelude::*;
use std::collections::HashMap;

verus! {

broadcast use vstd::std_specs::hash::group_hash_axioms;

/// A bounty: a prize for the best solution submitted before a deadline.
#[derive(Clone, Debug, PartialEq, Eq)]
pub struct BountyGrant {
    pub id: u64,
    pub owner: u64,
    pub title: Vec<u8>,
    pub description: Vec<u8>,
    pub token: u64,
    pub prize_amount: i128,
    pub submission_deadline: u64,
}

/// One submitter's solution to a bounty.
#[derive(Clone, Debug, PartialEq, Eq)]
pub struct BountySubmission {
    pub bounty_id: u64,
    pub submitter: u64,
    pub proof_url: Vec<u8>,
}

/// The storage key of `submitter`'s submission to bounty `bounty_id`.
pub open spec fn spec_submission_key(bounty_id: u64, submitter: u64) -> u128 {
    (bounty_id as int * 0x1_0000_0000_0000_0000 + submitter as int) as u128
}

/// Computes `spec_submission_key(bounty_id, submitter)`.
fn submission_key(bounty_id: u64, submitter: u64) -> (k: u128)
    ensures
        k == spec_submission_key(bounty_id, submitter),
{
    assert(bounty_id as int * 0x1_0000_0000_0000_0000 + submitter as int <= u128::MAX) by (nonlinear_arith)
        requires
            0 <= bounty_id < 0x1_0000_0000_0000_0000,
            0 <= submitter < 0x1_0000_0000_0000_0000,
    ;
    (bounty_id as u128) * 0x1_0000_0000_0000_0000u128 + (submitter as u128)
}

/// Distinct (bounty, submitter) pairs have distinct keys.
pub proof fn lemma_submission_key_injective(b1: u64, s1: u64, b2: u64, s2: u64)
    ensures
        spec_submission_key(b1, s1) == spec_submission_key(b2, s2) ==> b1 == b2 && s1 == s2,
{
    let k1 = b1 as int * 0x1_0000_0000_0000_0000 + s1 as int;
    let k2 = b2 as int * 0x1_0000_0000_0000_0000 + s2 as int;
    assert(0 <= k1 <= u128::MAX && 0 <= k2 <= u128::MAX) by (nonlinear_arith)
        requires
            k1 == b1 as int * 0x1_0000_0000_0000_0000 + s1 as int,
            k2 == b2 as int * 0x1_0000_0000_0000_0000 + s2 as int,
            0 <= b1 < 0x1_0000_0000_0000_0000,
            0 <= s1 < 0x1_0000_0000_0000_0000,
            0 <= b2 < 0x1_0000_0000_0000_0000,
            0 <= s2 < 0x1_0000_0000_0000_0000,
    ;
    if k1 == k2 {
        assert(b1 == b2 && s1 == s2) by (nonlinear_arith)
            requires
                b1 as int * 0x1_0000_0000_0000_0000 + s1 as int == b2 as int * 0x1_0000_0000_0000_0000 + s2 as int,
                0 <= s1 < 0x1_0000_0000_0000_0000,
                0 <= s2 < 0x1_0000_0000_0000_0000,
        ;
    }
}

/// Bounty storage: the id counter, bounties by id, submissions keyed by
/// `spec_submission_key`, and each bounty's submitters in order.
pub struct Storage {
    pub bounty_counter: u64,
    pub bounties: HashMap<u64, BountyGrant>,
    pub submissions: HashMap<u128, BountySubmission>,
    pub submitters: HashMap<u64, Vec<u64>>,
}

impl Storage {
    /// Bounty `id`, if stored.
    pub open spec fn bounty(&self, id: u64) -> Option<BountyGrant> {
        if self.bounties@.contains_key(id) { Some(self.bounties@[id]) } else { None }
    }

    /// `submitter`'s submission to bounty `bounty_id`, if stored.
    pub open spec fn submission(&self, bounty_id: u64, submitter: u64) -> Option<BountySubmission> {
        let k = spec_submission_key(bounty_id, submitter);
        if self.submissions@.contains_key(k) { Some(self.submissions@[k]) } else { None }
    }

    /// The submitters of bounty `bounty_id`, in order.
    pub open spec fn submitters_of(&self, bounty_id: u64) -> Seq<u64> {
        if self.submitters@.contains_key(bounty_id) { self.submitters@[bounty_id]@ } else { Seq::empty() }
    }

    /// Empty storage.
    pub fn new() -> (s: Self)
        ensures
            s.bounty_counter == 0,
            s.bounties@ == Map::<u64, BountyGrant>::empty(),
            s.submissions@ == Map::<u128, BountySubmission>::empty(),
            s.submitters@ == Map::<u64, Vec<u64>>::empty(),
    {
        Storage { bounty_counter: 0, bounties: HashMap::new(), submissions: HashMap::new(), submitters: HashMap::new() }
    }

    /// Take the next bounty id (ids start at 1).
    pub fn next_bounty_id(&mut self) -> (id: u64)
        requires
            old(self).bounty_counter < u64::MAX,
        ensures
            id == old(self).bounty_counter + 1,
            final(self).bounty_counter == id,
            final(self).bounties@ == old(self).bounties@,
            final(self).submissions@ == old(self).submissions@,
            final(self).submitters@ == old(self).submitters@,
    {
        let next = self.bounty_counter + 1;
        self.bounty_counter = next;
        next
    }

    /// Bounty `id`.
    pub fn get_bounty(&self, id: u64) -> (r: Option<&BountyGrant>)
        ensures
            match r {
                Some(b) => self.bounty(id) == Some(*b),
                None => self.bounty(id) is None,
            },
    {
        self.bounties.get(&id)
    }

    /// Store `bounty` under its id.
    pub fn set_bounty(&mut self, bounty: BountyGrant)
        ensures
            final(self).bounties@ == old(self).bounties@.insert(bounty.id, bounty),
            final(self).bounty_counter == old(self).bounty_counter,
            final(self).submissions@ == old(self).submissions@,
            final(self).submitters@ == old(self).submitters@,
    {
        let id = bounty.id;
        self.bounties.insert(id, bounty);
    }

    /// `submitter`'s submission to bounty `bounty_id`.
    pub fn get_bounty_submission(&self, bounty_id: u64, submitter: u64) -> (r: Option<&BountySubmission>)
        ensures
            match r {
                Some(s) => self.submission(bounty_id, submitter) == Some(*s),
                None => self.submission(bounty_id, submitter) is None,
            },
    {
        self.submissions.get(&submission_key(bounty_id, submitter))
    }

    /// Store `submission` under its bounty and submitter.
    pub fn set_bounty_submission(&mut self, submission: BountySubmission)
        ensures
            final(self).submissions@ == old(self).submissions@.insert(
                spec_submission_key(submission.bounty_id, submission.submitter),
                submission,
            ),
            final(self).bounty_counter == old(self).bounty_counter,
            final(self).bounties@ == old(self).bounties@,
            final(self).submitters@ == old(self).submitters@,
    {
        let k = submission_key(submission.bounty_id, submission.submitter);
        self.submissions.insert(k, submission);
    }

    /// The submitters of bounty `bounty_id`, in order (empty when none).
    pub fn get_bounty_submitters(&self, bounty_id: u64) -> (r: Vec<u64>)
        ensures
            r@ == self.submitters_of(bounty_id),
    {
        match self.submitters.get(&bounty_id) {
            Some(v) => {
                let c = v.clone();
                assert(c@ =~= v@);
                c
            },
            None => Vec::new(),
        }
    }

    /// Append `submitter` to bounty `bounty_id`'s submitters.
    pub fn add_bounty_submitter(&mut self, bounty_id: u64, submitter: u64)
        ensures
            final(self).submitters@ == old(self).submitters@.insert(bounty_id, final(self).submitters@[bounty_id]),
            final(self).submitters_of(bounty_id) == old(self).submitters_of(bounty_id).push(submitter),
            final(self).bounty_counter == old(self).bounty_counter,
            final(self).bounties@ == old(self).bounties@,
            final(self).submissions@ == old(self).submissions@,
    {
        let mut list = self.get_bounty_submitters(bounty_id);
        list.push(submitter);
        self.submitters.insert(bounty_id, list);
    }
}

} // verus!
