use vstd::prelude::*;
use std::collections::HashMap;
use crate::bytes::{bytes_eq, contains_account, copy_bytes};
use crate::errors::ContractError;
use crate::store::{pair_key, spec_pair_key, lemma_pair_key_injective, lemma_pair_key_offset, GrantStore};
use crate::types::{Grant, Milestone, MilestoneState};

verus! {

broadcast use vstd::std_specs::hash::group_hash_axioms;

// ---------------------------------------------------------------------------
// Decimal text for amounts and counts
// ---------------------------------------------------------------------------

/// The ASCII decimal digits of `n`, most significant first, without leading
/// zeros ("0" for zero).
pub open spec fn spec_digits(n: nat) -> Seq<u8>
    decreases n,
{
    if n < 10 {
        seq![(48 + n) as u8]
    } else {
        spec_digits(n / 10).push((48 + n % 10) as u8)
    }
}

/// The decimal rendering of `v`: a `-` sign for negative values, then digits.
pub open spec fn spec_decimal(v: int) -> Seq<u8> {
    if v < 0 {
        seq![45u8] + spec_digits((-v) as nat)
    } else {
        spec_digits(v as nat)
    }
}

/// Whether `b` is an ASCII decimal digit.
pub open spec fn is_digit(b: u8) -> bool {
    48 <= b <= 57
}

/// Whether every byte of `s` is an ASCII decimal digit.
pub open spec fn all_digits(s: Seq<u8>) -> bool {
    forall|i: int| 0 <= i < s.len() ==> is_digit(#[trigger] s[i])
}

/// The number that a string of decimal digits denotes.
pub open spec fn spec_value(s: Seq<u8>) -> int
    decreases s.len(),
{
    if s.len() == 0 {
        0
    } else {
        spec_value(s.drop_last()) * 10 + (s.last() - 48)
    }
}

/// What parsing `s` as a signed decimal `i128` gives: an optional `-`, then
/// one or more digits, denoting a value in the range of `i128`.
pub open spec fn spec_parse_int(s: Seq<u8>) -> Option<int> {
    if s.len() == 0 {
        None
    } else {
        let neg = s[0] == 45u8;
        let body = if neg { s.skip(1) } else { s };
        if body.len() == 0 || !all_digits(body) {
            None
        } else {
            let v = if neg { -spec_value(body) } else { spec_value(body) };
            if i128::MIN <= v <= i128::MAX {
                Some(v)
            } else {
                None
            }
        }
    }
}

/// The digits of `n` are digits, there is at least one, and they denote `n`.
pub proof fn lemma_digits_value(n: nat)
    ensures
        spec_digits(n).len() >= 1,
        all_digits(spec_digits(n)),
        spec_value(spec_digits(n)) == n,
        spec_digits(n)[0] != 45u8,
    decreases n,
{
    if n >= 10 {
        lemma_digits_value(n / 10);
        let s = spec_digits(n);
        assert(s.drop_last() =~= spec_digits(n / 10));
        assert(s[0] == spec_digits(n / 10)[0]);
        assert(s.last() == (48 + n % 10) as u8);
        assert(((48 + n % 10) as u8) - 48 == n % 10);
        assert(n == (n / 10) * 10 + n % 10);
        assert(spec_value(s) == spec_value(s.drop_last()) * 10 + (s.last() - 48));
    } else {
        let s = spec_digits(n);
        assert(s.drop_last() =~= Seq::<u8>::empty());
        assert(spec_value(s.drop_last()) == 0);
        assert(s.last() == (48 + n) as u8);
        assert(((48 + n) as u8) - 48 == n);
        assert(spec_value(s) == spec_value(s.drop_last()) * 10 + (s.last() - 48));
    }
}

/// The value of a digit string's prefixes grows with their length.
pub proof fn lemma_value_prefix_monotone(s: Seq<u8>, j: int, k: int)
    requires
        all_digits(s),
        0 <= j <= k <= s.len(),
    ensures
        0 <= spec_value(s.take(j)) <= spec_value(s.take(k)),
    decreases k - j,
{
    lemma_value_nonneg(s.take(k));
    if j < k {
        lemma_value_prefix_monotone(s, j, k - 1);
        assert(s.take(k).drop_last() =~= s.take(k - 1));
        lemma_value_nonneg(s.take(k - 1));
    }
}

/// A digit string denotes a non-negative number.
pub proof fn lemma_value_nonneg(s: Seq<u8>)
    requires
        all_digits(s),
    ensures
        spec_value(s) >= 0,
    decreases s.len(),
{
    if s.len() > 0 {
        assert(all_digits(s.drop_last()));
        lemma_value_nonneg(s.drop_last());
    }
}

/// One more digit: the value of the longer prefix.
pub proof fn lemma_value_step(s: Seq<u8>, j: int)
    requires
        0 <= j < s.len(),
    ensures
        spec_value(s.take(j + 1)) == spec_value(s.take(j)) * 10 + (s[j] - 48),
{
    assert(s.take(j + 1).drop_last() =~= s.take(j));
}

/// Render an integer as decimal text: digits with no leading zeros, after a
/// `-` when negative. Covers the whole range of `i128`.
pub fn int_to_string(value: i128) -> (r: Vec<u8>)
    ensures
        r@ == spec_decimal(value as int),
{
    let negative = value < 0;
    let mag: u128 = if negative {
        ((-(value + 1)) as u128) + 1
    } else {
        value as u128
    };
    let ghost m = mag as nat;
    let mut out: Vec<u8> = Vec::new();
    let mut rem = mag;
    out.push((48 + rem % 10) as u8);
    rem = rem / 10;
    assert(spec_digits(m) =~= (if rem == 0 { Seq::<u8>::empty() } else { spec_digits(rem as nat) }) + out@);
    while rem > 0
        invariant
            spec_digits(m) =~= (if rem == 0 { Seq::<u8>::empty() } else { spec_digits(rem as nat) }) + out@,
        decreases rem,
    {
        let ghost before = rem;
        out.insert(0, (48 + rem % 10) as u8);
        rem = rem / 10;
        assert(spec_digits(before as nat) =~= (if rem == 0 { Seq::<u8>::empty() } else { spec_digits(rem as nat) }) + seq![(48 + before % 10) as u8]);
    }
    if negative {
        out.insert(0, 45u8);
        assert(out@ =~= seq![45u8] + spec_digits(m));
    }
    out
}

/// Parse signed decimal text into an `i128`: an optional `-`, then at least
/// one digit. Anything else, or a value outside the range of `i128`, gives
/// `None`.
pub fn parse_i128_from_string(s: &Vec<u8>) -> (r: Option<i128>)
    ensures
        match r {
            Some(v) => spec_parse_int(s@) == Some(v as int),
            None => spec_parse_int(s@) is None,
        },
{
    if s.len() == 0 {
        return None;
    }
    let negative = s[0] == 45u8;
    let start: usize = if negative { 1 } else { 0 };
    if s.len() == start {
        return None;
    }
    let ghost body = if negative { s@.skip(1) } else { s@ };
    assert(body.len() == s.len() - start);
    let mut value: i128 = 0;
    let mut i: usize = start;
    assert(body.take(0) =~= Seq::<u8>::empty());
    while i < s.len()
        invariant
            start <= i <= s.len(),
            start == (if negative { 1usize } else { 0usize }),
            s.len() > start,
            negative == (s@[0] == 45u8),
            body == (if negative { s@.skip(1) } else { s@ }),
            body.len() == s.len() - start,
            forall|j: int| 0 <= j < i - start ==> is_digit(#[trigger] body[j]),
            value as int == (if negative { -spec_value(body.take(i - start)) } else { spec_value(body.take(i - start)) }),
        decreases s.len() - i,
    {
        let b = s[i];
        let ghost k = i - start;
        assert(body[k] == b);
        if b < 48 || b > 57 {
            assert(!is_digit(body[k]));
            return None;
        }
        let digit = b - 48;
        proof {
            lemma_value_step(body, k);
        }
        let ghost next = spec_value(body.take(k + 1));
        match value.checked_mul(10) {
            Some(v10) => {
                let step = if negative {
                    v10.checked_sub(digit as i128)
                } else {
                    v10.checked_add(digit as i128)
                };
                match step {
                    Some(v) => {
                        value = v;
                    },
                    None => {
                        proof {
                            if all_digits(body) {
                                lemma_value_prefix_monotone(body, k + 1, body.len() as int);
                                assert(body.take(body.len() as int) =~= body);
                            }
                        }
                        return None;
                    },
                }
            },
            None => {
                proof {
                    if all_digits(body) {
                        lemma_value_prefix_monotone(body, k + 1, body.len() as int);
                        lemma_value_prefix_monotone(body, k, body.len() as int);
                        assert(body.take(body.len() as int) =~= body);
                    }
                }
                return None;
            },
        }
        i = i + 1;
    }
    assert(body.take(body.len() as int) =~= body);
    assert(all_digits(body));
    Some(value)
}

/// Parse decimal text into a `u32`: what `parse_i128_from_string` gives, when
/// it lies in the range of `u32`.
pub fn parse_u32_from_string(s: &Vec<u8>) -> (r: Option<u32>)
    ensures
        match r {
            Some(v) => spec_parse_int(s@) == Some(v as int),
            None => spec_parse_int(s@) is None || spec_parse_int(s@)->Some_0 < 0
                || spec_parse_int(s@)->Some_0 > u32::MAX,
        },
{
    match parse_i128_from_string(s) {
        Some(v) => {
            if v >= 0 && v <= u32::MAX as i128 {
                Some(v as u32)
            } else {
                None
            }
        },
        None => None,
    }
}

/// Law: parsing the decimal text of any `i128` gives the number back.
pub proof fn lemma_decimal_round_trip(v: i128)
    ensures
        spec_parse_int(spec_decimal(v as int)) == Some(v as int),
{
    let s = spec_decimal(v as int);
    if v < 0 {
        let n = (-(v as int)) as nat;
        lemma_digits_value(n);
        assert(s.skip(1) =~= spec_digits(n));
        assert(s[0] == 45u8);
    } else {
        lemma_digits_value(v as nat);
    }
}


// ---------------------------------------------------------------------------
// Amendable fields
// ---------------------------------------------------------------------------

/// The grant fields that an amendment may change.
#[derive(Clone, Copy, Debug, PartialEq, Eq, Structural)]
pub enum AmendableField {
    Title,
    Description,
    TotalAmount,
    TotalMilestones,
}

/// The name under which an amendment refers to a field.
pub open spec fn field_bytes(f: AmendableField) -> Seq<u8> {
    match f {
        AmendableField::Title => seq![116u8, 105, 116, 108, 101],
        AmendableField::Description => seq![100u8, 101, 115, 99, 114, 105, 112, 116, 105, 111, 110],
        AmendableField::TotalAmount => seq![116u8, 111, 116, 97, 108, 95, 97, 109, 111, 117, 110, 116],
        AmendableField::TotalMilestones => seq![
            116u8, 111, 116, 97, 108, 95, 109, 105, 108, 101, 115, 116, 111, 110, 101, 115,
        ],
    }
}

/// The field that `name` refers to, if any.
pub open spec fn spec_classify(name: Seq<u8>) -> Option<AmendableField> {
    if name == field_bytes(AmendableField::Title) {
        Some(AmendableField::Title)
    } else if name == field_bytes(AmendableField::Description) {
        Some(AmendableField::Description)
    } else if name == field_bytes(AmendableField::TotalAmount) {
        Some(AmendableField::TotalAmount)
    } else if name == field_bytes(AmendableField::TotalMilestones) {
        Some(AmendableField::TotalMilestones)
    } else {
        None
    }
}

/// The name of a field ("title", "description", "total_amount",
/// "total_milestones").
pub fn field(which: AmendableField) -> (r: Vec<u8>)
    ensures
        r@ == field_bytes(which),
{
    let r = match which {
        AmendableField::Title => vec![116u8, 105, 116, 108, 101],
        AmendableField::Description => vec![100u8, 101, 115, 99, 114, 105, 112, 116, 105, 111, 110],
        AmendableField::TotalAmount => vec![116u8, 111, 116, 97, 108, 95, 97, 109, 111, 117, 110, 116],
        AmendableField::TotalMilestones => vec![
            116u8, 111, 116, 97, 108, 95, 109, 105, 108, 101, 115, 116, 111, 110, 101, 115,
        ],
    };
    assert(r@ =~= field_bytes(which));
    r
}

/// The field that `name` refers to, if any.
pub fn classify_field(name: &Vec<u8>) -> (r: Option<AmendableField>)
    ensures
        r == spec_classify(name@),
{
    if bytes_eq(name, &field(AmendableField::Title)) {
        Some(AmendableField::Title)
    } else if bytes_eq(name, &field(AmendableField::Description)) {
        Some(AmendableField::Description)
    } else if bytes_eq(name, &field(AmendableField::TotalAmount)) {
        Some(AmendableField::TotalAmount)
    } else if bytes_eq(name, &field(AmendableField::TotalMilestones)) {
        Some(AmendableField::TotalMilestones)
    } else {
        None
    }
}

/// Whether a change to the named field is material (needs evaluator votes):
/// the title, the total amount and the number of milestones are.
pub open spec fn is_material_name(name: Seq<u8>) -> bool {
    spec_classify(name) == Some(AmendableField::Title) || spec_classify(name) == Some(
        AmendableField::TotalAmount,
    ) || spec_classify(name) == Some(AmendableField::TotalMilestones)
}

/// Whether any of the changed fields is material.
pub open spec fn spec_is_material(fields: Seq<Vec<u8>>) -> bool {
    exists|i: int| 0 <= i < fields.len() && is_material_name(#[trigger] fields[i]@)
}

/// Whether an amendment changing `changed_fields` is material.
pub fn is_material(changed_fields: &Vec<Vec<u8>>) -> (r: bool)
    ensures
        r == spec_is_material(changed_fields@),
{
    let mut i: usize = 0;
    while i < changed_fields.len()
        invariant
            i <= changed_fields.len(),
            forall|j: int| 0 <= j < i ==> !is_material_name(#[trigger] changed_fields@[j]@),
        decreases changed_fields.len() - i,
    {
        let f = classify_field(&changed_fields[i]);
        if f == Some(AmendableField::Title) || f == Some(AmendableField::TotalAmount) || f == Some(
            AmendableField::TotalMilestones,
        ) {
            assert(is_material_name(changed_fields@[i as int]@));
            return true;
        }
        i = i + 1;
    }
    false
}

// ---------------------------------------------------------------------------
// Versions and amendments
// ---------------------------------------------------------------------------

/// A snapshot of a grant's amendable fields at one version.
#[derive(Clone, Debug, PartialEq, Eq)]
pub struct GrantVersion {
    pub grant_id: u64,
    pub version: u32,
    pub title: Vec<u8>,
    pub description: Vec<u8>,
    pub total_amount: i128,
    pub total_milestones: u32,
    pub created_at: u64,
    pub amendment_id: Option<u32>,
}

/// Where an amendment stands.
#[derive(Clone, Copy, Debug, PartialEq, Eq, Structural)]
pub enum AmendmentStatus {
    Proposed,
    Approved,
    Rejected,
}

/// One evaluator's vote on an amendment.
#[derive(Clone, Copy, Debug, PartialEq, Eq, Structural)]
pub struct ReviewerVote {
    pub reviewer: u64,
    pub approve: bool,
}

/// A proposed change to some of a grant's fields.
#[derive(Clone, Debug, PartialEq, Eq)]
pub struct Amendment {
    pub grant_id: u64,
    pub version: u32,
    pub proposed_by: u64,
    pub changed_fields: Vec<Vec<u8>>,
    pub previous_values: Vec<Vec<u8>>,
    pub new_values: Vec<Vec<u8>>,
    pub rationale: Vec<u8>,
    pub status: AmendmentStatus,
    pub reviewer_votes: Vec<ReviewerVote>,
    pub proposed_at: u64,
    pub resolved_at: Option<u64>,
}

/// Versions, amendments and amendment history of all grants.
pub struct VersionStore {
    /// Snapshots keyed by `spec_pair_key(grant_id, version)`.
    pub versions: HashMap<u128, GrantVersion>,
    /// The current version of each grant (absent: 0, none yet).
    pub current: HashMap<u64, u32>,
    /// Amendments keyed by `spec_pair_key(grant_id, version)`.
    pub amendments: HashMap<u128, Amendment>,
    /// The amendment versions proposed for each grant, in order.
    pub history: HashMap<u64, Vec<u32>>,
}

/// Whether `v` holds the fields of `g` as version `version`.
pub open spec fn version_of(v: GrantVersion, g: Grant, version: u32, amendment_id: Option<u32>, now: u64) -> bool {
    &&& v.grant_id == g.id
    &&& v.version == version
    &&& v.title@ == g.title@
    &&& v.description@ == g.description@
    &&& v.total_amount == g.total_amount
    &&& v.total_milestones == g.total_milestones
    &&& v.created_at == now
    &&& v.amendment_id == amendment_id
}

/// Whether two snapshots hold the same values.
pub open spec fn same_version(a: GrantVersion, b: GrantVersion) -> bool {
    &&& a.grant_id == b.grant_id
    &&& a.version == b.version
    &&& a.title@ == b.title@
    &&& a.description@ == b.description@
    &&& a.total_amount == b.total_amount
    &&& a.total_milestones == b.total_milestones
    &&& a.created_at == b.created_at
    &&& a.amendment_id == b.amendment_id
}

impl VersionStore {
    /// The current version of grant `g` (0 before any snapshot).
    pub open spec fn current_of(&self, g: u64) -> u32 {
        if self.current@.contains_key(g) {
            self.current@[g]
        } else {
            0
        }
    }

    /// The amendment versions proposed for grant `g`, in order.
    pub open spec fn history_of(&self, g: u64) -> Seq<u32> {
        if self.history@.contains_key(g) {
            self.history@[g]@
        } else {
            Seq::empty()
        }
    }

    /// The snapshot of grant `g` at version `v`, if stored.
    pub open spec fn version(&self, g: u64, v: u32) -> Option<GrantVersion> {
        let k = spec_pair_key(g, v);
        if self.versions@.contains_key(k) {
            Some(self.versions@[k])
        } else {
            None
        }
    }

    /// The amendment of grant `g` at version `v`, if stored.
    pub open spec fn amendment(&self, g: u64, v: u32) -> Option<Amendment> {
        let k = spec_pair_key(g, v);
        if self.amendments@.contains_key(k) {
            Some(self.amendments@[k])
        } else {
            None
        }
    }

    /// Every stored amendment names one new value per changed field, every
    /// stored snapshot is numbered by the version it is stored under, every
    /// grant's current version has its snapshot stored, and every version in
    /// a grant's history has its amendment stored.
    pub open spec fn wf(&self) -> bool {
        &&& forall|k: u128| #[trigger] self.amendments@.contains_key(k) ==>
            self.amendments@[k].changed_fields.len() == self.amendments@[k].new_values.len()
        &&& versions_tagged(self.versions@)
        &&& current_recorded(self.current@, self.versions@)
        &&& history_recorded(self.history@, self.amendments@)
    }

    /// An empty store.
    pub fn new() -> (s: Self)
        ensures
            s.versions@ == Map::<u128, GrantVersion>::empty(),
            s.current@ == Map::<u64, u32>::empty(),
            s.amendments@ == Map::<u128, Amendment>::empty(),
            s.history@ == Map::<u64, Vec<u32>>::empty(),
            s.wf(),
    {
        let s = VersionStore {
            versions: HashMap::new(),
            current: HashMap::new(),
            amendments: HashMap::new(),
            history: HashMap::new(),
        };
        assert(versions_tagged(s.versions@)) by {
            reveal(versions_tagged);
        }
        assert(current_recorded(s.current@, s.versions@)) by {
            reveal(current_recorded);
        }
        assert(history_recorded(s.history@, s.amendments@)) by {
            reveal(history_recorded);
        }
        s
    }
}

/// Every snapshot stored under version `v` of a grant is numbered `v`.
#[verifier::opaque]
pub open spec fn versions_tagged(m: Map<u128, GrantVersion>) -> bool {
    forall|g: u64, v: u32| #[trigger] m.contains_key(spec_pair_key(g, v)) ==> m[spec_pair_key(g, v)].version == v
}

/// The current version of every grant in `current` has its snapshot in
/// `versions`.
#[verifier::opaque]
pub open spec fn current_recorded(current: Map<u64, u32>, versions: Map<u128, GrantVersion>) -> bool {
    forall|g: u64| #[trigger] current.contains_key(g) ==> versions.contains_key(spec_pair_key(g, current[g]))
}

/// Every version in the histories `history` has its amendment in
/// `amendments`.
#[verifier::opaque]
pub open spec fn history_recorded(history: Map<u64, Vec<u32>>, amendments: Map<u128, Amendment>) -> bool {
    forall|g: u64, i: int| history.contains_key(g) && 0 <= i < history[g]@.len() ==>
        amendments.contains_key(spec_pair_key(g, #[trigger] history[g]@[i]))
}

/// Storing a snapshot numbered `v` under version `v` of grant `g` and making
/// it current keeps the numbering and the current snapshots recorded.
proof fn lemma_record_current(
    current: Map<u64, u32>,
    versions: Map<u128, GrantVersion>,
    g: u64,
    v: u32,
    x: GrantVersion,
)
    requires
        versions_tagged(versions),
        current_recorded(current, versions),
        x.version == v,
    ensures
        versions_tagged(versions.insert(spec_pair_key(g, v), x)),
        current_recorded(current.insert(g, v), versions.insert(spec_pair_key(g, v), x)),
{
    reveal(versions_tagged);
    reveal(current_recorded);
    let m2 = versions.insert(spec_pair_key(g, v), x);
    assert forall|g2: u64, v2: u32| #[trigger] m2.contains_key(spec_pair_key(g2, v2)) implies m2[spec_pair_key(g2, v2)].version == v2 by {
        lemma_pair_key_injective(g, v, g2, v2);
        if spec_pair_key(g2, v2) != spec_pair_key(g, v) {
            assert(versions.contains_key(spec_pair_key(g2, v2)));
        }
    }
}

/// Storing an amendment under version `v` of grant `g` and appending `v` to
/// its history keeps every history recorded.
proof fn lemma_record_history(
    history: Map<u64, Vec<u32>>,
    amendments: Map<u128, Amendment>,
    g: u64,
    v: u32,
    a: Amendment,
    hist: Vec<u32>,
)
    requires
        history_recorded(history, amendments),
        hist@ == (if history.contains_key(g) { history[g]@ } else { Seq::<u32>::empty() }).push(v),
    ensures
        history_recorded(history.insert(g, hist), amendments.insert(spec_pair_key(g, v), a)),
{
    reveal(history_recorded);
    let h2 = history.insert(g, hist);
    let a2 = amendments.insert(spec_pair_key(g, v), a);
    assert forall|g2: u64, i: int| h2.contains_key(g2) && 0 <= i < h2[g2]@.len() implies
        a2.contains_key(spec_pair_key(g2, #[trigger] h2[g2]@[i])) by {
        if g2 == g {
            if i < hist@.len() - 1 {
                assert(history[g]@[i] == hist@[i]);
            }
        } else {
            assert(history[g2]@[i] == h2[g2]@[i]);
        }
    }
}

/// Replacing an amendment that is already stored keeps every history
/// recorded.
proof fn lemma_history_replace(history: Map<u64, Vec<u32>>, amendments: Map<u128, Amendment>, k: u128, a: Amendment)
    requires
        history_recorded(history, amendments),
        amendments.contains_key(k),
    ensures
        history_recorded(history, amendments.insert(k, a)),
{
    reveal(history_recorded);
    assert forall|g2: u64, i: int| history.contains_key(g2) && 0 <= i < history[g2]@.len() implies
        amendments.insert(k, a).contains_key(spec_pair_key(g2, #[trigger] history[g2]@[i])) by {
        assert(amendments.contains_key(spec_pair_key(g2, history[g2]@[i])));
    }
}

/// A copy of a snapshot.
fn copy_version(v: &GrantVersion) -> (r: GrantVersion)
    ensures
        same_version(r, *v),
{
    GrantVersion {
        grant_id: v.grant_id,
        version: v.version,
        title: copy_bytes(&v.title),
        description: copy_bytes(&v.description),
        total_amount: v.total_amount,
        total_milestones: v.total_milestones,
        created_at: v.created_at,
        amendment_id: v.amendment_id,
    }
}

/// A snapshot of `grant` as version `version`, taken at time `now`.
pub fn grant_to_version(grant: &Grant, version: u32, amendment_id: Option<u32>, now: u64) -> (v: GrantVersion)
    ensures
        version_of(v, *grant, version, amendment_id, now),
{
    GrantVersion {
        grant_id: grant.id,
        version,
        title: copy_bytes(&grant.title),
        description: copy_bytes(&grant.description),
        total_amount: grant.total_amount,
        total_milestones: grant.total_milestones,
        created_at: now,
        amendment_id,
    }
}

/// Record `grant` as version 1 of itself and make that its current version.
pub fn create_initial_version(vs: &mut VersionStore, grant: &Grant, now: u64)
    requires
        old(vs).wf(),
    ensures
        final(vs).wf(),
        final(vs).versions@.contains_key(spec_pair_key(grant.id, 1)),
        version_of(final(vs).versions@[spec_pair_key(grant.id, 1)], *grant, 1, None, now),
        final(vs).versions@ == old(vs).versions@.insert(
            spec_pair_key(grant.id, 1),
            final(vs).versions@[spec_pair_key(grant.id, 1)],
        ),
        final(vs).current@ == old(vs).current@.insert(grant.id, 1),
        final(vs).amendments@ == old(vs).amendments@,
        final(vs).history@ == old(vs).history@,
{
    let snapshot = grant_to_version(grant, 1, None, now);
    let k = pair_key(grant.id, 1);
    proof {
        lemma_record_current(vs.current@, vs.versions@, grant.id, 1, snapshot);
    }
    vs.versions.insert(k, snapshot);
    vs.current.insert(grant.id, 1);
}

/// The current version number of a grant (0 before any snapshot).
pub fn current_version(vs: &VersionStore, grant_id: u64) -> (r: u32)
    ensures
        r == vs.current_of(grant_id),
{
    match vs.current.get(&grant_id) {
        Some(v) => *v,
        None => 0,
    }
}

/// The snapshot of a grant at a given version.
pub fn get_version(vs: &VersionStore, grant_id: u64, version: u32) -> (r: Option<&GrantVersion>)
    ensures
        match r {
            Some(v) => vs.version(grant_id, version) == Some(*v),
            None => vs.version(grant_id, version) is None,
        },
{
    let k = pair_key(grant_id, version);
    vs.versions.get(&k)
}

/// The fields of the current snapshot of grant `g`: version, title,
/// description, total amount, number of milestones. Before any snapshot they
/// are those of the grant itself, as version 1.
pub open spec fn spec_snapshot(store: GrantStore, vs: VersionStore, g: u64) -> (u32, Seq<u8>, Seq<u8>, i128, u32) {
    if vs.current_of(g) == 0 {
        let gr = store.grant(g)->Some_0;
        (1, gr.title@, gr.description@, gr.total_amount, gr.total_milestones)
    } else {
        let v = vs.version(g, vs.current_of(g))->Some_0;
        (v.version, v.title@, v.description@, v.total_amount, v.total_milestones)
    }
}

/// Whether grant `g` has a current snapshot (or a grant to take one from).
pub open spec fn snapshot_exists(store: GrantStore, vs: VersionStore, g: u64) -> bool {
    if vs.current_of(g) == 0 {
        store.grant(g) is Some
    } else {
        vs.version(g, vs.current_of(g)) is Some
    }
}

/// The current snapshot of a grant, without recording anything.
fn peek_snapshot(store: &GrantStore, vs: &VersionStore, grant_id: u64, now: u64) -> (r: Result<GrantVersion, ContractError>)
    ensures
        match r {
            Ok(v) => {
                &&& snapshot_exists(*store, *vs, grant_id)
                &&& (v.version, v.title@, v.description@, v.total_amount, v.total_milestones)
                    == spec_snapshot(*store, *vs, grant_id)
                &&& vs.current_of(grant_id) == 0 ==> version_of(v, store.grant(grant_id)->Some_0, 1, None, now)
            },
            Err(e) => !snapshot_exists(*store, *vs, grant_id) && e == ContractError::GrantNotFound,
        },
{
    let current = current_version(vs, grant_id);
    if current == 0 {
        match store.get_grant(grant_id) {
            Some(grant) => Ok(grant_to_version(grant, 1, None, now)),
            None => Err(ContractError::GrantNotFound),
        }
    } else {
        match get_version(vs, grant_id, current) {
            Some(v) => Ok(copy_version(v)),
            None => Err(ContractError::GrantNotFound),
        }
    }
}

/// The current snapshot of a grant. Before any snapshot exists, version 1 is
/// taken from the grant and recorded as current.
pub fn current_snapshot(store: &GrantStore, vs: &mut VersionStore, grant_id: u64, now: u64) -> (r: Result<GrantVersion, ContractError>)
    requires
        old(vs).wf(),
    ensures
        final(vs).wf(),
        match r {
            Ok(v) => {
                &&& snapshot_exists(*store, *old(vs), grant_id)
                &&& (v.version, v.title@, v.description@, v.total_amount, v.total_milestones)
                    == spec_snapshot(*store, *old(vs), grant_id)
                &&& final(vs).current_of(grant_id) == (if old(vs).current_of(grant_id) == 0 { 1 } else { old(vs).current_of(grant_id) })
            },
            Err(e) => !snapshot_exists(*store, *old(vs), grant_id) && e == ContractError::GrantNotFound,
        },
        old(vs).current_of(grant_id) != 0 || r is Err ==> {
            &&& final(vs).versions@ == old(vs).versions@
            &&& final(vs).current@ == old(vs).current@
        },
        old(vs).current_of(grant_id) == 0 && r is Ok ==> {
            &&& final(vs).current@ == old(vs).current@.insert(grant_id, 1)
            &&& final(vs).versions@.contains_key(spec_pair_key(grant_id, 1))
            &&& same_version(final(vs).versions@[spec_pair_key(grant_id, 1)], r->Ok_0)
            &&& final(vs).versions@ == old(vs).versions@.insert(
                spec_pair_key(grant_id, 1),
                final(vs).versions@[spec_pair_key(grant_id, 1)],
            )
        },
        final(vs).amendments@ == old(vs).amendments@,
        final(vs).history@ == old(vs).history@,
{
    let snap = peek_snapshot(store, vs, grant_id, now)?;
    if current_version(vs, grant_id) == 0 {
        let k = pair_key(grant_id, 1);
        let c = copy_version(&snap);
        proof {
            lemma_record_current(vs.current@, vs.versions@, grant_id, 1, c);
        }
        vs.versions.insert(k, c);
        vs.current.insert(grant_id, 1);
    }
    Ok(snap)
}

/// The amendment history of a grant: the stored amendments of the versions
/// in its history, in order.
pub open spec fn spec_history_amendments(vs: VersionStore, g: u64, hist: Seq<u32>) -> Seq<Amendment>
    decreases hist.len(),
{
    if hist.len() == 0 {
        Seq::empty()
    } else {
        let rest = spec_history_amendments(vs, g, hist.drop_last());
        match vs.amendment(g, hist.last()) {
            Some(a) => rest.push(a),
            None => rest,
        }
    }
}

/// In a well-formed store a grant with a current version has its current
/// snapshot stored.
pub proof fn lemma_current_snapshot_stored(store: GrantStore, vs: VersionStore, g: u64)
    requires
        vs.wf(),
        vs.current_of(g) != 0,
    ensures
        vs.version(g, vs.current_of(g)) is Some,
        snapshot_exists(store, vs, g),
{
    reveal(current_recorded);
    assert(vs.current@.contains_key(g));
}

/// In a well-formed store the amendment history of a grant lists one
/// amendment per version in its history, each the one stored for that
/// version.
pub proof fn lemma_history_complete(vs: VersionStore, g: u64)
    requires
        vs.wf(),
    ensures
        spec_history_amendments(vs, g, vs.history_of(g)).len() == vs.history_of(g).len(),
        forall|i: int| 0 <= i < vs.history_of(g).len() ==>
            vs.amendment(g, #[trigger] vs.history_of(g)[i]) == Some(spec_history_amendments(vs, g, vs.history_of(g))[i]),
{
    reveal(history_recorded);
    let h = vs.history_of(g);
    assert forall|i: int| 0 <= i < h.len() implies #[trigger] vs.amendment(g, h[i]) is Some by {
        assert(vs.history@.contains_key(g));
        assert(vs.amendments@.contains_key(spec_pair_key(g, vs.history@[g]@[i])));
    }
    lemma_history_amendments_all(vs, g, h);
}

proof fn lemma_history_amendments_all(vs: VersionStore, g: u64, hist: Seq<u32>)
    requires
        forall|i: int| 0 <= i < hist.len() ==> #[trigger] vs.amendment(g, hist[i]) is Some,
    ensures
        spec_history_amendments(vs, g, hist).len() == hist.len(),
        forall|i: int| 0 <= i < hist.len() ==>
            vs.amendment(g, #[trigger] hist[i]) == Some(spec_history_amendments(vs, g, hist)[i]),
    decreases hist.len(),
{
    if hist.len() > 0 {
        let rest = hist.drop_last();
        assert forall|i: int| 0 <= i < rest.len() implies #[trigger] vs.amendment(g, rest[i]) is Some by {
            assert(rest[i] == hist[i]);
        }
        lemma_history_amendments_all(vs, g, rest);
        assert(vs.amendment(g, hist[hist.len() - 1]) is Some);
        assert forall|i: int| 0 <= i < hist.len() implies
            vs.amendment(g, #[trigger] hist[i]) == Some(spec_history_amendments(vs, g, hist)[i]) by {
            if i < rest.len() {
                assert(rest[i] == hist[i]);
            }
        }
    }
}

/// The full amendment history of a grant, oldest first.
pub fn amendment_history<'a>(vs: &'a VersionStore, grant_id: u64) -> (r: Vec<&'a Amendment>)
    ensures
        r@.len() == spec_history_amendments(*vs, grant_id, vs.history_of(grant_id)).len(),
        forall|i: int| 0 <= i < r@.len() ==>
            *r@[i] == spec_history_amendments(*vs, grant_id, vs.history_of(grant_id))[i],
{
    let mut out: Vec<&'a Amendment> = Vec::new();
    let hist: &Vec<u32> = match vs.history.get(&grant_id) {
        Some(h) => h,
        None => {
            return out;
        },
    };
    let ghost h = vs.history_of(grant_id);
    assert(hist@ == h);
    let mut i: usize = 0;
    while i < hist.len()
        invariant
            i <= hist.len(),
            hist@ == h,
            out@.len() == spec_history_amendments(*vs, grant_id, h.take(i as int)).len(),
            forall|j: int| 0 <= j < out@.len() ==>
                *out@[j] == spec_history_amendments(*vs, grant_id, h.take(i as int))[j],
        decreases hist.len() - i,
    {
        assert(h.take(i + 1).drop_last() =~= h.take(i as int));
        let k = pair_key(grant_id, hist[i]);
        match vs.amendments.get(&k) {
            Some(a) => {
                out.push(a);
            },
            None => {},
        }
        i = i + 1;
    }
    assert(h.take(hist.len() as int) =~= h);
    out
}

/// The value that field `f` had in a snapshot, as text.
pub open spec fn spec_previous_value(snap: (u32, Seq<u8>, Seq<u8>, i128, u32), f: AmendableField) -> Seq<u8> {
    match f {
        AmendableField::Title => snap.1,
        AmendableField::Description => snap.2,
        AmendableField::TotalAmount => spec_decimal(snap.3 as int),
        AmendableField::TotalMilestones => spec_decimal(snap.4 as int),
    }
}

/// Whether every changed field names an amendable field.
pub open spec fn all_known(fields: Seq<Vec<u8>>) -> bool {
    forall|i: int| 0 <= i < fields.len() ==> (#[trigger] spec_classify(fields[i]@)) is Some
}

/// The version number after `v` (saturating).
pub open spec fn next_version(v: u32) -> u32 {
    if v == u32::MAX { u32::MAX } else { (v + 1) as u32 }
}

/// Propose an amendment to a grant. Owner only.
///
/// Fails with `InvalidInput` when no field is named or the numbers of fields
/// and values differ, `GrantNotFound` when the grant (or its current snapshot)
/// is missing, `Unauthorized` when `owner` is not the grant's owner, and
/// `InvalidInput` when a field is not amendable. Otherwise records the
/// amendment as the version after the current one (plus one, saturating;
/// a grant with no version yet is first recorded as version 1), with each
/// changed field's value in the current snapshot, and appends it to the
/// grant's amendment history. It is approved at once unless it changes a
/// material field. On error nothing changes.
#[verifier::loop_isolation(false)]
pub fn propose_amendment(
    store: &GrantStore,
    vs: &mut VersionStore,
    owner: u64,
    grant_id: u64,
    changed_fields: Vec<Vec<u8>>,
    new_values: Vec<Vec<u8>>,
    rationale: Vec<u8>,
    now: u64,
) -> (r: Result<u32, ContractError>)
    requires
        old(vs).wf(),
    ensures
        final(vs).wf(),
        (changed_fields.len() == 0 || changed_fields.len() != new_values.len()) ==> r == Err::<u32, ContractError>(ContractError::InvalidInput),
        changed_fields.len() != 0 && changed_fields.len() == new_values.len() ==> {
            if store.grant(grant_id) is None {
                r == Err::<u32, ContractError>(ContractError::GrantNotFound)
            } else if store.grant(grant_id)->Some_0.owner != owner {
                r == Err::<u32, ContractError>(ContractError::Unauthorized)
            } else if !snapshot_exists(*store, *old(vs), grant_id) {
                r == Err::<u32, ContractError>(ContractError::GrantNotFound)
            } else if !all_known(changed_fields@) {
                r == Err::<u32, ContractError>(ContractError::InvalidInput)
            } else {
                r is Ok
            }
        },
        r is Err ==> {
            &&& final(vs).versions@ == old(vs).versions@
            &&& final(vs).current@ == old(vs).current@
            &&& final(vs).amendments@ == old(vs).amendments@
            &&& final(vs).history@ == old(vs).history@
        },
        r is Ok ==> {
            let snap = spec_snapshot(*store, *old(vs), grant_id);
            let v = r->Ok_0;
            let k = spec_pair_key(grant_id, v);
            let a = final(vs).amendments@[k];
            let material = spec_is_material(changed_fields@);
            &&& v == next_version(snap.0)
            &&& v == next_version(if old(vs).current_of(grant_id) == 0 { 1 } else { old(vs).current_of(grant_id) })
            &&& final(vs).amendments@.contains_key(k)
            &&& final(vs).amendments@ == old(vs).amendments@.insert(k, a)
            &&& a.grant_id == grant_id
            &&& a.version == v
            &&& a.proposed_by == owner
            &&& a.changed_fields == changed_fields
            &&& a.new_values == new_values
            &&& a.rationale == rationale
            &&& a.previous_values.len() == changed_fields.len()
            &&& forall|i: int| 0 <= i < changed_fields.len() ==>
                (#[trigger] a.previous_values@[i])@ == spec_previous_value(snap, spec_classify(changed_fields@[i]@)->Some_0)
            &&& a.status == (if material { AmendmentStatus::Proposed } else { AmendmentStatus::Approved })
            &&& a.resolved_at == (if material { None } else { Some(now) })
            &&& a.reviewer_votes@.len() == 0
            &&& a.proposed_at == now
            &&& final(vs).history_of(grant_id) == old(vs).history_of(grant_id).push(v)
            &&& !old(vs).history_of(grant_id).contains(v) ==>
                spec_history_amendments(*final(vs), grant_id, final(vs).history_of(grant_id))
                    == spec_history_amendments(*old(vs), grant_id, old(vs).history_of(grant_id)).push(a)
            &&& forall|g: u64| g != grant_id ==> final(vs).history_of(g) == old(vs).history_of(g)
            &&& final(vs).current_of(grant_id) == (if old(vs).current_of(grant_id) == 0 { 1 } else { old(vs).current_of(grant_id) })
            &&& final(vs).current@ == (if old(vs).current_of(grant_id) == 0 { old(vs).current@.insert(grant_id, 1) } else { old(vs).current@ })
        },
        r is Ok && old(vs).current_of(grant_id) != 0 ==> final(vs).versions@ == old(vs).versions@,
        r is Ok && old(vs).current_of(grant_id) == 0 ==> {
            let k1 = spec_pair_key(grant_id, 1);
            &&& final(vs).versions@.contains_key(k1)
            &&& final(vs).versions@ == old(vs).versions@.insert(k1, final(vs).versions@[k1])
            &&& version_of(final(vs).versions@[k1], store.grant(grant_id)->Some_0, 1, None, now)
        },
{
    if changed_fields.len() == 0 || changed_fields.len() != new_values.len() {
        return Err(ContractError::InvalidInput);
    }
    let grant = match store.get_grant(grant_id) {
        Some(g) => g,
        None => {
            return Err(ContractError::GrantNotFound);
        },
    };
    if grant.owner != owner {
        return Err(ContractError::Unauthorized);
    }
    let current = peek_snapshot(store, vs, grant_id, now)?;
    let ghost snap = spec_snapshot(*store, *vs, grant_id);
    assert(snap.0 == (if vs.current_of(grant_id) == 0 { 1 } else { vs.current_of(grant_id) })) by {
        reveal(versions_tagged);
    }
    let ghost vs0 = *vs;
    let amendment_version = current.version.saturating_add(1);
    let mut previous_values: Vec<Vec<u8>> = Vec::new();
    let mut i: usize = 0;
    while i < changed_fields.len()
        invariant
            i <= changed_fields.len(),
            previous_values.len() == i,
            snap == (current.version, current.title@, current.description@, current.total_amount, current.total_milestones),
            forall|j: int| 0 <= j < i ==> (#[trigger] spec_classify(changed_fields@[j]@)) is Some,
            forall|j: int| 0 <= j < i ==>
                (#[trigger] previous_values@[j])@ == spec_previous_value(snap, spec_classify(changed_fields@[j]@)->Some_0),
        decreases changed_fields.len() - i,
    {
        let value = match classify_field(&changed_fields[i]) {
            Some(AmendableField::Title) => copy_bytes(&current.title),
            Some(AmendableField::Description) => copy_bytes(&current.description),
            Some(AmendableField::TotalAmount) => int_to_string(current.total_amount),
            Some(AmendableField::TotalMilestones) => int_to_string(current.total_milestones as i128),
            None => {
                assert(!all_known(changed_fields@));
                return Err(ContractError::InvalidInput);
            },
        };
        previous_values.push(value);
        i = i + 1;
    }
    let material = is_material(&changed_fields);
    let status = if material {
        AmendmentStatus::Proposed
    } else {
        AmendmentStatus::Approved
    };
    let resolved_at = if material {
        None
    } else {
        Some(now)
    };
    if current_version(vs, grant_id) == 0 {
        let k1 = pair_key(grant_id, 1);
        let v1 = grant_to_version(grant, 1, None, now);
        proof {
            lemma_record_current(vs.current@, vs.versions@, grant_id, 1, v1);
        }
        vs.versions.insert(k1, v1);
        vs.current.insert(grant_id, 1);
    }
    let amendment = Amendment {
        grant_id,
        version: amendment_version,
        proposed_by: owner,
        changed_fields,
        previous_values,
        new_values,
        rationale,
        status,
        reviewer_votes: Vec::new(),
        proposed_at: now,
        resolved_at,
    };
    let k = pair_key(grant_id, amendment_version);
    let ghost h_before = vs.history@;
    let ghost a_before = vs.amendments@;
    let ghost new_amendment = amendment;
    vs.amendments.insert(k, amendment);
    let mut history: Vec<u32> = match vs.history.remove(&grant_id) {
        Some(h) => h,
        None => Vec::new(),
    };
    history.push(amendment_version);
    proof {
        lemma_record_history(h_before, a_before, grant_id, amendment_version, new_amendment, history);
    }
    vs.history.insert(grant_id, history);
    assert(vs.history@ =~= h_before.insert(grant_id, history));
    proof {
        let h0 = vs0.history_of(grant_id);
        if !h0.contains(amendment_version) {
            assert forall|w: u32| h0.contains(w) implies #[trigger] vs.amendment(grant_id, w) == vs0.amendment(grant_id, w) by {
                lemma_pair_key_injective(grant_id, w, grant_id, amendment_version);
            }
            lemma_history_amendments_frame(vs0, *vs, grant_id, h0);
            assert(vs.history_of(grant_id).drop_last() =~= h0);
        }
    }
    Ok(amendment_version)
}

/// The amendment history read through `hist` is the same in two stores that
/// hold the same amendments for the versions in `hist`.
proof fn lemma_history_amendments_frame(vs1: VersionStore, vs2: VersionStore, g: u64, hist: Seq<u32>)
    requires
        forall|w: u32| hist.contains(w) ==> #[trigger] vs2.amendment(g, w) == vs1.amendment(g, w),
    ensures
        spec_history_amendments(vs2, g, hist) == spec_history_amendments(vs1, g, hist),
    decreases hist.len(),
{
    if hist.len() > 0 {
        let rest = hist.drop_last();
        assert forall|w: u32| rest.contains(w) implies #[trigger] vs2.amendment(g, w) == vs1.amendment(g, w) by {
            let i = choose|i: int| 0 <= i < rest.len() && rest[i] == w;
            assert(hist[i] == w);
        }
        lemma_history_amendments_frame(vs1, vs2, g, rest);
        assert(hist.contains(hist.last())) by {
            assert(hist[hist.len() - 1] == hist.last());
        }
    }
}


/// The number of votes in `votes` that are `approve`.
pub open spec fn count_votes(votes: Seq<ReviewerVote>, approve: bool) -> nat
    decreases votes.len(),
{
    if votes.len() == 0 {
        0
    } else {
        count_votes(votes.drop_last(), approve) + (if votes.last().approve == approve { 1nat } else { 0nat })
    }
}

/// Whether the account has a vote in `votes`.
pub open spec fn has_voted(votes: Seq<ReviewerVote>, reviewer: u64) -> bool {
    exists|i: int| 0 <= i < votes.len() && (#[trigger] votes[i]).reviewer == reviewer
}

/// Where an amendment stands after `votes` from a grant with `n` evaluators:
/// approved once more than half of the evaluators approve, rejected once more
/// than half reject, proposed otherwise.
pub open spec fn tally_status(votes: Seq<ReviewerVote>, n: nat) -> AmendmentStatus {
    let a = count_votes(votes, true);
    let r = count_votes(votes, false);
    if n > 0 && 2 * a > n {
        AmendmentStatus::Approved
    } else if n > 0 && 2 * r > n {
        AmendmentStatus::Rejected
    } else {
        AmendmentStatus::Proposed
    }
}

/// The numbers of approving and of rejecting votes are the numbers of votes
/// of each kind in the list.
proof fn lemma_count_votes_filter(votes: Seq<ReviewerVote>)
    ensures
        count_votes(votes, true) == votes.filter(|v: ReviewerVote| v.approve).len(),
        count_votes(votes, false) == votes.filter(|v: ReviewerVote| !v.approve).len(),
    decreases votes.len(),
{
    if votes.len() > 0 {
        lemma_count_votes_filter(votes.drop_last());
        assert(votes.drop_last().push(votes.last()) =~= votes);
        votes.drop_last().lemma_filter_push(votes.last(), |v: ReviewerVote| v.approve);
        votes.drop_last().lemma_filter_push(votes.last(), |v: ReviewerVote| !v.approve);
    } else {
        reveal(Seq::filter);
    }
}

/// An amendment voted on by a grant with `n` evaluators is approved exactly
/// when strictly more than half of them approve it, rejected exactly when
/// that is not so and strictly more than half reject it, and proposed
/// otherwise: half of the evaluators is never enough.
pub proof fn lemma_strict_majority(votes: Seq<ReviewerVote>, n: nat)
    ensures
        ({
            let a = votes.filter(|v: ReviewerVote| v.approve).len();
            let r = votes.filter(|v: ReviewerVote| !v.approve).len();
            &&& tally_status(votes, n) == AmendmentStatus::Approved <==> (n > 0 && 2 * a > n)
            &&& tally_status(votes, n) == AmendmentStatus::Rejected <==> (n > 0 && 2 * a <= n && 2 * r > n)
            &&& tally_status(votes, n) == AmendmentStatus::Proposed <==> (2 * a <= n && 2 * r <= n) || n == 0
        }),
{
    lemma_count_votes_filter(votes);
}

/// A evaluator of the grant votes on a proposed amendment.
///
/// Fails with `GrantNotFound`, `Unauthorized` (not a evaluator of the grant),
/// `InvalidInput` (no such amendment), `InvalidState` (not proposed) or
/// `AlreadyVoted`, in that order. Otherwise records the vote and returns the
/// amendment's status after tallying all votes; resolving it stamps the time.
#[verifier::loop_isolation(false)]
pub fn vote_amendment(
    store: &GrantStore,
    vs: &mut VersionStore,
    reviewer: u64,
    grant_id: u64,
    amendment_version: u32,
    approve: bool,
    now: u64,
) -> (r: Result<AmendmentStatus, ContractError>)
    requires
        old(vs).wf(),
    ensures
        final(vs).wf(),
        final(vs).versions@ == old(vs).versions@,
        final(vs).current@ == old(vs).current@,
        final(vs).history@ == old(vs).history@,
        ({
            let k = spec_pair_key(grant_id, amendment_version);
            if store.grant(grant_id) is None {
                r == Err::<AmendmentStatus, ContractError>(ContractError::GrantNotFound)
            } else if !store.grant(grant_id)->Some_0.reviewers@.contains(reviewer) {
                r == Err::<AmendmentStatus, ContractError>(ContractError::Unauthorized)
            } else if !old(vs).amendments@.contains_key(k) {
                r == Err::<AmendmentStatus, ContractError>(ContractError::InvalidInput)
            } else if old(vs).amendments@[k].status != AmendmentStatus::Proposed {
                r == Err::<AmendmentStatus, ContractError>(ContractError::InvalidState)
            } else if has_voted(old(vs).amendments@[k].reviewer_votes@, reviewer) {
                r == Err::<AmendmentStatus, ContractError>(ContractError::AlreadyVoted)
            } else {
                let a = old(vs).amendments@[k];
                let votes = a.reviewer_votes@.push(ReviewerVote { reviewer, approve });
                let st = tally_status(votes, store.grant(grant_id)->Some_0.reviewers@.len());
                let b = final(vs).amendments@[k];
                &&& r == Ok::<AmendmentStatus, ContractError>(st)
                &&& final(vs).amendments@ == old(vs).amendments@.insert(k, b)
                &&& b.reviewer_votes@ == votes
                &&& b.status == st
                &&& b.resolved_at == (if st != AmendmentStatus::Proposed { Some(now) } else { a.resolved_at })
                &&& b.grant_id == a.grant_id
                &&& b.version == a.version
                &&& b.proposed_by == a.proposed_by
                &&& b.changed_fields == a.changed_fields
                &&& b.previous_values == a.previous_values
                &&& b.new_values == a.new_values
                &&& b.rationale == a.rationale
                &&& b.proposed_at == a.proposed_at
            }
        }),
        r is Err ==> final(vs).amendments@ == old(vs).amendments@,
{
    let grant = match store.get_grant(grant_id) {
        Some(g) => g,
        None => {
            return Err(ContractError::GrantNotFound);
        },
    };
    if !contains_account(&grant.reviewers, reviewer) {
        return Err(ContractError::Unauthorized);
    }
    let k = pair_key(grant_id, amendment_version);
    let existing = match vs.amendments.get(&k) {
        Some(a) => a,
        None => {
            return Err(ContractError::InvalidInput);
        },
    };
    if existing.status != AmendmentStatus::Proposed {
        return Err(ContractError::InvalidState);
    }
    let mut i: usize = 0;
    while i < existing.reviewer_votes.len()
        invariant
            i <= existing.reviewer_votes.len(),
            forall|j: int| 0 <= j < i ==> (#[trigger] existing.reviewer_votes@[j]).reviewer != reviewer,
        decreases existing.reviewer_votes.len() - i,
    {
        if existing.reviewer_votes[i].reviewer == reviewer {
            assert(has_voted(existing.reviewer_votes@, reviewer));
            return Err(ContractError::AlreadyVoted);
        }
        i = i + 1;
    }
    let ghost old_amendments = vs.amendments@;
    let mut amendment = vs.amendments.remove(&k).unwrap();
    let ghost a0 = amendment;
    amendment.reviewer_votes.push(ReviewerVote { reviewer, approve });
    let ghost votes = amendment.reviewer_votes@;
    let mut approvals: usize = 0;
    let mut rejections: usize = 0;
    let mut j: usize = 0;
    assert(votes.take(0) =~= Seq::<ReviewerVote>::empty());
    while j < amendment.reviewer_votes.len()
        invariant
            j <= amendment.reviewer_votes.len(),
            amendment.reviewer_votes@ == votes,
            approvals as nat == count_votes(votes.take(j as int), true),
            rejections as nat == count_votes(votes.take(j as int), false),
            approvals + rejections == j,
        decreases amendment.reviewer_votes.len() - j,
    {
        assert(votes.take(j + 1).drop_last() =~= votes.take(j as int));
        if amendment.reviewer_votes[j].approve {
            approvals = approvals + 1;
        } else {
            rejections = rejections + 1;
        }
        j = j + 1;
    }
    assert(votes.take(votes.len() as int) =~= votes);
    let total_reviewers = grant.reviewers.len();
    let approval_quorum = total_reviewers > 0 && approvals > total_reviewers / 2;
    let rejection_quorum = total_reviewers > 0 && rejections > total_reviewers / 2;
    if approval_quorum {
        amendment.status = AmendmentStatus::Approved;
        amendment.resolved_at = Some(now);
    } else if rejection_quorum {
        amendment.status = AmendmentStatus::Rejected;
        amendment.resolved_at = Some(now);
    }
    let status = amendment.status;
    proof {
        lemma_history_replace(vs.history@, old_amendments, k, amendment);
    }
    vs.amendments.insert(k, amendment);
    assert(vs.amendments@ =~= old_amendments.insert(k, vs.amendments@[k]));
    Ok(status)
}

// ---------------------------------------------------------------------------
// Applying amendments
// ---------------------------------------------------------------------------

/// The new text of field `f` among the first `n` changes: the value of the
/// last change that names it.
pub open spec fn last_text(fields: Seq<Vec<u8>>, values: Seq<Vec<u8>>, f: AmendableField, n: int) -> Option<Seq<u8>>
    decreases n,
{
    if n <= 0 {
        None
    } else if spec_classify(fields[n - 1]@) == Some(f) {
        Some(values[n - 1]@)
    } else {
        last_text(fields, values, f, n - 1)
    }
}

/// The new total amount among the first `n` changes: the value of the last
/// change of it whose text parses as an `i128`.
pub open spec fn last_amount(fields: Seq<Vec<u8>>, values: Seq<Vec<u8>>, n: int) -> Option<int>
    decreases n,
{
    if n <= 0 {
        None
    } else if spec_classify(fields[n - 1]@) == Some(AmendableField::TotalAmount)
        && spec_parse_int(values[n - 1]@) is Some {
        spec_parse_int(values[n - 1]@)
    } else {
        last_amount(fields, values, n - 1)
    }
}

/// Whether text parses as a `u32`.
pub open spec fn parses_u32(s: Seq<u8>) -> bool {
    spec_parse_int(s) is Some && 0 <= spec_parse_int(s)->Some_0 <= u32::MAX
}

/// The new number of milestones among the first `n` changes: the value of
/// the last change of it whose text parses as a `u32`.
pub open spec fn last_count(fields: Seq<Vec<u8>>, values: Seq<Vec<u8>>, n: int) -> Option<int>
    decreases n,
{
    if n <= 0 {
        None
    } else if spec_classify(fields[n - 1]@) == Some(AmendableField::TotalMilestones)
        && parses_u32(values[n - 1]@) {
        spec_parse_int(values[n - 1]@)
    } else {
        last_count(fields, values, n - 1)
    }
}

/// The new text of field `f` that amendment `a` sets, if any.
pub open spec fn amended_text(a: Amendment, f: AmendableField) -> Option<Seq<u8>> {
    last_text(a.changed_fields@, a.new_values@, f, a.changed_fields@.len() as int)
}

/// The new total amount that amendment `a` sets, if any.
pub open spec fn amended_amount(a: Amendment) -> Option<int> {
    last_amount(a.changed_fields@, a.new_values@, a.changed_fields@.len() as int)
}

/// The new number of milestones that amendment `a` sets, if any.
pub open spec fn amended_count(a: Amendment) -> Option<int> {
    last_count(a.changed_fields@, a.new_values@, a.changed_fields@.len() as int)
}

/// `new` if set, else `old`.
pub open spec fn override_text(new: Option<Seq<u8>>, old: Seq<u8>) -> Seq<u8> {
    if new is Some { new->Some_0 } else { old }
}

/// `new` if set, else `old`.
pub open spec fn override_amount(new: Option<int>, old: i128) -> i128 {
    if new is Some { new->Some_0 as i128 } else { old }
}

/// `new` if set, else `old`.
pub open spec fn override_count(new: Option<int>, old: u32) -> u32 {
    if new is Some { new->Some_0 as u32 } else { old }
}

/// Whether the amended budget breaks `milestone_amount * total_milestones <=
/// total_amount` (or overflows computing it).
pub open spec fn breaks_budget(g: Grant, new_amount: Option<int>, new_count: Option<int>) -> bool {
    (new_amount is Some || new_count is Some) && {
        let eff_amount = if new_amount is Some { new_amount->Some_0 } else { g.total_amount as int };
        let eff_count = if new_count is Some { new_count->Some_0 } else { g.total_milestones as int };
        let required = g.milestone_amount * eff_count;
        required < i128::MIN || required > i128::MAX || required > eff_amount
    }
}

/// Whether shrinking to `new_count` milestones would discard one that has
/// progressed past `Pending`.
pub open spec fn shrink_discards_progress(store: GrantStore, g: u64, old_count: u32, new_count: Option<int>) -> bool {
    new_count is Some && new_count->Some_0 < old_count && exists|idx: u32|
        new_count->Some_0 <= idx < old_count && (#[trigger] store.milestone(g, idx)) is Some
            && store.milestone(g, idx)->Some_0.state != MilestoneState::Pending
}

/// Whether `m` is the fresh pending milestone `idx` that a grown grant gets.
pub open spec fn is_fresh_milestone(m: Milestone, idx: u32, amount: i128, now: u64, reviewers: nat) -> bool {
    &&& m.idx == idx
    &&& m.description@.len() == 0
    &&& m.amount == amount
    &&& m.state == MilestoneState::Pending
    &&& m.approvals == 0
    &&& m.rejections == 0
    &&& m.status_updated_at == now
    &&& m.proof_url is None
    &&& m.submission_timestamp == 0
    &&& m.deadline is None
    &&& m.reviewer_count_snapshot as nat == reviewers
}

/// Whether key `k` is that of a milestone `idx` of grant `g` with
/// `lo <= idx < hi`.
pub open spec fn in_milestone_range(k: u128, g: u64, lo: int, hi: int) -> bool {
    spec_pair_key(g, 0) + lo <= k < spec_pair_key(g, 0) + hi
}

/// The pending milestone created when a grant grows to index `idx`.
fn fresh_milestone(idx: u32, amount: i128, now: u64, reviewers: u32) -> (m: Milestone)
    ensures
        is_fresh_milestone(m, idx, amount, now, reviewers as nat),
{
    Milestone {
        idx,
        description: Vec::new(),
        amount,
        state: MilestoneState::Pending,
        approvals: 0,
        rejections: 0,
        status_updated_at: now,
        proof_url: None,
        submission_timestamp: 0,
        deadline: None,
        reviewer_count_snapshot: reviewers,
    }
}

/// Add fresh pending milestones `from..to` to grant `g`.
fn add_milestones(store: &mut GrantStore, g: u64, from: u32, to: u32, amount: i128, now: u64, reviewers: u32)
    requires
        from <= to,
    ensures
        forall|idx: u32| from <= idx < to ==> (#[trigger] final(store).milestone(g, idx)) is Some
            && is_fresh_milestone(final(store).milestone(g, idx)->Some_0, idx, amount, now, reviewers as nat),
        forall|k: u128| !in_milestone_range(k, g, from as int, to as int) ==> (
            #[trigger] final(store).milestones@.contains_key(k) == old(store).milestones@.contains_key(k)
            && (old(store).milestones@.contains_key(k) ==> final(store).milestones@[k] == old(store).milestones@[k])),
        final(store).grants@ == old(store).grants@,
        final(store).contributors@ == old(store).contributors@,
        final(store).global_admin == old(store).global_admin,
        final(store).treasury == old(store).treasury,
{
    let mut idx = from;
    while idx < to
        invariant
            from <= idx <= to,
            forall|i: u32| from <= i < idx ==> (#[trigger] store.milestone(g, i)) is Some
                && is_fresh_milestone(store.milestone(g, i)->Some_0, i, amount, now, reviewers as nat),
            forall|k: u128| !in_milestone_range(k, g, from as int, idx as int) ==> (
                #[trigger] store.milestones@.contains_key(k) == old(store).milestones@.contains_key(k)
                && (old(store).milestones@.contains_key(k) ==> store.milestones@[k] == old(store).milestones@[k])),
            store.grants@ == old(store).grants@,
            store.contributors@ == old(store).contributors@,
            store.global_admin == old(store).global_admin,
            store.treasury == old(store).treasury,
        decreases to - idx,
    {
        let ghost s0 = *store;
        store.set_milestone(g, idx, fresh_milestone(idx, amount, now, reviewers));
        proof {
            lemma_pair_key_offset(g, idx);
        }
        assert forall|i: u32| from <= i < idx + 1 implies (#[trigger] store.milestone(g, i)) is Some
            && is_fresh_milestone(store.milestone(g, i)->Some_0, i, amount, now, reviewers as nat) by {
            lemma_pair_key_injective(g, i, g, idx);
            if i < idx {
                assert(s0.milestone(g, i) is Some);
            }
        }
        assert forall|k: u128| !in_milestone_range(k, g, from as int, idx + 1) implies (
            #[trigger] store.milestones@.contains_key(k) == old(store).milestones@.contains_key(k)
            && (old(store).milestones@.contains_key(k) ==> store.milestones@[k] == old(store).milestones@[k])) by {
            assert(!in_milestone_range(k, g, from as int, idx as int));
            assert(s0.milestones@.contains_key(k) == old(store).milestones@.contains_key(k));
        }
        idx = idx + 1;
    }
}

/// Remove milestones `from..to` of grant `g`.
fn remove_milestones(store: &mut GrantStore, g: u64, from: u32, to: u32)
    requires
        from <= to,
    ensures
        forall|idx: u32| from <= idx < to ==> (#[trigger] final(store).milestone(g, idx)) is None,
        forall|k: u128| !in_milestone_range(k, g, from as int, to as int) ==> (
            #[trigger] final(store).milestones@.contains_key(k) == old(store).milestones@.contains_key(k)
            && (old(store).milestones@.contains_key(k) ==> final(store).milestones@[k] == old(store).milestones@[k])),
        final(store).grants@ == old(store).grants@,
        final(store).contributors@ == old(store).contributors@,
        final(store).global_admin == old(store).global_admin,
        final(store).treasury == old(store).treasury,
{
    let mut idx = from;
    while idx < to
        invariant
            from <= idx <= to,
            forall|i: u32| from <= i < idx ==> (#[trigger] store.milestone(g, i)) is None,
            forall|k: u128| !in_milestone_range(k, g, from as int, idx as int) ==> (
                #[trigger] store.milestones@.contains_key(k) == old(store).milestones@.contains_key(k)
                && (old(store).milestones@.contains_key(k) ==> store.milestones@[k] == old(store).milestones@[k])),
            store.grants@ == old(store).grants@,
            store.contributors@ == old(store).contributors@,
            store.global_admin == old(store).global_admin,
            store.treasury == old(store).treasury,
        decreases to - idx,
    {
        let ghost s0 = *store;
        store.remove_milestone(g, idx);
        proof {
            lemma_pair_key_offset(g, idx);
        }
        assert forall|i: u32| from <= i < idx + 1 implies (#[trigger] store.milestone(g, i)) is None by {
            lemma_pair_key_injective(g, i, g, idx);
            if i < idx {
                assert(s0.milestone(g, i) is None);
            }
        }
        assert forall|k: u128| !in_milestone_range(k, g, from as int, idx + 1) implies (
            #[trigger] store.milestones@.contains_key(k) == old(store).milestones@.contains_key(k)
            && (old(store).milestones@.contains_key(k) ==> store.milestones@[k] == old(store).milestones@[k])) by {
            assert(!in_milestone_range(k, g, from as int, idx as int));
            assert(s0.milestones@.contains_key(k) == old(store).milestones@.contains_key(k));
        }
        idx = idx + 1;
    }
}

/// Whether the milestones `after` are `before` with grant `g` resized from
/// `old_n` to `new_n` milestones: fresh pending ones at the new indices when
/// it grows, none past the end when it shrinks, and every other entry kept.
pub open spec fn milestones_resized(
    before: Map<u128, Milestone>,
    after: Map<u128, Milestone>,
    g: u64,
    old_n: u32,
    new_n: u32,
    amount: i128,
    now: u64,
    reviewers: nat,
) -> bool {
    &&& forall|idx: u32| old_n <= idx < new_n ==>
        #[trigger] after.contains_key(spec_pair_key(g, idx))
        && is_fresh_milestone(after[spec_pair_key(g, idx)], idx, amount, now, reviewers)
    &&& forall|idx: u32| new_n <= idx < old_n ==> !(#[trigger] after.contains_key(spec_pair_key(g, idx)))
    &&& forall|key: u128| !in_milestone_range(key, g,
            if new_n < old_n { new_n as int } else { old_n as int },
            if new_n < old_n { old_n as int } else { new_n as int }) ==> (
        #[trigger] after.contains_key(key) == before.contains_key(key)
        && (before.contains_key(key) ==> after[key] == before[key]))
}

/// Resize grant `g` from `old_n` to `new_n` milestones.
fn resize_milestones(store: &mut GrantStore, g: u64, old_n: u32, new_n: u32, amount: i128, now: u64, reviewers: u32)
    ensures
        milestones_resized(old(store).milestones@, final(store).milestones@, g, old_n, new_n, amount, now,
            reviewers as nat),
        final(store).grants@ == old(store).grants@,
        final(store).contributors@ == old(store).contributors@,
        final(store).global_admin == old(store).global_admin,
        final(store).treasury == old(store).treasury,
{
    if new_n > old_n {
        add_milestones(store, g, old_n, new_n, amount, now, reviewers);
        assert forall|idx: u32| old_n <= idx < new_n implies
            #[trigger] store.milestones@.contains_key(spec_pair_key(g, idx))
            && is_fresh_milestone(store.milestones@[spec_pair_key(g, idx)], idx, amount, now, reviewers as nat) by {
            assert(store.milestone(g, idx) is Some);
        }
    } else if new_n < old_n {
        remove_milestones(store, g, new_n, old_n);
        assert forall|idx: u32| new_n <= idx < old_n implies !(#[trigger] store.milestones@.contains_key(spec_pair_key(g, idx))) by {
            assert(store.milestone(g, idx) is None);
        }
    }
}

/// Apply an approved amendment: update the grant's fields, grow or shrink its
/// milestones, and record a new snapshot as the current version.
///
/// Fails with `InvalidInput` (no such amendment), `InvalidState` (not
/// approved), `GrantNotFound` (no grant or snapshot), `InvalidInput` (the new
/// budget breaks `milestone_amount * total_milestones <= total_amount`) or
/// `InvalidState` (shrinking would discard a milestone past `Pending`), in
/// that order. A numeric value that does not parse is ignored; when a field
/// is named twice the last value counts. On error nothing changes.
#[verifier::loop_isolation(false)]
#[verifier::spinoff_prover]
pub fn apply_amendment(
    store: &mut GrantStore,
    vs: &mut VersionStore,
    grant_id: u64,
    amendment_version: u32,
    now: u64,
) -> (r: Result<GrantVersion, ContractError>)
    requires
        old(vs).wf(),
        old(store).wf(),
    ensures
        final(vs).wf(),
        final(store).wf(),
        final(vs).amendments@ == old(vs).amendments@,
        final(vs).history@ == old(vs).history@,
        ({
            let a = old(vs).amendment(grant_id, amendment_version);
            let g = old(store).grant(grant_id)->Some_0;
            if a is None {
                r == Err::<GrantVersion, ContractError>(ContractError::InvalidInput)
            } else if a->Some_0.status != AmendmentStatus::Approved {
                r == Err::<GrantVersion, ContractError>(ContractError::InvalidState)
            } else if old(store).grant(grant_id) is None || !snapshot_exists(*old(store), *old(vs), grant_id) {
                r == Err::<GrantVersion, ContractError>(ContractError::GrantNotFound)
            } else if breaks_budget(g, amended_amount(a->Some_0), amended_count(a->Some_0)) {
                r == Err::<GrantVersion, ContractError>(ContractError::InvalidInput)
            } else if shrink_discards_progress(*old(store), grant_id, g.total_milestones, amended_count(a->Some_0)) {
                r == Err::<GrantVersion, ContractError>(ContractError::InvalidState)
            } else {
                r is Ok
            }
        }),
        // the new snapshot, returned and recorded as current
        r is Ok ==> ({
            let a = old(vs).amendment(grant_id, amendment_version)->Some_0;
            let snap = spec_snapshot(*old(store), *old(vs), grant_id);
            let v = r->Ok_0;
            let vk = spec_pair_key(grant_id, amendment_version);
            &&& v.version == amendment_version
            &&& v.title@ == override_text(amended_text(a, AmendableField::Title), snap.1)
            &&& v.description@ == override_text(amended_text(a, AmendableField::Description), snap.2)
            &&& v.total_amount == override_amount(amended_amount(a), snap.3)
            &&& v.total_milestones == override_count(amended_count(a), snap.4)
            &&& v.created_at == now
            &&& v.amendment_id == Some(amendment_version)
            &&& final(vs).versions@.contains_key(vk)
            &&& same_version(final(vs).versions@[vk], v)
            &&& final(vs).current@ == old(vs).current@.insert(grant_id, amendment_version)
            // every other stored snapshot stays; version 1 is recorded first when it was missing
            &&& old(vs).current_of(grant_id) != 0 ==> final(vs).versions@ == old(vs).versions@.insert(vk, final(vs).versions@[vk])
            &&& old(vs).current_of(grant_id) == 0 ==> {
                let k1 = spec_pair_key(grant_id, 1);
                &&& final(vs).versions@ == old(vs).versions@.insert(k1, final(vs).versions@[k1]).insert(vk, final(vs).versions@[vk])
                &&& amendment_version != 1 ==> version_of(final(vs).versions@[k1], old(store).grant(grant_id)->Some_0, 1, None, now)
            }
        }),
        // the grant, with the new values
        r is Ok ==> ({
            let a = old(vs).amendment(grant_id, amendment_version)->Some_0;
            let g = old(store).grant(grant_id)->Some_0;
            let g2 = final(store).grant(grant_id)->Some_0;
            &&& final(store).grants@ == old(store).grants@.insert(grant_id, g2)
            &&& g2.title@ == override_text(amended_text(a, AmendableField::Title), g.title@)
            &&& g2.description@ == override_text(amended_text(a, AmendableField::Description), g.description@)
            &&& g2.total_amount == override_amount(amended_amount(a), g.total_amount)
            &&& g2.total_milestones == override_count(amended_count(a), g.total_milestones)
            &&& g2.id == g.id && g2.owner == g.owner && g2.token == g.token && g2.status == g.status
            &&& g2.milestone_amount == g.milestone_amount && g2.reviewers == g.reviewers
            &&& g2.milestones_paid_out == g.milestones_paid_out && g2.escrow_balance == g.escrow_balance
            &&& g2.funders == g.funders && g2.reason == g.reason && g2.timestamp == g.timestamp
        }),
        // its milestones: fresh pending ones when it grows, none past the end when it shrinks
        r is Ok ==> ({
            let a = old(vs).amendment(grant_id, amendment_version)->Some_0;
            let g = old(store).grant(grant_id)->Some_0;
            milestones_resized(old(store).milestones@, final(store).milestones@, grant_id, g.total_milestones,
                override_count(amended_count(a), g.total_milestones), g.milestone_amount, now, g.reviewers@.len())
        }),
        r is Err ==> {
            &&& final(vs).versions@ == old(vs).versions@
            &&& final(vs).current@ == old(vs).current@
            &&& final(store).grants@ == old(store).grants@
            &&& final(store).milestones@ == old(store).milestones@
        },
        final(store).contributors@ == old(store).contributors@,
        final(store).global_admin == old(store).global_admin,
        final(store).treasury == old(store).treasury,
{
    let k = pair_key(grant_id, amendment_version);
    let amendment = match vs.amendments.get(&k) {
        Some(a) => a,
        None => {
            return Err(ContractError::InvalidInput);
        },
    };
    if amendment.status != AmendmentStatus::Approved {
        return Err(ContractError::InvalidState);
    }
    let grant = match store.get_grant(grant_id) {
        Some(g) => g,
        None => {
            return Err(ContractError::GrantNotFound);
        },
    };
    assert(store.grants@.contains_key(grant_id));
    assert(grant.reviewers@.len() <= u32::MAX);
    let mut snapshot = peek_snapshot(store, vs, grant_id, now)?;
    let ghost snap0 = snapshot;
    let ghost fields = amendment.changed_fields@;
    let ghost values = amendment.new_values@;
    assert(old(vs).amendments@.contains_key(k));
    assert(fields.len() == values.len());

    let mut new_title: Option<&Vec<u8>> = None;
    let mut new_description: Option<&Vec<u8>> = None;
    let mut new_total_amount: Option<i128> = None;
    let mut new_total_milestones: Option<u32> = None;
    let mut i: usize = 0;
    while i < amendment.changed_fields.len()
        invariant
            i <= amendment.changed_fields.len(),
            fields == amendment.changed_fields@,
            values == amendment.new_values@,
            fields.len() == values.len(),
            match new_title {
                Some(t) => last_text(fields, values, AmendableField::Title, i as int) == Some(t@),
                None => last_text(fields, values, AmendableField::Title, i as int) is None,
            },
            match new_description {
                Some(t) => last_text(fields, values, AmendableField::Description, i as int) == Some(t@),
                None => last_text(fields, values, AmendableField::Description, i as int) is None,
            },
            match new_total_amount {
                Some(v) => last_amount(fields, values, i as int) == Some(v as int),
                None => last_amount(fields, values, i as int) is None,
            },
            match new_total_milestones {
                Some(v) => last_count(fields, values, i as int) == Some(v as int),
                None => last_count(fields, values, i as int) is None,
            },
        decreases amendment.changed_fields.len() - i,
    {
        let value = &amendment.new_values[i];
        match classify_field(&amendment.changed_fields[i]) {
            Some(AmendableField::Title) => {
                new_title = Some(value);
            },
            Some(AmendableField::Description) => {
                new_description = Some(value);
            },
            Some(AmendableField::TotalAmount) => {
                match parse_i128_from_string(value) {
                    Some(parsed) => {
                        new_total_amount = Some(parsed);
                    },
                    None => {},
                }
            },
            Some(AmendableField::TotalMilestones) => {
                match parse_u32_from_string(value) {
                    Some(parsed) => {
                        new_total_milestones = Some(parsed);
                    },
                    None => {},
                }
            },
            None => {},
        }
        i = i + 1;
    }

    if new_total_amount.is_some() || new_total_milestones.is_some() {
        let effective_total_amount = match new_total_amount {
            Some(v) => v,
            None => grant.total_amount,
        };
        let effective_total_milestones = match new_total_milestones {
            Some(v) => v,
            None => grant.total_milestones,
        };
        let required = match grant.milestone_amount.checked_mul(effective_total_milestones as i128) {
            Some(v) => v,
            None => {
                return Err(ContractError::InvalidInput);
            },
        };
        if required > effective_total_amount {
            return Err(ContractError::InvalidInput);
        }
    }

    let old_total = grant.total_milestones;
    match new_total_milestones {
        Some(new_total) => {
            if new_total < old_total {
                let mut idx = new_total;
                while idx < old_total
                    invariant
                        new_total <= idx <= old_total,
                        forall|i2: u32| new_total <= i2 < idx ==> (#[trigger] store.milestone(grant_id, i2)) is None
                            || store.milestone(grant_id, i2)->Some_0.state == MilestoneState::Pending,
                    decreases old_total - idx,
                {
                    match store.get_milestone(grant_id, idx) {
                        Some(m) => {
                            if m.state != MilestoneState::Pending {
                                assert(shrink_discards_progress(*old(store), grant_id, old_total, Some(new_total as int)));
                                return Err(ContractError::InvalidState);
                            }
                        },
                        None => {},
                    }
                    idx = idx + 1;
                }
            }
        },
        None => {},
    }

    // All checks passed: commit.
    let title_update: Option<Vec<u8>> = match new_title {
        Some(t) => Some(copy_bytes(t)),
        None => None,
    };
    let description_update: Option<Vec<u8>> = match new_description {
        Some(t) => Some(copy_bytes(t)),
        None => None,
    };
    if current_version(vs, grant_id) == 0 {
        let k1 = pair_key(grant_id, 1);
        let v1 = grant_to_version(grant, 1, None, now);
        proof {
            lemma_record_current(vs.current@, vs.versions@, grant_id, 1, v1);
        }
        vs.versions.insert(k1, v1);
        vs.current.insert(grant_id, 1);
    }
    let mut updated = store.grants.remove(&grant_id).unwrap();
    let ghost g0 = updated;
    match title_update {
        Some(t) => {
            snapshot.title = copy_bytes(&t);
            updated.title = t;
        },
        None => {},
    }
    match description_update {
        Some(t) => {
            snapshot.description = copy_bytes(&t);
            updated.description = t;
        },
        None => {},
    }
    match new_total_amount {
        Some(v) => {
            snapshot.total_amount = v;
            updated.total_amount = v;
        },
        None => {},
    }
    match new_total_milestones {
        Some(new_total) => {
            snapshot.total_milestones = new_total;
            updated.total_milestones = new_total;
        },
        None => {},
    }
    let ghost new_n: u32 = updated.total_milestones;
    assert(new_n == override_count(amended_count(*amendment), old_total));
    resize_milestones(store, grant_id, old_total, updated.total_milestones, updated.milestone_amount, now,
        updated.reviewers.len() as u32);
    snapshot.version = amendment_version;
    snapshot.created_at = now;
    snapshot.amendment_id = Some(amendment_version);
    let stored = copy_version(&snapshot);
    proof {
        lemma_record_current(vs.current@, vs.versions@, grant_id, amendment_version, stored);
    }
    vs.versions.insert(k, stored);
    vs.current.insert(grant_id, amendment_version);
    store.set_grant(grant_id, updated);
    Ok(snapshot)
}

} // verus!
