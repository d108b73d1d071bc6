use stellar_grants::store::{pair_key, GrantStore};
use stellar_grants::types::{Grant, GrantStatus, MilestoneState};
use stellar_grants::versioning::{
    amendment_history, apply_amendment, create_initial_version, current_version, field, get_version, int_to_string, parse_i128_from_string,
    parse_u32_from_string, propose_amendment, vote_amendment, AmendableField, AmendmentStatus, VersionStore,
};
use stellar_grants::ContractError;

fn b(s: &str) -> Vec<u8> {
    s.as_bytes().to_vec()
}

fn seed_grant(store: &mut GrantStore, vs: &mut VersionStore, id: u64, owner: u64, total_amount: i128, total_milestones: u32) -> u64 {
    let grant = Grant {
        id,
        owner,
        title: b("Original title"),
        description: b("Original description"),
        token: 999,
        status: GrantStatus::Active,
        total_amount,
        milestone_amount: total_amount / (total_milestones.max(1) as i128),
        reviewers: Vec::new(),
        total_milestones,
        milestones_paid_out: 0,
        escrow_balance: total_amount,
        funders: Vec::new(),
        reason: None,
        timestamp: 0,
    };
    create_initial_version(vs, &grant, 0);
    store.set_grant(id, grant);
    id
}

fn set_reviewers(store: &mut GrantStore, grant_id: u64, reviewers: Vec<u64>) {
    let mut grant = store.get_grant(grant_id).unwrap().clone();
    grant.reviewers = reviewers;
    store.set_grant(grant_id, grant);
}

fn field_name(f: AmendableField) -> Vec<u8> {
    field(f)
}

fn propose_field(store: &GrantStore, vs: &mut VersionStore, owner: u64, grant_id: u64, f: AmendableField, value: &str) -> u32 {
    propose_amendment(store, vs, owner, grant_id, vec![field_name(f)], vec![b(value)], b("test"), 10).unwrap()
}

fn amendment_status(vs: &VersionStore, grant_id: u64, version: u32) -> AmendmentStatus {
    vs.amendments.get(&pair_key(grant_id, version)).unwrap().status
}

#[test]
fn test_int_to_string_covers_sign_and_bounds() {
    assert_eq!(int_to_string(0), b("0"));
    assert_eq!(int_to_string(7), b("7"));
    assert_eq!(int_to_string(5_000_000), b("5000000"));
    assert_eq!(int_to_string(-42), b("-42"));
    assert_eq!(int_to_string(i128::MIN), b("-170141183460469231731687303715884105728"));
    assert_eq!(int_to_string(i128::MAX), b("170141183460469231731687303715884105727"));
}

#[test]
fn test_propose_amendment_records_real_previous_total_amount() {
    let mut store = GrantStore::new();
    let mut vs = VersionStore::new();
    let owner = 1u64;
    let grant_id = seed_grant(&mut store, &mut vs, 1, owner, 5_000_000, 4);
    let version = propose_amendment(&store, &mut vs, owner, grant_id, vec![b("total_amount")], vec![b("7000000")], b("scope grew"), 5)
        .expect("amendment should be proposed");
    let amendment = vs.amendments.get(&pair_key(grant_id, version)).expect("amendment should exist");
    assert_eq!(amendment.previous_values[0], b("5000000"));
}

#[test]
fn test_propose_amendment_records_real_previous_total_milestones() {
    let mut store = GrantStore::new();
    let mut vs = VersionStore::new();
    let owner = 1u64;
    let grant_id = seed_grant(&mut store, &mut vs, 1, owner, 5_000_000, 4);
    let version = propose_amendment(&store, &mut vs, owner, grant_id, vec![b("total_milestones")], vec![b("6")], b("more checkpoints"), 5)
        .expect("amendment should be proposed");
    let amendment = vs.amendments.get(&pair_key(grant_id, version)).expect("amendment should exist");
    assert_eq!(amendment.previous_values[0], b("4"));
}

#[test]
fn test_materiality_and_rejection_quorum() {
    let mut store = GrantStore::new();
    let mut vs = VersionStore::new();
    let owner = 1u64;

    let non_material = seed_grant(&mut store, &mut vs, 1, owner, 1_000, 2);
    let version = propose_field(&store, &mut vs, owner, non_material, AmendableField::Description, "Clarified");
    assert_eq!(amendment_status(&vs, non_material, version), AmendmentStatus::Approved);

    let material = seed_grant(&mut store, &mut vs, 2, owner, 1_000, 2);
    let version = propose_field(&store, &mut vs, owner, material, AmendableField::Title, "New title");
    assert_eq!(amendment_status(&vs, material, version), AmendmentStatus::Proposed);

    let rejected = seed_grant(&mut store, &mut vs, 3, owner, 1_000, 2);
    let reviewer1 = 11u64;
    let reviewer2 = 12u64;
    set_reviewers(&mut store, rejected, vec![reviewer1, reviewer2]);
    let version = propose_field(&store, &mut vs, owner, rejected, AmendableField::Title, "New title");
    assert_eq!(vote_amendment(&store, &mut vs, reviewer1, rejected, version, false, 20), Ok(AmendmentStatus::Proposed));
    assert_eq!(vote_amendment(&store, &mut vs, reviewer2, rejected, version, false, 21), Ok(AmendmentStatus::Rejected));
}

#[test]
fn test_propose_amendment_records_previous_values_for_all_fields() {
    let mut store = GrantStore::new();
    let mut vs = VersionStore::new();
    let owner = 1u64;
    let reviewer = 11u64;
    let grant_id = seed_grant(&mut store, &mut vs, 1, owner, 1_234, 2);
    set_reviewers(&mut store, grant_id, vec![reviewer]);

    let version = propose_amendment(
        &store,
        &mut vs,
        owner,
        grant_id,
        vec![b("title"), b("description"), b("total_amount"), b("total_milestones")],
        vec![b("New title"), b("New description"), b("9999"), b("3")],
        b("full rewrite"),
        5,
    )
    .expect("amendment should be proposed");

    let amendment = vs.amendments.get(&pair_key(grant_id, version)).expect("amendment should exist");
    assert_eq!(
        amendment.previous_values,
        vec![b("Original title"), b("Original description"), b("1234"), b("2")]
    );

    assert_eq!(vote_amendment(&store, &mut vs, reviewer, grant_id, version, true, 6), Ok(AmendmentStatus::Approved));
    let snapshot = apply_amendment(&mut store, &mut vs, grant_id, version, 7).unwrap();
    let grant = store.get_grant(grant_id).unwrap();
    assert_eq!((snapshot.total_amount, snapshot.total_milestones), (9_999, 3));
    assert_eq!((grant.total_amount, grant.total_milestones), (9_999, 3));
}

#[test]
fn test_apply_amendment_raising_total_milestones_creates_pending_milestones() {
    let mut store = GrantStore::new();
    let mut vs = VersionStore::new();
    let owner = 1u64;
    let reviewer = 11u64;
    let grant_id = seed_grant(&mut store, &mut vs, 1, owner, 10_000, 4);
    set_reviewers(&mut store, grant_id, vec![reviewer]);

    let version = propose_amendment(
        &store,
        &mut vs,
        owner,
        grant_id,
        vec![b("total_amount"), b("total_milestones")],
        vec![b("20000"), b("6")],
        b("more checkpoints, bigger budget"),
        5,
    )
    .expect("amendment should be proposed");
    vote_amendment(&store, &mut vs, reviewer, grant_id, version, true, 6).expect("amendment should be approved");
    apply_amendment(&mut store, &mut vs, grant_id, version, 7).expect("amendment should apply");

    let grant = store.get_grant(grant_id).unwrap().clone();
    assert_eq!(grant.total_milestones, 6);
    for idx in 4..6 {
        let milestone = store.get_milestone(grant_id, idx).expect("new milestone slot should exist");
        assert_eq!(milestone.state, MilestoneState::Pending);
        assert_eq!(milestone.amount, grant.milestone_amount);
    }
}

#[test]
fn test_apply_amendment_rejects_invariant_violation() {
    let mut store = GrantStore::new();
    let mut vs = VersionStore::new();
    let owner = 1u64;
    let reviewer = 11u64;
    let grant_id = seed_grant(&mut store, &mut vs, 1, owner, 10_000, 4);
    set_reviewers(&mut store, grant_id, vec![reviewer]);

    let version = propose_amendment(&store, &mut vs, owner, grant_id, vec![b("total_milestones")], vec![b("6")], b("more checkpoints"), 5)
        .expect("amendment should be proposed");
    vote_amendment(&store, &mut vs, reviewer, grant_id, version, true, 6).expect("amendment should be approved");

    let result = apply_amendment(&mut store, &mut vs, grant_id, version, 7);
    assert_eq!(result, Err(ContractError::InvalidInput));
    let grant = store.get_grant(grant_id).unwrap();
    assert_eq!(grant.total_milestones, 4);
}

#[test]
fn decimal_codec_round_trips() {
    for v in [0i128, 1, -1, 42, -42, 1_234_567_890, i128::MAX, i128::MIN] {
        assert_eq!(parse_i128_from_string(&int_to_string(v)), Some(v));
    }
    assert_eq!(parse_i128_from_string(&b("")), None);
    assert_eq!(parse_i128_from_string(&b("-")), None);
    assert_eq!(parse_i128_from_string(&b("12a")), None);
    assert_eq!(parse_i128_from_string(&b("170141183460469231731687303715884105728")), None);
    assert_eq!(parse_u32_from_string(&b("4294967295")), Some(u32::MAX));
    assert_eq!(parse_u32_from_string(&b("4294967296")), None);
    assert_eq!(parse_u32_from_string(&b("-1")), None);
}

#[test]
fn propose_amendment_errors() {
    let mut store = GrantStore::new();
    let mut vs = VersionStore::new();
    let owner = 1u64;
    let grant_id = seed_grant(&mut store, &mut vs, 1, owner, 1_000, 2);
    assert_eq!(
        propose_amendment(&store, &mut vs, owner, grant_id, vec![], vec![], b("x"), 1),
        Err(ContractError::InvalidInput)
    );
    assert_eq!(
        propose_amendment(&store, &mut vs, owner, 77, vec![b("title")], vec![b("t")], b("x"), 1),
        Err(ContractError::GrantNotFound)
    );
    assert_eq!(
        propose_amendment(&store, &mut vs, 2, grant_id, vec![b("title")], vec![b("t")], b("x"), 1),
        Err(ContractError::Unauthorized)
    );
    assert_eq!(
        propose_amendment(&store, &mut vs, owner, grant_id, vec![b("owner")], vec![b("t")], b("x"), 1),
        Err(ContractError::InvalidInput)
    );
    assert_eq!(current_version(&vs, grant_id), 1);
}

#[test]
fn vote_amendment_errors() {
    let mut store = GrantStore::new();
    let mut vs = VersionStore::new();
    let owner = 1u64;
    let grant_id = seed_grant(&mut store, &mut vs, 1, owner, 1_000, 2);
    set_reviewers(&mut store, grant_id, vec![11, 12, 13]);
    let version = propose_field(&store, &mut vs, owner, grant_id, AmendableField::Title, "T");
    assert_eq!(vote_amendment(&store, &mut vs, 99, grant_id, version, true, 2), Err(ContractError::Unauthorized));
    assert_eq!(vote_amendment(&store, &mut vs, 11, grant_id, version + 5, true, 2), Err(ContractError::InvalidInput));
    assert_eq!(vote_amendment(&store, &mut vs, 11, grant_id, version, true, 2), Ok(AmendmentStatus::Proposed));
    assert_eq!(vote_amendment(&store, &mut vs, 11, grant_id, version, true, 2), Err(ContractError::AlreadyVoted));
    assert_eq!(vote_amendment(&store, &mut vs, 12, grant_id, version, true, 3), Ok(AmendmentStatus::Approved));
    assert_eq!(vote_amendment(&store, &mut vs, 13, grant_id, version, true, 4), Err(ContractError::InvalidState));
    assert_eq!(vote_amendment(&store, &mut vs, 11, 55, version, true, 2), Err(ContractError::GrantNotFound));
}

#[test]
fn test_earlier_versions_survive_later_amendments() {
    let mut store = GrantStore::new();
    let mut vs = VersionStore::new();
    let owner = 1u64;
    let grant_id = seed_grant(&mut store, &mut vs, 1, owner, 10_000, 4);
    let other = seed_grant(&mut store, &mut vs, 2, owner, 5_000, 5);

    let v2 = propose_field(&store, &mut vs, owner, grant_id, AmendableField::Description, "Second description");
    assert_eq!(v2, 2);
    apply_amendment(&mut store, &mut vs, grant_id, v2, 20).unwrap();
    let v3 = propose_field(&store, &mut vs, owner, grant_id, AmendableField::Description, "Third description");
    assert_eq!(v3, 3);
    apply_amendment(&mut store, &mut vs, grant_id, v3, 30).unwrap();

    assert_eq!(current_version(&vs, grant_id), 3);
    let first = get_version(&vs, grant_id, 1).unwrap();
    assert_eq!((first.version, first.description.clone()), (1, b("Original description")));
    let second = get_version(&vs, grant_id, 2).unwrap();
    assert_eq!((second.version, second.description.clone()), (2, b("Second description")));
    let third = get_version(&vs, grant_id, 3).unwrap();
    assert_eq!((third.version, third.title.clone(), third.description.clone()), (3, b("Original title"), b("Third description")));
    assert_eq!(get_version(&vs, other, 1).unwrap().total_amount, 5_000);

    let history = amendment_history(&vs, grant_id);
    assert_eq!(history.len(), 2);
    assert_eq!((history[0].version, history[1].version), (2, 3));
}
