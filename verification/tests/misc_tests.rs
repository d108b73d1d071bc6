use stellar_grants::badge::{award_count, get_badges, get_criteria, has_badge, manual_award, try_award, BadgeStore, BadgeType};
use stellar_grants::bounty_store::{BountyGrant, BountySubmission, Storage};
use stellar_grants::contract::StellarGrantsContract;
use stellar_grants::fees::ProtocolConfig;
use stellar_grants::grant_bridge::{self, BridgeStore};
use stellar_grants::grant_pause::{self, PauseStore};
use stellar_grants::metrics::MetricsModule;
use stellar_grants::milestone_deps::{attach_dag, can_submit, dependents_of, topological_order, unblocked_milestones, DagStore, MilestoneDependency};
use stellar_grants::milestone_template::{self, TemplateStore};
use stellar_grants::store::GrantStore;
use stellar_grants::types::{ContributorProfile, Grant, GrantStatus, Milestone, MilestoneState};
use stellar_grants::ContractError;

fn b(s: &str) -> Vec<u8> {
    s.as_bytes().to_vec()
}

fn grant(id: u64, owner: u64, total_milestones: u32) -> Grant {
    Grant {
        id,
        owner,
        title: b("G"),
        description: b("D"),
        token: 9,
        status: GrantStatus::Active,
        total_amount: 1000,
        milestone_amount: 100,
        reviewers: vec![],
        total_milestones,
        milestones_paid_out: 0,
        escrow_balance: 1000,
        funders: vec![],
        reason: None,
        timestamp: 0,
    }
}

fn milestone(idx: u32, state: MilestoneState) -> Milestone {
    Milestone {
        idx,
        description: b("m"),
        amount: 100,
        state,
        approvals: 0,
        rejections: 0,
        status_updated_at: 0,
        proof_url: None,
        submission_timestamp: 0,
        deadline: None,
        reviewer_count_snapshot: 0,
    }
}

fn contributor(who: u64, milestones_completed: u32, reputation_score: u64, grants_count: u32) -> ContributorProfile {
    ContributorProfile {
        contributor: who,
        name: b("c"),
        reputation_score,
        total_earned: 0,
        milestones_completed,
        milestones_rejected: 0,
        grants_count,
        registered_at: 0,
    }
}

#[test]
fn badge_criteria_table() {
    assert_eq!(get_criteria(BadgeType::FirstMilestone).required_milestones, Some(1));
    assert_eq!(get_criteria(BadgeType::TenMilestones).required_milestones, Some(10));
    assert_eq!(get_criteria(BadgeType::FiftyMilestones).required_milestones, Some(50));
    assert_eq!(get_criteria(BadgeType::BronzeContributor).required_reputation, Some(100));
    assert_eq!(get_criteria(BadgeType::SilverContributor).required_reputation, Some(400));
    assert_eq!(get_criteria(BadgeType::GoldContributor).required_reputation, Some(700));
    assert_eq!(get_criteria(BadgeType::PlatinumContributor).required_reputation, Some(900));
    assert_eq!(get_criteria(BadgeType::EarlyAdopter).required_grants, Some(1));
    assert!(get_criteria(BadgeType::GoldContributor).one_time);
}

#[test]
fn badge_awarded_once_when_criteria_met() {
    let mut store = GrantStore::new();
    let mut bs = BadgeStore::new();
    store.set_contributor(5, contributor(5, 1, 150, 0));
    assert!(!try_award(&mut bs, &store, 6, BadgeType::FirstMilestone, None, None, 1));
    assert!(try_award(&mut bs, &store, 5, BadgeType::FirstMilestone, Some(1), Some(0), 10));
    assert!(!try_award(&mut bs, &store, 5, BadgeType::FirstMilestone, Some(1), Some(0), 11));
    assert!(!try_award(&mut bs, &store, 5, BadgeType::TenMilestones, None, None, 12));
    assert!(try_award(&mut bs, &store, 5, BadgeType::BronzeContributor, None, None, 13));
    assert!(!try_award(&mut bs, &store, 5, BadgeType::SilverContributor, None, None, 14));
    assert!(has_badge(&bs, 5, BadgeType::FirstMilestone));
    assert!(!has_badge(&bs, 5, BadgeType::EarlyAdopter));
    let badges = get_badges(&bs, 5);
    assert_eq!(badges.len(), 2);
    assert_eq!(badges[0].badge_type, BadgeType::FirstMilestone);
    assert_eq!(badges[0].awarded_at, 10);
    assert_eq!(badges[0].grant_id, Some(1));
    assert_eq!(award_count(&bs, BadgeType::FirstMilestone), 1);
    assert_eq!(award_count(&bs, BadgeType::GoldContributor), 0);
    assert_eq!(bs.registry.len(), 2);
}

#[test]
fn manual_award_needs_treasury() {
    let mut store = GrantStore::new();
    let mut bs = BadgeStore::new();
    assert_eq!(manual_award(&mut bs, &store, 1, 5, BadgeType::GoldContributor, 0), Err(ContractError::Unauthorized));
    store.treasury = Some(1);
    assert_eq!(manual_award(&mut bs, &store, 2, 5, BadgeType::GoldContributor, 0), Err(ContractError::Unauthorized));
    assert_eq!(manual_award(&mut bs, &store, 1, 5, BadgeType::GoldContributor, 0), Ok(()));
    assert_eq!(manual_award(&mut bs, &store, 1, 5, BadgeType::GoldContributor, 1), Ok(()));
    assert!(has_badge(&bs, 5, BadgeType::GoldContributor));
    assert_eq!(award_count(&bs, BadgeType::GoldContributor), 1);
    assert_eq!(get_badges(&bs, 5).len(), 1);
}

#[test]
fn pause_and_unpause() {
    let mut store = GrantStore::new();
    let mut ps = PauseStore::new();
    store.set_grant(1, grant(1, 7, 2));
    assert_eq!(grant_pause::pause(&mut ps, &store, 8, 1, b("why"), None, 10), Err(ContractError::Unauthorized));
    assert_eq!(grant_pause::pause(&mut ps, &store, 7, 2, b("why"), None, 10), Err(ContractError::NotFound));
    assert!(!grant_pause::is_paused(&ps, 1, 10));
    grant_pause::pause(&mut ps, &store, 7, 1, b("audit"), Some(100), 10).unwrap();
    assert!(grant_pause::is_paused(&ps, 1, 50));
    assert_eq!(grant_pause::require_not_paused(&ps, 1, 50), Err(ContractError::ContractPaused));
    assert!(!grant_pause::is_paused(&ps, 1, 100));
    assert!(!grant_pause::try_auto_unpause(&mut ps, 1, 999, 50));
    assert!(grant_pause::try_auto_unpause(&mut ps, 1, 999, 100));
    assert_eq!(grant_pause::get_record(&ps, 1).unwrap().unpause_history, vec![(999, 100)]);
    grant_pause::pause(&mut ps, &store, 7, 1, b("again"), Some(5), 20).unwrap();
    assert_eq!(grant_pause::get_record(&ps, 1).unwrap().auto_unpause_at, None);
    assert!(grant_pause::is_paused(&ps, 1, 1_000_000));
    grant_pause::unpause(&mut ps, &store, 7, 1, 30).unwrap();
    assert!(!grant_pause::is_paused(&ps, 1, 30));
    assert_eq!(grant_pause::require_not_paused(&ps, 1, 30), Ok(()));
    assert_eq!(grant_pause::get_record(&ps, 1).unwrap().unpause_history, vec![(999, 100), (7, 30)]);
}

#[test]
fn bridge_relayers_and_proofs() {
    let mut store = GrantStore::new();
    let mut bs = BridgeStore::new();
    store.global_admin = Some(1);
    assert_eq!(grant_bridge::register_relayer(&mut bs, &store, 2, 5, vec![10], 0), Err(ContractError::Unauthorized));
    grant_bridge::register_relayer(&mut bs, &store, 1, 5, vec![10, 11], 3).unwrap();
    assert_eq!(grant_bridge::submit_proof(&mut bs, 5, 1, 0, 12, b("0xabc"), 4), Err(ContractError::Unauthorized));
    assert_eq!(grant_bridge::submit_proof(&mut bs, 6, 1, 0, 10, b("0xabc"), 4), Err(ContractError::Unauthorized));
    grant_bridge::submit_proof(&mut bs, 5, 1, 0, 11, b("0xabc"), 4).unwrap();
    assert!(grant_bridge::has_valid_proof(&bs, 1, 0));
    assert!(!grant_bridge::has_valid_proof(&bs, 1, 1));
    assert_eq!(grant_bridge::get_proof(&bs, 1, 0).unwrap().tx_hash, b("0xabc"));
    assert_eq!(grant_bridge::deactivate_relayer(&mut bs, &store, 1, 6), Err(ContractError::InvalidState));
    grant_bridge::deactivate_relayer(&mut bs, &store, 1, 5).unwrap();
    assert!(!grant_bridge::has_valid_proof(&bs, 1, 0));
    assert!(!grant_bridge::get_relayer(&bs, 5).unwrap().is_active);
    assert_eq!(grant_bridge::submit_proof(&mut bs, 5, 1, 0, 11, b("0xdef"), 5), Err(ContractError::Unauthorized));
}

#[test]
fn templates_lifecycle() {
    let mut ts = TemplateStore::new();
    let a = milestone_template::save_template(&mut ts, 1, b("Design"), b("Design phase"), 0, 25, true).unwrap();
    let p = milestone_template::save_template(&mut ts, 1, b("Private"), b("Private phase"), 1, 50, false).unwrap();
    let c = milestone_template::save_template(&mut ts, 2, b("Build"), b("Build phase"), 0, 75, true).unwrap();
    assert_eq!((a, p, c), (1, 2, 3));
    assert_eq!(milestone_template::templates_by_owner(&ts, 1), vec![1, 2]);
    assert_eq!(milestone_template::public_templates(&ts, 10), vec![3, 1]);
    assert_eq!(milestone_template::public_templates(&ts, 1), vec![3]);
    assert_eq!(milestone_template::public_templates(&ts, 0), vec![3]);

    assert_eq!(milestone_template::create_from_templates(&mut ts, 2, &vec![1, 2], 1000), Err(ContractError::Unauthorized));
    assert_eq!(milestone_template::get_template(&ts, 1).unwrap().use_count, 0);
    assert_eq!(milestone_template::create_from_templates(&mut ts, 2, &vec![1, 9], 1000), Err(ContractError::InvalidState));
    let out = milestone_template::create_from_templates(&mut ts, 1, &vec![1, 2, 1], -1001).unwrap();
    assert_eq!(out, vec![(b("Design phase"), -250), (b("Private phase"), -500), (b("Design phase"), -250)]);
    assert_eq!(milestone_template::get_template(&ts, 1).unwrap().use_count, 2);

    assert_eq!(milestone_template::delete_template(&mut ts, 1, 1), Err(ContractError::InvalidState));
    assert_eq!(milestone_template::delete_template(&mut ts, 2, 3 - 1), Err(ContractError::Unauthorized));
    let d = milestone_template::save_template(&mut ts, 1, b("Tmp"), b("t"), 0, 10, true).unwrap();
    milestone_template::delete_template(&mut ts, 1, d).unwrap();
    assert!(milestone_template::get_template(&ts, d).is_none());
    assert_eq!(milestone_template::templates_by_owner(&ts, 1), vec![1, 2]);
    assert_eq!(milestone_template::delete_template(&mut ts, 1, d), Err(ContractError::InvalidState));
}

#[test]
fn metrics_and_bounty_storage() {
    let mut m = MetricsModule::new();
    assert_eq!(m.get_metrics().total_bounties_created, 0);
    m.increment_bounties_created().unwrap();
    m.increment_bounties_created().unwrap();
    m.increment_bounties_awarded().unwrap();
    let got = m.get_metrics();
    assert_eq!((got.total_bounties_created, got.total_bounties_awarded), (2, 1));

    let mut s = Storage::new();
    assert_eq!(s.next_bounty_id(), 1);
    assert_eq!(s.next_bounty_id(), 2);
    s.set_bounty(BountyGrant { id: 2, owner: 1, title: b("t"), description: b("d"), token: 3, prize_amount: 500, submission_deadline: 99 });
    assert_eq!(s.get_bounty(2).unwrap().prize_amount, 500);
    assert!(s.get_bounty(1).is_none());
    s.set_bounty_submission(BountySubmission { bounty_id: 2, submitter: 8, proof_url: b("u") });
    assert_eq!(s.get_bounty_submission(2, 8).unwrap().proof_url, b("u"));
    assert!(s.get_bounty_submission(2, 9).is_none());
    s.add_bounty_submitter(2, 8);
    s.add_bounty_submitter(2, 9);
    assert_eq!(s.get_bounty_submitters(2), vec![8, 9]);
    assert_eq!(s.get_bounty_submitters(3), Vec::<u64>::new());
}

#[test]
fn milestone_dependencies() {
    let mut store = GrantStore::new();
    let mut ds = DagStore::new();
    store.set_grant(1, grant(1, 7, 4));
    for i in 0..4u32 {
        store.set_milestone(1, i, milestone(i, if i == 0 { MilestoneState::Approved } else { MilestoneState::Pending }));
    }
    let deps = vec![
        MilestoneDependency { milestone_idx: 1, depends_on: vec![0] },
        MilestoneDependency { milestone_idx: 2, depends_on: vec![1] },
        MilestoneDependency { milestone_idx: 3, depends_on: vec![0, 2] },
    ];
    assert_eq!(attach_dag(&store, &mut ds, 8, 1, deps.clone()), Err(ContractError::Unauthorized));
    attach_dag(&store, &mut ds, 7, 1, deps.clone()).unwrap();
    assert_eq!(unblocked_milestones(&store, &ds, 1), vec![1]);
    assert_eq!(dependents_of(&ds, 1, 0), vec![1, 3]);
    assert_eq!(topological_order(&deps, 4), Ok(vec![0, 1, 2, 3]));
    let cyclic = vec![
        MilestoneDependency { milestone_idx: 0, depends_on: vec![1] },
        MilestoneDependency { milestone_idx: 1, depends_on: vec![0] },
    ];
    assert!(topological_order(&cyclic, 2).is_err());
    assert_eq!(can_submit(&store, 1, 1), Ok(()));
    assert_eq!(can_submit(&store, 1, 2), Err(ContractError::DependencyNotSatisfied));
}

#[test]
fn fresh_contract_state() {
    let cfg = ProtocolConfig {
        protocol_fee_bps: 100,
        reviewer_reward_pool_bps: 0,
        revenue_share_pool_bps: 0,
        multisig_escrow_threshold: 2,
        kyc_payout_threshold: 0,
    };
    let c = StellarGrantsContract::new(cfg, 3600);
    assert_eq!(c.config, cfg);
    assert_eq!(c.clawbacks.dispute_window_secs, 3600);
    assert!(c.grants.get_grant(1).is_none());
    assert_eq!(c.bounties.bounty_counter, 0);
}

#[test]
fn topological_order_takes_ready_milestones_last_in_first_out() {
    let deps = vec![MilestoneDependency { milestone_idx: 3, depends_on: vec![0] }];
    assert_eq!(topological_order(&deps, 4), Ok(vec![2, 1, 0, 3]));
    let chain = vec![
        MilestoneDependency { milestone_idx: 1, depends_on: vec![0] },
        MilestoneDependency { milestone_idx: 3, depends_on: vec![0, 2] },
    ];
    assert_eq!(topological_order(&chain, 4), Ok(vec![2, 0, 3, 1]));
}
