use stellar_grants::grant_timer::{cancel_timer, get_timers, pending_timers, register_timer, trigger_timers, TimerStore, TimerTriggerType};
use stellar_grants::store::GrantStore;
use stellar_grants::types::{ContributorProfile, Grant, GrantStatus};
use stellar_grants::waitlist::{configure, get_waitlist, join, leave, position_of, promote_next, WaitlistConfig, WaitlistStore, RATE_LIMIT_WAITLIST_JOIN_MAX, RATE_LIMIT_WINDOW_SECS};
use stellar_grants::ContractError;

fn b(s: &str) -> Vec<u8> {
    s.as_bytes().to_vec()
}

#[allow(clippy::too_many_arguments)]
fn setup_grant(
    store: &mut GrantStore,
    grant_id: u64,
    owner: u64,
    status: GrantStatus,
    escrow_balance: i128,
    total_amount: i128,
    milestones_paid_out: u32,
    total_milestones: u32,
) {
    store.set_grant(
        grant_id,
        Grant {
            id: grant_id,
            owner,
            title: b("Grant"),
            description: b("desc"),
            token: 900,
            status,
            total_amount,
            milestone_amount: 100,
            reviewers: Vec::new(),
            total_milestones,
            milestones_paid_out,
            escrow_balance,
            funders: Vec::new(),
            reason: None,
            timestamp: 0,
        },
    );
}

fn profile(who: u64, reputation_score: u64) -> ContributorProfile {
    ContributorProfile {
        contributor: who,
        name: b("Applicant"),
        reputation_score,
        total_earned: 0,
        milestones_completed: 0,
        milestones_rejected: 0,
        grants_count: 0,
        registered_at: 0,
    }
}

fn waitlist_setup(rank_by_reputation: bool, max_waitlist_size: u32, reps: &[(u64, u64)]) -> (GrantStore, WaitlistStore) {
    let mut store = GrantStore::new();
    let mut ws = WaitlistStore::new();
    let owner = 1u64;
    setup_grant(&mut store, 1, owner, GrantStatus::Active, 0, 1000, 0, 3);
    let config = WaitlistConfig { grant_id: 1, max_slots: 2, max_waitlist_size, rank_by_reputation, auto_promote: true };
    configure(&store, &mut ws, owner, 1, config).unwrap();
    for &(who, rep) in reps {
        store.set_contributor(who, profile(who, rep));
    }
    (store, ws)
}

#[test]
fn test_join_waitlist_reputation_ranked() {
    let (store, mut ws) = waitlist_setup(true, 10, &[(11, 500), (12, 800), (13, 600)]);
    join(&store, &mut ws, 11, 1, 0).unwrap();
    join(&store, &mut ws, 12, 1, 0).unwrap();
    join(&store, &mut ws, 13, 1, 0).unwrap();
    let waitlist = get_waitlist(&ws, 1);
    assert_eq!(waitlist.len(), 3);
    assert_eq!(waitlist[0].applicant, 12);
    assert_eq!(waitlist[0].position, 1);
    assert_eq!(waitlist[1].applicant, 13);
    assert_eq!(waitlist[1].position, 2);
    assert_eq!(waitlist[2].applicant, 11);
    assert_eq!(waitlist[2].position, 3);
}

#[test]
fn test_join_waitlist_fifo() {
    let (store, mut ws) = waitlist_setup(false, 10, &[(11, 500), (12, 500), (13, 500)]);
    join(&store, &mut ws, 11, 1, 0).unwrap();
    join(&store, &mut ws, 12, 1, 0).unwrap();
    join(&store, &mut ws, 13, 1, 0).unwrap();
    let waitlist = get_waitlist(&ws, 1);
    assert_eq!(waitlist.len(), 3);
    assert_eq!(waitlist[0].applicant, 11);
    assert_eq!(waitlist[1].applicant, 12);
    assert_eq!(waitlist[2].applicant, 13);
}

#[test]
fn test_leave_waitlist() {
    let (store, mut ws) = waitlist_setup(false, 10, &[(11, 500), (12, 500), (13, 500)]);
    join(&store, &mut ws, 11, 1, 0).unwrap();
    join(&store, &mut ws, 12, 1, 0).unwrap();
    join(&store, &mut ws, 13, 1, 0).unwrap();
    leave(&mut ws, 12, 1).unwrap();
    let waitlist = get_waitlist(&ws, 1);
    assert_eq!(waitlist.len(), 2);
    assert_eq!(waitlist[0].applicant, 11);
    assert_eq!(waitlist[0].position, 1);
    assert_eq!(waitlist[1].applicant, 13);
    assert_eq!(waitlist[1].position, 2);
}

#[test]
fn test_waitlist_full() {
    let (store, mut ws) = waitlist_setup(false, 2, &[(11, 500), (12, 500), (13, 500)]);
    join(&store, &mut ws, 11, 1, 0).unwrap();
    join(&store, &mut ws, 12, 1, 0).unwrap();
    let result = join(&store, &mut ws, 13, 1, 0);
    assert_eq!(result, Err(ContractError::WaitlistFull));
}

#[test]
fn test_promote_next() {
    let (store, mut ws) = waitlist_setup(false, 10, &[(11, 500), (12, 500)]);
    join(&store, &mut ws, 11, 1, 0).unwrap();
    join(&store, &mut ws, 12, 1, 0).unwrap();
    let promoted = promote_next(&mut ws, 1);
    assert_eq!(promoted, Some(11));
    let waitlist = get_waitlist(&ws, 1);
    assert_eq!(waitlist.len(), 1);
    assert_eq!(waitlist[0].applicant, 12);
    assert_eq!(waitlist[0].position, 1);
}

#[test]
fn test_position_of() {
    let (store, mut ws) = waitlist_setup(false, 10, &[(11, 500), (12, 500)]);
    join(&store, &mut ws, 11, 1, 0).unwrap();
    join(&store, &mut ws, 12, 1, 0).unwrap();
    assert_eq!(position_of(&ws, 11, 1), Some(1));
    assert_eq!(position_of(&ws, 12, 1), Some(2));
    assert_eq!(position_of(&ws, 99, 1), None);
}

#[test]
fn waitlist_errors() {
    let (store, mut ws) = waitlist_setup(false, 10, &[(11, 500)]);
    assert_eq!(join(&store, &mut ws, 11, 2, 0), Err(ContractError::InvalidInput));
    assert_eq!(join(&store, &mut ws, 12, 1, 0), Err(ContractError::ContributorNotFound));
    join(&store, &mut ws, 11, 1, 0).unwrap();
    assert_eq!(join(&store, &mut ws, 11, 1, 0), Err(ContractError::AlreadyOnWaitlist));
    assert_eq!(leave(&mut ws, 99, 1), Err(ContractError::NotOnWaitlist));
    let cfg = WaitlistConfig { grant_id: 1, max_slots: 1, max_waitlist_size: 1, rank_by_reputation: false, auto_promote: false };
    assert_eq!(configure(&store, &mut ws, 2, 1, cfg), Err(ContractError::Unauthorized));
    assert_eq!(configure(&store, &mut ws, 1, 7, cfg), Err(ContractError::GrantNotFound));
    assert_eq!(promote_next(&mut ws, 7), None);
}

#[test]
fn timer_fires_only_once() {
    let mut store = GrantStore::new();
    let mut ts = TimerStore::new();
    let owner = 1u64;
    let caller = 2u64;
    setup_grant(&mut store, 1, owner, GrantStatus::Active, 0, 1000, 0, 3);
    register_timer(&store, &mut ts, owner, 1, TimerTriggerType::AutoExpire, 0).unwrap();

    assert_eq!(trigger_timers(&mut store, &mut ts, caller, 1, 0), 1);
    let grant = store.get_grant(1).unwrap();
    assert_eq!(grant.status, GrantStatus::Cancelled);
    assert_eq!(grant.reason, Some(b("auto-expired by timer")));

    assert_eq!(trigger_timers(&mut store, &mut ts, caller, 1, 0), 0);
    let timers = get_timers(&ts, 1);
    assert_eq!(timers.len(), 1);
    assert!(timers[0].fired);
    assert_eq!(timers[0].triggered_by, Some(caller));
}

#[test]
fn duplicate_unfired_registration_is_rejected() {
    let mut store = GrantStore::new();
    let mut ts = TimerStore::new();
    let owner = 1u64;
    setup_grant(&mut store, 1, owner, GrantStatus::Active, 1000, 1000, 0, 3);
    register_timer(&store, &mut ts, owner, 1, TimerTriggerType::AutoActivate, 100).unwrap();
    let err = register_timer(&store, &mut ts, owner, 1, TimerTriggerType::AutoActivate, 200);
    assert_eq!(err, Err(ContractError::InvalidInput));
    register_timer(&store, &mut ts, owner, 1, TimerTriggerType::AutoReleaseLockup, 0).unwrap();
    assert_eq!(get_timers(&ts, 1).len(), 2);
}

#[test]
fn re_registration_allowed_after_timer_fires() {
    let mut store = GrantStore::new();
    let mut ts = TimerStore::new();
    let owner = 1u64;
    setup_grant(&mut store, 1, owner, GrantStatus::Active, 1000, 1000, 0, 3);
    register_timer(&store, &mut ts, owner, 1, TimerTriggerType::AutoActivate, 0).unwrap();
    assert_eq!(trigger_timers(&mut store, &mut ts, 2, 1, 0), 1);
    register_timer(&store, &mut ts, owner, 1, TimerTriggerType::AutoActivate, 0).unwrap();
    assert_eq!(get_timers(&ts, 1).len(), 2);
}

#[test]
fn auto_expire_eligibility_gate() {
    let mut store = GrantStore::new();
    let mut ts = TimerStore::new();
    let owner = 1u64;
    setup_grant(&mut store, 1, owner, GrantStatus::Active, 0, 1000, 2, 2);
    register_timer(&store, &mut ts, owner, 1, TimerTriggerType::AutoExpire, 0).unwrap();
    assert_eq!(trigger_timers(&mut store, &mut ts, 2, 1, 0), 0);
    assert!(!get_timers(&ts, 1)[0].fired);

    setup_grant(&mut store, 2, owner, GrantStatus::Active, 0, 1000, 0, 2);
    register_timer(&store, &mut ts, owner, 2, TimerTriggerType::AutoExpire, 0).unwrap();
    assert_eq!(trigger_timers(&mut store, &mut ts, 2, 2, 0), 1);
}

#[test]
fn auto_activate_eligibility_gate() {
    let mut store = GrantStore::new();
    let mut ts = TimerStore::new();
    let owner = 1u64;
    setup_grant(&mut store, 1, owner, GrantStatus::Active, 500, 1000, 0, 3);
    register_timer(&store, &mut ts, owner, 1, TimerTriggerType::AutoActivate, 0).unwrap();
    assert_eq!(trigger_timers(&mut store, &mut ts, 2, 1, 0), 0);

    setup_grant(&mut store, 2, owner, GrantStatus::Active, 1000, 1000, 0, 3);
    register_timer(&store, &mut ts, owner, 2, TimerTriggerType::AutoActivate, 0).unwrap();
    assert_eq!(trigger_timers(&mut store, &mut ts, 2, 2, 0), 1);
}

#[test]
fn auto_cancel_eligibility_gate_and_cleanup() {
    let mut store = GrantStore::new();
    let mut ts = TimerStore::new();
    let owner = 1u64;
    setup_grant(&mut store, 1, owner, GrantStatus::Active, 1, 1000, 0, 3);
    register_timer(&store, &mut ts, owner, 1, TimerTriggerType::AutoCancel, 0).unwrap();
    assert_eq!(trigger_timers(&mut store, &mut ts, 2, 1, 0), 0);

    setup_grant(&mut store, 2, owner, GrantStatus::Active, 0, 1000, 0, 3);
    register_timer(&store, &mut ts, owner, 2, TimerTriggerType::AutoCancel, 0).unwrap();
    assert_eq!(trigger_timers(&mut store, &mut ts, 2, 2, 0), 1);
    let grant = store.get_grant(2).unwrap();
    assert_eq!(grant.status, GrantStatus::Cancelled);
    assert_eq!(grant.reason, Some(b("auto-cancelled: not funded by deadline")));
}

#[test]
fn auto_release_lockup_eligibility_gate() {
    let mut store = GrantStore::new();
    let mut ts = TimerStore::new();
    let owner = 1u64;
    setup_grant(&mut store, 1, owner, GrantStatus::Cancelled, 0, 1000, 0, 3);
    register_timer(&store, &mut ts, owner, 1, TimerTriggerType::AutoReleaseLockup, 0).unwrap();
    assert_eq!(trigger_timers(&mut store, &mut ts, 2, 1, 0), 0);

    setup_grant(&mut store, 2, owner, GrantStatus::Active, 0, 1000, 0, 3);
    register_timer(&store, &mut ts, owner, 2, TimerTriggerType::AutoReleaseLockup, 0).unwrap();
    assert_eq!(trigger_timers(&mut store, &mut ts, 2, 2, 0), 1);
}

#[test]
fn custom_callback_is_always_eligible() {
    let mut store = GrantStore::new();
    let mut ts = TimerStore::new();
    let owner = 1u64;
    setup_grant(&mut store, 1, owner, GrantStatus::Cancelled, 0, 0, 5, 1);
    register_timer(&store, &mut ts, owner, 1, TimerTriggerType::CustomCallback, 0).unwrap();
    assert_eq!(trigger_timers(&mut store, &mut ts, 2, 1, 0), 1);
}

#[test]
fn timer_does_not_fire_before_fires_at() {
    let mut store = GrantStore::new();
    let mut ts = TimerStore::new();
    let owner = 1u64;
    setup_grant(&mut store, 1, owner, GrantStatus::Active, 0, 1000, 0, 3);
    register_timer(&store, &mut ts, owner, 1, TimerTriggerType::AutoExpire, 5_000).unwrap();
    assert_eq!(trigger_timers(&mut store, &mut ts, 2, 1, 1_000), 0);
    assert_eq!(pending_timers(&ts, 1, 1_000).len(), 0);
    assert_eq!(pending_timers(&ts, 1, 5_001).len(), 1);
    assert_eq!(trigger_timers(&mut store, &mut ts, 2, 1, 5_001), 1);
}

#[test]
fn cancel_timer_lifecycle() {
    let mut store = GrantStore::new();
    let mut ts = TimerStore::new();
    let owner = 1u64;
    let stranger = 3u64;
    setup_grant(&mut store, 1, owner, GrantStatus::Active, 0, 1000, 0, 3);
    register_timer(&store, &mut ts, owner, 1, TimerTriggerType::AutoExpire, 100).unwrap();
    assert_eq!(cancel_timer(&store, &mut ts, stranger, 1, TimerTriggerType::AutoExpire), Err(ContractError::Unauthorized));
    cancel_timer(&store, &mut ts, owner, 1, TimerTriggerType::AutoExpire).unwrap();
    assert_eq!(get_timers(&ts, 1).len(), 0);
    assert_eq!(cancel_timer(&store, &mut ts, owner, 1, TimerTriggerType::AutoExpire), Err(ContractError::TimerNotFound));
}

#[test]
fn register_and_trigger_on_missing_grant() {
    let mut store = GrantStore::new();
    let mut ts = TimerStore::new();
    assert_eq!(register_timer(&store, &mut ts, 1, 99, TimerTriggerType::AutoExpire, 0), Err(ContractError::GrantNotFound));
    assert_eq!(trigger_timers(&mut store, &mut ts, 1, 99, 0), 0);
}

#[test]
fn only_owner_or_admin_can_register() {
    let mut store = GrantStore::new();
    let mut ts = TimerStore::new();
    let owner = 1u64;
    let admin = 2u64;
    let stranger = 3u64;
    setup_grant(&mut store, 1, owner, GrantStatus::Active, 0, 1000, 0, 3);
    store.global_admin = Some(admin);
    assert_eq!(register_timer(&store, &mut ts, stranger, 1, TimerTriggerType::AutoExpire, 0), Err(ContractError::Unauthorized));
    register_timer(&store, &mut ts, admin, 1, TimerTriggerType::AutoExpire, 0).unwrap();
    assert_eq!(get_timers(&ts, 1).len(), 1);
}

fn many_waitlists(grants: u64) -> (GrantStore, WaitlistStore) {
    let mut store = GrantStore::new();
    let mut ws = WaitlistStore::new();
    for g in 1..=grants {
        setup_grant(&mut store, g, 1, GrantStatus::Active, 0, 1000, 0, 3);
        let config = WaitlistConfig { grant_id: g, max_slots: 2, max_waitlist_size: 10, rank_by_reputation: false, auto_promote: true };
        configure(&store, &mut ws, 1, g, config).unwrap();
    }
    store.set_contributor(11, profile(11, 500));
    store.set_contributor(12, profile(12, 500));
    (store, ws)
}

#[test]
fn test_join_rate_limited_across_grants() {
    let (store, mut ws) = many_waitlists(7);
    for g in 1..=(RATE_LIMIT_WAITLIST_JOIN_MAX as u64) {
        assert_eq!(join(&store, &mut ws, 11, g, 100), Ok(1));
    }
    assert_eq!(join(&store, &mut ws, 11, 6, 100 + RATE_LIMIT_WINDOW_SECS - 1), Err(ContractError::RateLimitExceeded));
    assert_eq!(position_of(&ws, 11, 6), None);
    // another applicant is not affected
    assert_eq!(join(&store, &mut ws, 12, 6, 100), Ok(1));
    // once the window has run out, the applicant may join again
    assert_eq!(join(&store, &mut ws, 11, 6, 100 + RATE_LIMIT_WINDOW_SECS), Ok(2));
}

#[test]
fn test_join_failed_attempts_do_not_count() {
    let (store, mut ws) = many_waitlists(6);
    for _ in 0..10 {
        assert_eq!(join(&store, &mut ws, 11, 99, 0), Err(ContractError::InvalidInput));
    }
    assert_eq!(join(&store, &mut ws, 11, 1, 0), Ok(1));
}

#[test]
fn test_join_admin_exempt_from_rate_limit() {
    let (mut store, mut ws) = many_waitlists(7);
    store.global_admin = Some(11);
    for g in 1..=7u64 {
        assert_eq!(join(&store, &mut ws, 11, g, 0), Ok(1));
    }
}
