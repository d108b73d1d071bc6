use stellar_grants::registry::{
    approve_reviewer, contributor_count, get_contributors_page, is_approved_reviewer, register_contributor, revoke_reviewer,
    Registry, RegistryEntryType,
};
use stellar_grants::store::GrantStore;
use stellar_grants::ContractError;

fn setup() -> (Registry, GrantStore, u64) {
    let mut store = GrantStore::new();
    let admin = 1u64;
    store.global_admin = Some(admin);
    (Registry::new(), store, admin)
}

#[test]
fn test_register_contributor() {
    let (mut reg, _, _) = setup();
    let addr = 42u64;
    register_contributor(&mut reg, addr, 7).unwrap();
    assert_eq!(contributor_count(&reg), 1);
    let page = get_contributors_page(&reg, 0, 10);
    assert_eq!(page.len(), 1);
    assert_eq!(page[0].address, addr);
    assert_eq!(page[0].entry_type, RegistryEntryType::Contributor);
    assert!(page[0].is_active);
    assert_eq!(page[0].registered_at, 7);
}

#[test]
fn test_register_contributor_duplicate_index_entries_allowed_at_this_layer() {
    let (mut reg, _, _) = setup();
    register_contributor(&mut reg, 42, 0).unwrap();
    register_contributor(&mut reg, 42, 0).unwrap();
    assert_eq!(contributor_count(&reg), 2);
}

#[test]
fn test_register_contributor_does_not_scan_full_index() {
    let (mut reg, store, _) = setup();
    const PRE_EXISTING: u32 = 300;
    for i in 0..PRE_EXISTING {
        register_contributor(&mut reg, 1000 + i as u64, 0).unwrap();
    }
    assert_eq!(contributor_count(&reg), PRE_EXISTING);
    let new_addr = 5u64;
    assert!(store.get_contributor(new_addr).is_none());
    register_contributor(&mut reg, new_addr, 0).unwrap();
    assert_eq!(contributor_count(&reg), PRE_EXISTING + 1);
}

#[test]
fn test_register_multiple_contributors() {
    let (mut reg, _, _) = setup();
    register_contributor(&mut reg, 11, 0).unwrap();
    register_contributor(&mut reg, 12, 0).unwrap();
    register_contributor(&mut reg, 13, 0).unwrap();
    assert_eq!(contributor_count(&reg), 3);
}

#[test]
fn test_approve_reviewer() {
    let (mut reg, store, admin) = setup();
    approve_reviewer(&mut reg, &store, admin, 9).unwrap();
    assert!(is_approved_reviewer(&reg, 9));
}

#[test]
fn test_approve_reviewer_idempotent() {
    let (mut reg, store, admin) = setup();
    approve_reviewer(&mut reg, &store, admin, 9).unwrap();
    approve_reviewer(&mut reg, &store, admin, 9).unwrap();
    assert!(is_approved_reviewer(&reg, 9));
    assert_eq!(reg.reviewer_allowlist, vec![9]);
}

#[test]
#[should_panic]
fn test_approve_reviewer_unauthorized() {
    let (mut reg, store, _) = setup();
    approve_reviewer(&mut reg, &store, 2, 9).unwrap();
}

#[test]
fn test_revoke_reviewer() {
    let (mut reg, store, admin) = setup();
    approve_reviewer(&mut reg, &store, admin, 9).unwrap();
    assert!(is_approved_reviewer(&reg, 9));
    revoke_reviewer(&mut reg, &store, admin, 9).unwrap();
    assert!(!is_approved_reviewer(&reg, 9));
}

#[test]
#[should_panic]
fn test_revoke_reviewer_not_found() {
    let (mut reg, store, admin) = setup();
    revoke_reviewer(&mut reg, &store, admin, 9).unwrap();
}

#[test]
#[should_panic]
fn test_revoke_reviewer_unauthorized() {
    let (mut reg, store, admin) = setup();
    approve_reviewer(&mut reg, &store, admin, 9).unwrap();
    revoke_reviewer(&mut reg, &store, 2, 9).unwrap();
}

#[test]
fn test_is_approved_reviewer_returns_false_for_unknown() {
    let (reg, _, _) = setup();
    assert!(!is_approved_reviewer(&reg, 77));
}

#[test]
fn test_pagination() {
    let (mut reg, _, _) = setup();
    for i in 0..5u64 {
        register_contributor(&mut reg, 100 + i, 0).unwrap();
    }
    assert_eq!(contributor_count(&reg), 5);
    let page0 = get_contributors_page(&reg, 0, 3);
    assert_eq!(page0.len(), 3);
    let page1 = get_contributors_page(&reg, 3, 3);
    assert_eq!(page1.len(), 2);
    assert_eq!(page1[0].address, 103);
    let empty = get_contributors_page(&reg, 10, 3);
    assert_eq!(empty.len(), 0);
}

#[test]
fn test_contributor_count_empty() {
    let (reg, _, _) = setup();
    assert_eq!(contributor_count(&reg), 0);
}

#[test]
fn test_register_contributor_splits_across_pages() {
    let (mut reg, _, _) = setup();
    for i in 0..5u64 {
        register_contributor(&mut reg, 100 + i, 0).unwrap();
    }
    assert_eq!(contributor_count(&reg), 5);
    let page = get_contributors_page(&reg, 0, 10);
    assert_eq!(page.len(), 5);
}

#[test]
fn registry_pages_roll_over_at_limit() {
    let (mut reg, _, _) = setup();
    for i in 0..1001u64 {
        register_contributor(&mut reg, i, i).unwrap();
    }
    assert_eq!(reg.page_count, 2);
    assert_eq!(contributor_count(&reg), 1001);
    let page = get_contributors_page(&reg, 498, 5);
    let addrs: Vec<u64> = page.iter().map(|e| e.address).collect();
    assert_eq!(addrs, vec![498, 499, 500, 501, 502]);
    assert_eq!(get_contributors_page(&reg, 1000, 5).len(), 1);
}

#[test]
fn revoke_keeps_other_reviewers() {
    let (mut reg, store, admin) = setup();
    for r in [5u64, 6, 7] {
        approve_reviewer(&mut reg, &store, admin, r).unwrap();
    }
    revoke_reviewer(&mut reg, &store, admin, 6).unwrap();
    assert_eq!(reg.reviewer_allowlist, vec![5, 7]);
    assert_eq!(revoke_reviewer(&mut reg, &store, admin, 6), Err(ContractError::InvalidInput));
    assert_eq!(revoke_reviewer(&mut reg, &store, 3, 5), Err(ContractError::Unauthorized));
}
