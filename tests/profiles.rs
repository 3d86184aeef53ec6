use sit_core::profile::{PathInfo, ProfileInfo, ReconcileError, UserManager, UserProfiles};

fn member(sid: &str, username: Option<&str>, size: Option<u64>, paths: Option<Vec<(&str, u64)>>) -> ProfileInfo {
    ProfileInfo {
        domain: None,
        username: username.map(|u| u.to_string()),
        sid: sid.to_string(),
        health_status: 0,
        roaming_configured: false,
        roaming_path: None,
        roaming_preference: None,
        last_use_time: 1_700_000_000,
        last_download_time: None,
        last_upload_time: None,
        status: 0,
        size,
        path_size: paths.map(|ps| ps.into_iter().map(|(p, s)| PathInfo { path: p.to_string(), size: s }).collect()),
    }
}

fn snapshot(ms: Vec<ProfileInfo>) -> UserProfiles {
    UserProfiles { profiles: ms }
}

#[test]
fn pushing_same_snapshot_twice_is_idempotent() {
    let mut store = UserManager::new();
    let snap = snapshot(vec![
        member("S-A", Some("CORP\\alice"), Some(100), Some(vec![("Desktop", 10), ("Documents", 20)])),
        member("S-B", None, None, None),
    ]);
    store.update_profiles(1, &snap).unwrap();
    let users = store.users().clone();
    let rows = store.profiles().clone();
    let paths = store.profile_paths().clone();
    let second = store.update_profiles(1, &snap).unwrap();
    assert_eq!(store.users(), &users);
    assert_eq!(store.profiles(), &rows);
    assert_eq!(store.profile_paths(), &paths);
    assert!(second.to_add.is_empty());
    assert!(second.to_delete.is_empty());
    assert_eq!(second.to_update.len(), 2);
}

#[test]
fn snapshot_diff_deletes_inserts_updates() {
    let mut store = UserManager::new();
    store
        .update_profiles(1, &snapshot(vec![member("A", None, None, None), member("B", None, None, None), member("C", None, None, None)]))
        .unwrap();
    let plan = store
        .update_profiles(1, &snapshot(vec![member("D", None, None, None), member("C", None, None, None), member("B", None, None, None)]))
        .unwrap();
    // identities A, B, C, D get ids 1, 2, 3, 4
    assert_eq!(plan.to_delete, vec![1]);
    assert_eq!(plan.to_add, vec![4]);
    let mut upd = plan.to_update.clone();
    upd.sort();
    assert_eq!(upd, vec![2, 3]);
    let members: Vec<i32> = store.profiles().iter().filter(|r| r.client_id == 1).map(|r| r.user_id).collect();
    assert_eq!(members, vec![4, 3, 2]);
    assert_eq!(store.users().len(), 4);
}

#[test]
fn other_endpoints_keep_their_rows() {
    let mut store = UserManager::new();
    store.update_profiles(1, &snapshot(vec![member("A", None, None, None)])).unwrap();
    store.update_profiles(2, &snapshot(vec![member("A", None, None, None)])).unwrap();
    store.update_profiles(1, &snapshot(vec![])).unwrap();
    let rows = store.profiles();
    assert_eq!(rows.len(), 1);
    assert_eq!(rows[0].client_id, 2);
    assert_eq!(rows[0].user_id, 1);
}

#[test]
fn duplicate_member_is_refused() {
    let mut store = UserManager::new();
    let r = store.update_profiles(1, &snapshot(vec![member("A", None, None, None), member("A", None, None, None)]));
    assert_eq!(r.unwrap_err(), ReconcileError::DuplicateMember);
    assert!(store.users().is_empty());
    assert!(store.profiles().is_empty());
}

#[test]
fn missing_size_is_stored_absent() {
    let mut store = UserManager::new();
    store.update_profiles(1, &snapshot(vec![member("A", None, None, None), member("B", None, Some(0), None)])).unwrap();
    assert_eq!(store.profiles()[0].size, None);
    assert_eq!(store.profiles()[1].size, Some(0));
}

#[test]
fn identity_display_fields_are_split_and_refreshed() {
    let mut store = UserManager::new();
    store.update_profiles(1, &snapshot(vec![member("S-1", Some("CORP\\jdoe"), None, None)])).unwrap();
    assert_eq!(store.users()[0].username, Some("jdoe".to_string()));
    assert_eq!(store.users()[0].domain, Some("CORP".to_string()));
    store.update_profiles(1, &snapshot(vec![member("S-1", Some("jdoe2"), None, None)])).unwrap();
    assert_eq!(store.users()[0].username, Some("jdoe2".to_string()));
    assert_eq!(store.users()[0].domain, None);
    store.update_profiles(1, &snapshot(vec![member("S-1", None, None, None)])).unwrap();
    assert_eq!(store.users()[0].username, Some("jdoe2".to_string()));
    assert_eq!(store.users().len(), 1);
}

#[test]
fn path_sizes_are_upserted_not_replaced() {
    let mut store = UserManager::new();
    store.update_profiles(1, &snapshot(vec![member("A", None, None, Some(vec![("Desktop", 10), ("Music", 5)]))])).unwrap();
    store
        .update_profiles(1, &snapshot(vec![member("A", None, None, Some(vec![("Desktop", 30), ("Videos", 7), ("Videos", 9)]))]))
        .unwrap();
    let paths: Vec<(String, u64)> = store.profile_paths().iter().map(|p| (p.path.clone(), p.size)).collect();
    assert_eq!(
        paths,
        vec![("Desktop".to_string(), 30), ("Music".to_string(), 5), ("Videos".to_string(), 9)]
    );
}

#[test]
fn identity_cache_resolves_both_ways() {
    let mut store = UserManager::new();
    store.update_profiles(1, &snapshot(vec![member("S-X", None, None, None), member("S-Y", None, None, None)])).unwrap();
    assert_eq!(store.get_user_id_for_sid(&"S-Y".to_string()), Some(2));
    assert_eq!(store.get_user_id_for_sid(&"S-Y".to_string()), Some(2));
    assert_eq!(store.get_user_id_for_sid(&"S-Z".to_string()), None);
    assert_eq!(store.get_sid_for_user_id(1), Some("S-X".to_string()));
    assert_eq!(store.get_sid_for_user_id(3), None);
    store.invalidate_cache();
    assert_eq!(store.get_user_id_for_sid(&"S-X".to_string()), Some(1));
}

#[test]
fn cached_reverse_lookup_does_not_grow_answers() {
    let mut store = UserManager::new();
    store.update_profiles(3, &snapshot(vec![member("S-Q", None, None, None)])).unwrap();
    for _ in 0..3 {
        assert_eq!(store.get_sid_for_user_id(1), Some("S-Q".to_string()));
    }
    assert_eq!(store.get_user_id_for_sid(&"S-Q".to_string()), Some(store.users()[0].id));
}

#[test]
fn repeated_push_is_accepted_again() {
    let mut store = UserManager::new();
    let snap = snapshot(vec![member("S-1", None, None, Some(vec![("Desktop", 1)])), member("S-2", None, None, None)]);
    assert!(store.update_profiles(1, &snap).is_ok());
    assert!(store.update_profiles(1, &snap).is_ok());
    assert_eq!(store.users().len(), 2);
    assert_eq!(store.profiles().len(), 2);
    assert_eq!(store.profile_paths().len(), 1);
}
