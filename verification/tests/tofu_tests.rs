use thoenix::server::Server;
use thoenix::tofu::{
    Error, InMemoryState, TerraformLock, TerraformLockQuery, TerraformState,
    TerraformStateProvider,
};

fn lock_with_id(id: &str) -> TerraformLock {
    TerraformLock {
        id: id.to_string(),
        operation: "apply".to_string(),
        info: String::new(),
        who: "tester".to_string(),
        version: "1.5.0".to_string(),
    }
}

#[test]
fn test_state_is_locked() {
    let mut state = TerraformState::default();
    assert!(!state.is_locked());
    state.lock(lock_with_id("a")).unwrap();
    assert!(state.is_locked());
}

#[test]
fn test_state_check_lock() {
    let mut state = TerraformState::default();
    assert!(state.check_lock("anyone").is_ok());
    state.lock(lock_with_id("owner")).unwrap();
    assert!(state.check_lock("owner").is_ok());
    assert_eq!(state.check_lock("intruder").unwrap_err(), Error::StateLocked);
}

#[test]
fn test_state_lock_conflicts() {
    let mut state = TerraformState::default();
    state.lock(lock_with_id("a")).unwrap();
    assert_eq!(state.lock(lock_with_id("b")).unwrap_err(), Error::StateLocked);
    // Even re-locking under the same id conflicts.
    assert_eq!(state.lock(lock_with_id("a")).unwrap_err(), Error::StateLocked);
}

#[test]
fn test_state_unlock() {
    let mut state = TerraformState::default();
    state.lock(lock_with_id("a")).unwrap();
    assert_eq!(state.unlock(&lock_with_id("b")).unwrap_err(), Error::StateLocked);
    assert!(state.is_locked());
    state.unlock(&lock_with_id("a")).unwrap();
    assert!(!state.is_locked());
    // Unlocking an unlocked state succeeds.
    state.unlock(&lock_with_id("a")).unwrap();
}

#[test]
fn test_store_missing_state_is_not_found() {
    let mut store = InMemoryState::new();
    assert!(store.get_state("x").unwrap().is_none());
    assert_eq!(store.update_state("x", "l", "d".to_string()).unwrap_err(), Error::NotFound);
    assert_eq!(store.lock_state("x", lock_with_id("l")).unwrap_err(), Error::NotFound);
    assert_eq!(store.unlock_state("x", &lock_with_id("l")).unwrap_err(), Error::NotFound);
    assert_eq!(store.expect_not_locked("x").unwrap_err(), Error::NotFound);
}

#[test]
fn test_store_create_and_get() {
    let mut store = InMemoryState::new();
    store.create_state("s1".to_string()).unwrap();
    let state = store.get_state("s1").unwrap().unwrap();
    assert!(!state.is_locked());
    assert_eq!(state.data, "");
}

#[test]
fn test_store_update_unlocked_state() {
    let mut store = InMemoryState::new();
    store.create_state("s1".to_string()).unwrap();
    store.update_state("s1", "whoever", "contents".to_string()).unwrap();
    assert_eq!(store.get_state("s1").unwrap().unwrap().data, "contents");
}

#[test]
fn test_store_lock_guards_updates() {
    let mut store = InMemoryState::new();
    store.create_state("s1".to_string()).unwrap();
    store.lock_state("s1", lock_with_id("owner")).unwrap();

    assert_eq!(
        store.update_state("s1", "intruder", "evil".to_string()).unwrap_err(),
        Error::StateLocked
    );
    store.update_state("s1", "owner", "good".to_string()).unwrap();
    assert_eq!(store.get_state("s1").unwrap().unwrap().data, "good");
}

#[test]
fn test_store_double_lock_conflicts() {
    let mut store = InMemoryState::new();
    store.create_state("s1".to_string()).unwrap();
    store.lock_state("s1", lock_with_id("a")).unwrap();
    assert_eq!(store.lock_state("s1", lock_with_id("b")).unwrap_err(), Error::StateLocked);
    assert_eq!(store.expect_not_locked("s1").unwrap_err(), Error::StateLocked);
}

#[test]
fn test_store_unlock_requires_owner() {
    let mut store = InMemoryState::new();
    store.create_state("s1".to_string()).unwrap();
    store.lock_state("s1", lock_with_id("a")).unwrap();
    assert_eq!(store.unlock_state("s1", &lock_with_id("b")).unwrap_err(), Error::StateLocked);
    store.unlock_state("s1", &lock_with_id("a")).unwrap();
    store.expect_not_locked("s1").unwrap();
    // The lock is gone; a new owner may take it.
    store.lock_state("s1", lock_with_id("b")).unwrap();
}

#[test]
fn test_store_create_resets_state() {
    let mut store = InMemoryState::new();
    store.create_state("s1".to_string()).unwrap();
    store.update_state("s1", "l", "old contents".to_string()).unwrap();
    store.create_state("s1".to_string()).unwrap();
    assert_eq!(store.get_state("s1").unwrap().unwrap().data, "");
}

#[test]
fn test_store_keeps_states_separate() {
    let mut store = InMemoryState::new();
    store.create_state("a".to_string()).unwrap();
    store.create_state("b".to_string()).unwrap();
    store.lock_state("a", lock_with_id("owner")).unwrap();
    // Locking "a" leaves "b" untouched.
    store.expect_not_locked("b").unwrap();
    store.update_state("b", "anyone", "bbb".to_string()).unwrap();
    assert_eq!(store.get_state("a").unwrap().unwrap().data, "");
    assert_eq!(store.get_state("b").unwrap().unwrap().data, "bbb");
}

#[test]
fn test_lock_clone_and_query_default() {
    let lock = lock_with_id("a");
    assert_eq!(lock.clone(), lock);
    let query = TerraformLockQuery::default();
    assert_eq!(query.id, "");
}

#[test]
fn test_server_new_keeps_data_dir() {
    let server = Server::new("/srv/data".to_string());
    assert_eq!(server.data_dir, "/srv/data");
}
