use tor_storage::dirstore::CustomDirStore;
use tor_storage::kv::{KeyValueStore, LockStatus, MemoryKeyValueStore};
use tor_storage::persist::{BoxedStateMgr, CustomStateMgr, MemoryStateMgr};
use tor_storage::split::split_storage;

fn test_data() -> serde_json::Value {
    let mut fields = serde_json::Map::new();
    fields.insert("name".to_string(), serde_json::Value::String("test".to_string()));
    fields.insert("value".to_string(), serde_json::Value::from(42));
    serde_json::Value::Object(fields)
}

#[test]
fn state_adapter_prefixes_keys() {
    let mut statemgr = split_storage(MemoryKeyValueStore::new());

    assert_eq!(statemgr.try_lock().unwrap(), LockStatus::NewlyAcquired);
    assert!(statemgr.can_store());

    statemgr
        .store_json("guards", &serde_json::to_string(&42i32).unwrap())
        .unwrap();

    let loaded: Option<i32> = statemgr
        .load_json("guards")
        .unwrap()
        .map(|s| serde_json::from_str(&s).unwrap());
    assert_eq!(loaded, Some(42));

    let missing = statemgr.load_json("missing").unwrap();
    assert!(missing.is_none());
}

#[test]
fn state_keys_get_state_prefix_in_backend() {
    let mut storage = split_storage(MemoryKeyValueStore::new());
    CustomStateMgr::try_lock(&mut storage).unwrap();
    storage.store_json("guards", "1").unwrap();
    assert_eq!(
        CustomDirStore::load(&storage, "state:guards").unwrap().as_deref(),
        Some("1")
    );
    assert!(CustomDirStore::load(&storage, "guards").unwrap().is_none());
}

#[test]
fn dir_adapter_passes_keys_through() {
    let mut adapter = split_storage(MemoryKeyValueStore::new());

    assert!(adapter.is_readonly());

    assert_eq!(adapter.upgrade_to_readwrite().unwrap(), true);
    assert!(!adapter.is_readonly());

    adapter.store("dir:consensus:test", "consensus data").unwrap();

    let loaded = adapter.load("dir:consensus:test").unwrap();
    assert_eq!(loaded.as_deref(), Some("consensus data"));

    let keys = adapter.keys("dir:consensus:").unwrap();
    assert_eq!(keys, vec!["dir:consensus:test"]);

    adapter.delete("dir:consensus:test").unwrap();
    assert!(adapter.load("dir:consensus:test").unwrap().is_none());
}

#[test]
fn shared_lock_state() {
    let mut statemgr = split_storage(MemoryKeyValueStore::new());

    assert!(!statemgr.can_store());

    assert_eq!(statemgr.try_lock().unwrap(), LockStatus::NewlyAcquired);
    assert!(statemgr.can_store());

    assert_eq!(statemgr.try_lock().unwrap(), LockStatus::AlreadyHeld);

    CustomStateMgr::unlock(&mut statemgr).unwrap();
    assert!(!statemgr.can_store());
}

#[test]
fn lock_taken_by_state_view_opens_directory_view() {
    let mut storage = split_storage(MemoryKeyValueStore::new());
    assert!(storage.store("dir:protocols", "x").is_err());
    assert_eq!(storage.dir_writable().unwrap(), false);
    CustomStateMgr::try_lock(&mut storage).unwrap();
    assert_eq!(storage.dir_writable().unwrap(), true);
    assert!(!storage.is_readonly());
    assert_eq!(storage.is_locked().unwrap(), true);
    storage.store("dir:protocols", "x").unwrap();
    assert_eq!(storage.load("dir:protocols").unwrap().as_deref(), Some("x"));
}

#[test]
fn directory_write_without_lock_is_read_only_error() {
    let mut storage = split_storage(MemoryKeyValueStore::new());
    match storage.store("dir:x", "y") {
        Err(tor_storage::dirstore::DirError::ReadOnly) => {}
        other => panic!("expected ReadOnly, got {:?}", other),
    }
    match storage.delete("dir:x") {
        Err(tor_storage::dirstore::DirError::ReadOnly) => {}
        other => panic!("expected ReadOnly, got {:?}", other),
    }
}

#[test]
fn delete_absent_and_unlock_unlocked_never_fail() {
    let mut store = MemoryKeyValueStore::new();
    assert!(KeyValueStore::delete(&mut store, "absent").is_ok());
    assert!(KeyValueStore::unlock(&mut store).is_ok());
    assert_eq!(KeyValueStore::is_locked(&store).unwrap(), false);
    let mut mgr = MemoryStateMgr::new();
    assert!(mgr.unlock().is_ok());
}

#[test]
fn memory_key_value_store_round_trip() {
    let mut store = MemoryKeyValueStore::new();
    KeyValueStore::set(&mut store, "a:1", "one").unwrap();
    KeyValueStore::set(&mut store, "a:2", "two").unwrap();
    KeyValueStore::set(&mut store, "b:1", "three").unwrap();
    KeyValueStore::set(&mut store, "a:1", "uno").unwrap();
    assert_eq!(KeyValueStore::get(&store, "a:1").unwrap().as_deref(), Some("uno"));
    let mut keys = KeyValueStore::keys(&store, "a:").unwrap();
    keys.sort();
    assert_eq!(keys, vec!["a:1".to_string(), "a:2".to_string()]);
    KeyValueStore::delete(&mut store, "a:1").unwrap();
    assert!(KeyValueStore::get(&store, "a:1").unwrap().is_none());
    assert_eq!(KeyValueStore::try_lock(&mut store).unwrap(), true);
    assert_eq!(KeyValueStore::try_lock(&mut store).unwrap(), false);
}

#[test]
fn test_boxed_state_mgr() {
    let storage = split_storage(MemoryKeyValueStore::new());
    let mut mgr = BoxedStateMgr::new(storage);

    let status = mgr.try_lock().unwrap();
    assert_eq!(status, LockStatus::NewlyAcquired);
    assert!(mgr.can_store());

    let data = test_data();
    mgr.store_json("test_key", &serde_json::to_string(&data).unwrap())
        .unwrap();

    let loaded: Option<serde_json::Value> = mgr
        .load_json("test_key")
        .unwrap()
        .map(|s| serde_json::from_str(&s).unwrap());
    assert_eq!(loaded, Some(data));

    let missing = mgr.load_json("missing").unwrap();
    assert!(missing.is_none());
}

#[test]
fn boxed_state_mgr_refuses_store_without_lock() {
    let mut mgr = BoxedStateMgr::new(split_storage(MemoryKeyValueStore::new()));
    let e = mgr.store_json("k", "1").unwrap_err();
    assert!(e.is_no_lock());
    assert_eq!(e.action, tor_storage::persist::Action::Storing);
    assert_eq!(e.key, "k");
}

#[test]
fn test_memory_state_mgr_basic() {
    let mgr = MemoryStateMgr::new();

    assert!(!mgr.can_store());

    let result = mgr.load_json("test_key").expect("load should succeed");
    assert!(result.is_none());
}

#[test]
fn test_memory_state_mgr_store_load() {
    let mut mgr = MemoryStateMgr::new();

    let status = mgr.try_lock().expect("try_lock should succeed");
    assert_eq!(status, LockStatus::NewlyAcquired);
    assert!(mgr.can_store());

    let data = test_data();
    mgr.store_json("test_key", &serde_json::to_string(&data).unwrap())
        .expect("store should succeed");

    let loaded: Option<serde_json::Value> = mgr
        .load_json("test_key")
        .expect("load should succeed")
        .map(|s| serde_json::from_str(&s).unwrap());
    assert_eq!(loaded, Some(data));
}

#[test]
fn test_memory_state_mgr_lock_status() {
    let mut mgr = MemoryStateMgr::new();

    let status = mgr.try_lock().expect("try_lock should succeed");
    assert_eq!(status, LockStatus::NewlyAcquired);

    let status = mgr.try_lock().expect("try_lock should succeed");
    assert_eq!(status, LockStatus::AlreadyHeld);

    mgr.unlock().expect("unlock should succeed");
    assert!(!mgr.can_store());

    let status = mgr.try_lock().expect("try_lock should succeed");
    assert_eq!(status, LockStatus::NewlyAcquired);
}

#[test]
fn test_memory_state_mgr_store_without_lock() {
    let mut mgr = MemoryStateMgr::new();

    let data = test_data();

    let result = mgr.store_json("test_key", &serde_json::to_string(&data).unwrap());
    assert!(result.is_err());
}

#[test]
fn test_memory_state_mgr_new_locked() {
    let mut mgr = MemoryStateMgr::new_locked();
    assert!(mgr.can_store());

    let data = test_data();
    mgr.store_json("test_key", &serde_json::to_string(&data).unwrap())
        .expect("store should succeed");
}

#[test]
fn memory_state_mgr_path_is_empty() {
    assert_eq!(MemoryStateMgr::new().path(), "");
}
