use sled_explorer::commands::{
    create_connection, get, get_connection, get_connections, get_stats, get_trees, range_query,
    remove_connection, CreateConnectionRequest, GetRequest, RangeQueryRequest,
};
use sled_explorer::error::StoreError;
use sled_explorer::sled_manager::{init_sled_manager, RangeQuery, SledManager};
use std::io::Write;
use tempfile::TempDir;

fn connect(manager: &mut SledManager, dir: &TempDir, name: &str) -> String {
    let path = dir.path().join(name).to_string_lossy().to_string();
    create_connection(CreateConnectionRequest { name: name.to_string(), path }, manager).unwrap()
}

#[test]
fn a_new_registry_is_empty() {
    let manager = init_sled_manager();
    assert!(get_connections(&manager).unwrap().is_empty());
    assert!(get_connection("any".to_string(), &manager).unwrap().is_none());
}

#[test]
fn a_connection_is_recorded() {
    let dir = TempDir::new().unwrap();
    let mut manager = SledManager::new();
    let path = dir.path().join("one").to_string_lossy().to_string();
    let id = manager.add_connection("label".to_string(), path.clone()).unwrap();
    assert_eq!(id.len(), 36);
    let info = manager.get_connection(&id).unwrap();
    assert_eq!(info.id, id);
    assert_eq!(info.name, "label");
    assert_eq!(info.path, path);
    assert_eq!(info.created_at, info.last_accessed);
    assert!(info.created_at.secs > 1_600_000_000);
}

#[test]
fn ids_are_fresh() {
    let dir = TempDir::new().unwrap();
    let mut manager = SledManager::new();
    let first = connect(&mut manager, &dir, "same_name_a");
    let second = connect(&mut manager, &dir, "same_name_b");
    assert!(first != second);
    let infos = get_connections(&manager).unwrap();
    let mut ids: Vec<String> = infos.into_iter().map(|i| i.id).collect();
    ids.sort();
    let mut expected = vec![first, second];
    expected.sort();
    assert_eq!(ids, expected);
}

#[test]
fn a_path_that_cannot_be_opened() {
    let dir = TempDir::new().unwrap();
    let mut file = tempfile::Builder::new().prefix("plain").rand_bytes(0).tempfile_in(dir.path()).unwrap();
    file.write_all(b"not a store").unwrap();
    let mut manager = SledManager::new();
    let path = dir.path().join("plain").to_string_lossy().to_string();
    let result = manager.add_connection("broken".to_string(), path);
    match result {
        Err(StoreError::Open(_)) => {}
        other => panic!("{:?}", other),
    }
    assert!(manager.get_connections().is_empty());
}

#[test]
fn the_same_path_cannot_be_opened_twice() {
    let dir = TempDir::new().unwrap();
    let mut manager = SledManager::new();
    let path = dir.path().join("twice").to_string_lossy().to_string();
    manager.add_connection("first".to_string(), path.clone()).unwrap();
    assert!(matches!(manager.add_connection("second".to_string(), path), Err(StoreError::Open(_))));
    assert_eq!(manager.get_connections().len(), 1);
}

#[test]
fn a_removed_connection_is_gone() {
    let dir = TempDir::new().unwrap();
    let mut manager = SledManager::new();
    let id = connect(&mut manager, &dir, "going");
    let other = connect(&mut manager, &dir, "staying");
    remove_connection(id.clone(), &mut manager).unwrap();
    match manager.get_database(&id) {
        Err(StoreError::NotFound(carried)) => assert_eq!(carried, id),
        Ok(_) => panic!("still there"),
        Err(other) => panic!("{:?}", other),
    }
    let request = GetRequest { connection_id: id.clone(), tree_name: None, key: b"k".to_vec() };
    assert!(matches!(get(request, &mut manager), Err(StoreError::NotFound(_))));
    let request = RangeQueryRequest {
        connection_id: id.clone(),
        tree_name: None,
        query: RangeQuery { from: None, to: None, limit: None, reverse: false },
    };
    assert!(matches!(range_query(request, &mut manager), Err(StoreError::NotFound(_))));
    assert!(matches!(get_trees(id.clone(), &manager), Err(StoreError::NotFound(_))));
    assert!(matches!(get_stats(id.clone(), &manager), Err(StoreError::NotFound(_))));
    let infos = get_connections(&manager).unwrap();
    assert_eq!(infos.len(), 1);
    assert_eq!(infos[0].id, other);
    assert!(get_connection(id.clone(), &manager).unwrap().is_none());
    remove_connection(id, &mut manager).unwrap();
    assert_eq!(get_connections(&manager).unwrap().len(), 1);
}

#[test]
fn removing_closes_the_store() {
    let dir = TempDir::new().unwrap();
    let mut manager = SledManager::new();
    let path = dir.path().join("reopen").to_string_lossy().to_string();
    let id = manager.add_connection("first".to_string(), path.clone()).unwrap();
    manager.set(&id, b"default", b"k", b"v").unwrap();
    manager.remove_connection(&id).unwrap();
    let again = manager.add_connection("second".to_string(), path).unwrap();
    assert_eq!(manager.get(&again, b"default", b"k").unwrap().unwrap().value, b"v".to_vec());
}

#[test]
fn stats_count_the_default_tree() {
    let dir = TempDir::new().unwrap();
    let mut manager = SledManager::new();
    let id = connect(&mut manager, &dir, "stats");
    let stats = get_stats(id.clone(), &manager).unwrap();
    assert_eq!(stats.key_count, 0);
    assert_eq!(stats.tree_count, 1);
    for i in 0..5 {
        let key = format!("stats_key_{}", i);
        let value = format!("stats_value_{}", i);
        manager.set(&id, b"default", key.as_bytes(), value.as_bytes()).unwrap();
    }
    for i in 0..3 {
        manager.set(&id, b"__sled__default", format!("k{}", i).as_bytes(), b"v").unwrap();
    }
    manager.set(&id, b"other", b"k", b"v").unwrap();
    let stats = get_stats(id, &manager).unwrap();
    assert_eq!(stats.key_count, 5);
    assert_eq!(stats.tree_count, 3);
    assert!(stats.last_modified.secs > 1_600_000_000);
    assert!(matches!(get_stats("nobody".to_string(), &manager), Err(StoreError::NotFound(_))));
}

#[test]
fn last_access_can_be_stamped() {
    let dir = TempDir::new().unwrap();
    let mut manager = SledManager::new();
    let id = connect(&mut manager, &dir, "stamp");
    let before = manager.get_connection(&id).unwrap();
    manager.update_last_accessed(&id).unwrap();
    manager.update_last_accessed("nobody").unwrap();
    let after = manager.get_connection(&id).unwrap();
    assert_eq!(after.created_at, before.created_at);
    assert_eq!(after.name, before.name);
    assert!((after.last_accessed.secs, after.last_accessed.nanos) >= (before.last_accessed.secs, before.last_accessed.nanos));
    assert_eq!(manager.get_connections().len(), 1);
}

#[test]
fn messages_describe_the_failure() {
    assert_eq!(
        StoreError::NotFound("abc".to_string()).message(),
        "Database connection not found: abc"
    );
    assert_eq!(StoreError::UnsupportedFormat("toml".to_string()).message(), "unsupported format: toml");
    assert_eq!(StoreError::Open("x".to_string()).message(), "cannot open store: x");
    assert_eq!(StoreError::Tree("x".to_string()).message(), "store operation failed: x");
    assert_eq!(StoreError::Parse("x".to_string()).message(), "malformed input: x");
    assert_eq!(StoreError::Io("x".to_string()).message(), "cannot write document: x");
}

#[test]
fn a_given_moment_is_stamped() {
    let dir = TempDir::new().unwrap();
    let mut manager = SledManager::new();
    let id = connect(&mut manager, &dir, "given");
    let other = connect(&mut manager, &dir, "untouched");
    let before = manager.get_connection(&id).unwrap();
    let untouched = manager.get_connection(&other).unwrap();
    let moment = sled_explorer::sled_manager::Timestamp { secs: 12345, nanos: 678 };
    manager.stamp_last_accessed(&id, moment);
    manager.stamp_last_accessed("nobody", moment);
    let after = manager.get_connection(&id).unwrap();
    assert_eq!(after.last_accessed, moment);
    assert_eq!(after.created_at, before.created_at);
    assert_eq!(after.id, before.id);
    assert_eq!(after.name, before.name);
    assert_eq!(after.path, before.path);
    let still = manager.get_connection(&other).unwrap();
    assert_eq!(still.last_accessed, untouched.last_accessed);
    assert_eq!(manager.get_connections().len(), 2);
    manager.set(&id, b"default", b"k", b"v").unwrap();
    manager.stamp_last_accessed(&id, sled_explorer::sled_manager::Timestamp { secs: 1, nanos: 0 });
    assert_eq!(manager.get(&id, b"default", b"k").unwrap().unwrap().value, b"v".to_vec());
}
