use sled_explorer::commands::{
    create_tree, get, get_trees, import_data, prefix_query, range_query, remove, remove_tree,
    GetRequest, ImportRequest, PrefixQueryRequest, RangeQueryRequest, RemoveRequest, SetRequest,
};
use sled_explorer::error::StoreError;
use sled_explorer::sled_manager::{KeyValue, PrefixQuery, RangeQuery, SledManager, ValueType};
use tempfile::TempDir;

fn open(name: &str) -> (SledManager, String, TempDir) {
    let dir = TempDir::new().unwrap();
    let mut manager = SledManager::new();
    let path = dir.path().join(name).to_string_lossy().to_string();
    let id = manager.add_connection(name.to_string(), path).unwrap();
    (manager, id, dir)
}

fn put(manager: &mut SledManager, id: &str, tree: Option<&str>, key: &[u8], value: &[u8]) -> Option<Vec<u8>> {
    sled_explorer::commands::set(
        SetRequest {
            connection_id: id.to_string(),
            tree_name: tree.map(|t| t.to_string()),
            key: key.to_vec(),
            value: value.to_vec(),
        },
        manager,
    )
    .unwrap()
}

fn fetch(manager: &mut SledManager, id: &str, tree: Option<&str>, key: &[u8]) -> Option<KeyValue> {
    get(
        GetRequest {
            connection_id: id.to_string(),
            tree_name: tree.map(|t| t.to_string()),
            key: key.to_vec(),
        },
        manager,
    )
    .unwrap()
}

fn range(
    manager: &mut SledManager,
    id: &str,
    from: Option<&[u8]>,
    to: Option<&[u8]>,
    limit: Option<usize>,
    reverse: bool,
) -> (Vec<Vec<u8>>, usize, bool) {
    let result = range_query(
        RangeQueryRequest {
            connection_id: id.to_string(),
            tree_name: None,
            query: RangeQuery {
                from: from.map(|b| b.to_vec()),
                to: to.map(|b| b.to_vec()),
                limit,
                reverse,
            },
        },
        manager,
    )
    .unwrap();
    (result.entries.into_iter().map(|e| e.key).collect(), result.total_count, result.has_more)
}

fn keys(names: &[&str]) -> Vec<Vec<u8>> {
    names.iter().map(|n| n.as_bytes().to_vec()).collect()
}

fn ten_keys(manager: &mut SledManager, id: &str) {
    for i in 0..10 {
        put(manager, id, None, format!("key_{:02}", i).as_bytes(), format!("value_{}", i).as_bytes());
    }
}

#[test]
fn set_then_get_gives_the_value() {
    let (mut manager, id, _dir) = open("set_get");
    assert_eq!(put(&mut manager, &id, None, b"k", b"v1"), None);
    let found = fetch(&mut manager, &id, None, b"k").unwrap();
    assert_eq!(found.key, b"k".to_vec());
    assert_eq!(found.value, b"v1".to_vec());
    assert_eq!(found.value_type, ValueType::String);
    assert_eq!(put(&mut manager, &id, None, b"k", b"42"), Some(b"v1".to_vec()));
    let found = fetch(&mut manager, &id, None, b"k").unwrap();
    assert_eq!(found.value, b"42".to_vec());
    assert_eq!(found.value_type, ValueType::Number);
}

#[test]
fn binary_keys_and_values_survive() {
    let (mut manager, id, _dir) = open("binary");
    let key = vec![0u8, 255, 1, 254];
    let value = vec![255u8, 0, 128];
    put(&mut manager, &id, None, &key, &value);
    let found = fetch(&mut manager, &id, None, &key).unwrap();
    assert_eq!(found.key, key);
    assert_eq!(found.value, value);
    assert_eq!(found.value_type, ValueType::Binary);
    put(&mut manager, &id, None, b"", b"empty key");
    assert_eq!(fetch(&mut manager, &id, None, b"").unwrap().value, b"empty key".to_vec());
}

#[test]
fn remove_then_get_gives_nothing() {
    let (mut manager, id, _dir) = open("remove_get");
    put(&mut manager, &id, None, b"k", b"v");
    let request = RemoveRequest { connection_id: id.clone(), tree_name: None, key: b"k".to_vec() };
    assert_eq!(remove(request, &mut manager).unwrap(), Some(b"v".to_vec()));
    assert!(fetch(&mut manager, &id, None, b"k").is_none());
    let request = RemoveRequest { connection_id: id.clone(), tree_name: None, key: b"k".to_vec() };
    assert_eq!(remove(request, &mut manager).unwrap(), None);
}

#[test]
fn trees_are_apart() {
    let (mut manager, id, _dir) = open("apart");
    put(&mut manager, &id, Some("left"), b"k", b"l");
    put(&mut manager, &id, Some("right"), b"k", b"r");
    put(&mut manager, &id, None, b"k", b"d");
    assert_eq!(fetch(&mut manager, &id, Some("left"), b"k").unwrap().value, b"l".to_vec());
    assert_eq!(fetch(&mut manager, &id, Some("right"), b"k").unwrap().value, b"r".to_vec());
    assert_eq!(fetch(&mut manager, &id, None, b"k").unwrap().value, b"d".to_vec());
    assert_eq!(fetch(&mut manager, &id, Some("default"), b"k").unwrap().value, b"d".to_vec());
    assert!(fetch(&mut manager, &id, Some("other"), b"k").is_none());
}

#[test]
fn range_query_between_bounds() {
    let (mut manager, id, _dir) = open("range_bounds");
    ten_keys(&mut manager, &id);
    let (found, total, more) = range(&mut manager, &id, Some(b"key_03"), Some(b"key_07"), Some(5), false);
    assert_eq!(found, keys(&["key_03", "key_04", "key_05", "key_06"]));
    assert_eq!(total, 10);
    assert!(!more);
}

#[test]
fn limit_sets_has_more() {
    let (mut manager, id, _dir) = open("limit");
    ten_keys(&mut manager, &id);
    let (found, total, more) = range(&mut manager, &id, None, None, Some(5), false);
    assert_eq!(found, keys(&["key_00", "key_01", "key_02", "key_03", "key_04"]));
    assert_eq!(total, 10);
    assert!(more);
    let (found, _, more) = range(&mut manager, &id, None, None, Some(20), false);
    assert_eq!(found.len(), 10);
    assert!(!more);
    let (found, _, more) = range(&mut manager, &id, None, None, Some(10), false);
    assert_eq!(found.len(), 10);
    assert!(!more);
    let (found, _, more) = range(&mut manager, &id, None, None, Some(9), false);
    assert_eq!(found.len(), 9);
    assert!(more);
    let (found, _, more) = range(&mut manager, &id, None, None, None, false);
    assert_eq!(found.len(), 10);
    assert!(!more);
}

#[test]
fn limit_of_zero() {
    let (mut manager, id, _dir) = open("zero");
    let (found, total, more) = range(&mut manager, &id, None, None, Some(0), false);
    assert!(found.is_empty());
    assert_eq!(total, 0);
    assert!(!more);
    ten_keys(&mut manager, &id);
    let (found, total, more) = range(&mut manager, &id, None, None, Some(0), false);
    assert!(found.is_empty());
    assert_eq!(total, 10);
    assert!(more);
    let (found, _, more) = range(&mut manager, &id, Some(b"zzz"), None, Some(0), false);
    assert!(found.is_empty());
    assert!(!more);
}

#[test]
fn reverse_walks_the_bounded_range_down() {
    let (mut manager, id, _dir) = open("reverse");
    ten_keys(&mut manager, &id);
    let (found, _, more) = range(&mut manager, &id, Some(b"key_03"), Some(b"key_07"), None, true);
    assert_eq!(found, keys(&["key_06", "key_05", "key_04", "key_03"]));
    assert!(!more);
    let (found, total, more) = range(&mut manager, &id, Some(b"key_03"), Some(b"key_07"), Some(2), true);
    assert_eq!(found, keys(&["key_06", "key_05"]));
    assert_eq!(total, 10);
    assert!(more);
    let (found, _, _) = range(&mut manager, &id, None, None, Some(3), true);
    assert_eq!(found, keys(&["key_09", "key_08", "key_07"]));
}

#[test]
fn open_ended_and_empty_ranges() {
    let (mut manager, id, _dir) = open("open_ended");
    ten_keys(&mut manager, &id);
    let (found, _, _) = range(&mut manager, &id, Some(b"key_08"), None, None, false);
    assert_eq!(found, keys(&["key_08", "key_09"]));
    let (found, _, _) = range(&mut manager, &id, None, Some(b"key_02"), None, false);
    assert_eq!(found, keys(&["key_00", "key_01"]));
    let (found, _, more) = range(&mut manager, &id, Some(b"key_05"), Some(b"key_05"), None, false);
    assert!(found.is_empty());
    assert!(!more);
    let (found, total, _) = range(&mut manager, &id, Some(b"key_07"), Some(b"key_03"), None, false);
    assert!(found.is_empty());
    assert_eq!(total, 10);
    let (found, _, _) = range(&mut manager, &id, Some(b"key_07"), Some(b"key_03"), None, true);
    assert!(found.is_empty());
    let (found, _, _) = range(&mut manager, &id, Some(b"key_045"), Some(b"key_06"), None, false);
    assert_eq!(found, keys(&["key_05"]));
}

#[test]
fn order_is_by_bytes() {
    let (mut manager, id, _dir) = open("bytes");
    for key in [&b"b"[..], b"a", b"ab", b"B", b"10", b"9", b"\xff", b"", b"a\x00"] {
        put(&mut manager, &id, None, key, b"x");
    }
    let (found, _, _) = range(&mut manager, &id, None, None, None, false);
    let expected: Vec<Vec<u8>> = vec![
        b"".to_vec(),
        b"10".to_vec(),
        b"9".to_vec(),
        b"B".to_vec(),
        b"a".to_vec(),
        b"a\x00".to_vec(),
        b"ab".to_vec(),
        b"b".to_vec(),
        b"\xff".to_vec(),
    ];
    assert_eq!(found, expected);
    let mut sorted = found.clone();
    sorted.sort();
    assert_eq!(found, sorted);
}

fn prefix(manager: &mut SledManager, id: &str, prefix: &[u8], limit: Option<usize>) -> (Vec<Vec<u8>>, usize, bool) {
    let result = prefix_query(
        PrefixQueryRequest {
            connection_id: id.to_string(),
            tree_name: None,
            query: PrefixQuery { prefix: prefix.to_vec(), limit },
        },
        manager,
    )
    .unwrap();
    (result.entries.into_iter().map(|e| e.key).collect(), result.total_count, result.has_more)
}

#[test]
fn prefix_query_finds_the_prefix() {
    let (mut manager, id, _dir) = open("prefix");
    for i in 0..5 {
        put(&mut manager, &id, None, format!("user_{}", i).as_bytes(), format!("user_data_{}", i).as_bytes());
    }
    for i in 0..3 {
        put(&mut manager, &id, None, format!("admin_{}", i).as_bytes(), format!("admin_data_{}", i).as_bytes());
    }
    let (found, total, more) = prefix(&mut manager, &id, b"user_", Some(10));
    assert_eq!(found, keys(&["user_0", "user_1", "user_2", "user_3", "user_4"]));
    assert_eq!(total, 8);
    assert!(!more);
    let (found, total, more) = prefix(&mut manager, &id, b"user_", Some(2));
    assert_eq!(found, keys(&["user_0", "user_1"]));
    assert_eq!(total, 8);
    assert!(more);
    let (found, _, _) = prefix(&mut manager, &id, b"", None);
    assert_eq!(found.len(), 8);
    let (found, _, more) = prefix(&mut manager, &id, b"nobody", None);
    assert!(found.is_empty());
    assert!(!more);
}

#[test]
fn prefix_of_high_bytes() {
    let (mut manager, id, _dir) = open("high");
    for key in [&b"\xff"[..], b"\xff\xff", b"\xff\xff\x01", b"\xfe\xff", b"\xff\x00"] {
        put(&mut manager, &id, None, key, b"x");
    }
    let (found, _, _) = prefix(&mut manager, &id, b"\xff\xff", None);
    assert_eq!(found, vec![b"\xff\xff".to_vec(), b"\xff\xff\x01".to_vec()]);
    let (found, _, _) = prefix(&mut manager, &id, b"\xff", None);
    assert_eq!(found.len(), 4);
    let (found, _, _) = prefix(&mut manager, &id, b"\xfe\xff", None);
    assert_eq!(found, vec![b"\xfe\xff".to_vec()]);
}

#[test]
fn query_results_carry_values_and_hints() {
    let (mut manager, id, _dir) = open("hints");
    put(&mut manager, &id, None, b"a", b"true");
    put(&mut manager, &id, None, b"b", b"{}");
    put(&mut manager, &id, None, b"c", b"\xff");
    let result = range_query(
        RangeQueryRequest {
            connection_id: id.clone(),
            tree_name: None,
            query: RangeQuery { from: None, to: None, limit: None, reverse: false },
        },
        &mut manager,
    )
    .unwrap();
    let seen: Vec<(Vec<u8>, Vec<u8>, ValueType)> =
        result.entries.into_iter().map(|e| (e.key, e.value, e.value_type)).collect();
    assert_eq!(
        seen,
        vec![
            (b"a".to_vec(), b"true".to_vec(), ValueType::Boolean),
            (b"b".to_vec(), b"{}".to_vec(), ValueType::Json),
            (b"c".to_vec(), b"\xff".to_vec(), ValueType::Binary),
        ]
    );
}

#[test]
fn bulk_import_overwrites() {
    let (mut manager, id, _dir) = open("bulk");
    put(&mut manager, &id, None, b"import_key_1", b"old");
    let data = vec![
        KeyValue { key: b"import_key_1".to_vec(), value: b"import_value_1".to_vec(), value_type: ValueType::String },
        KeyValue { key: b"import_key_2".to_vec(), value: b"import_value_2".to_vec(), value_type: ValueType::String },
        KeyValue { key: b"import_key_2".to_vec(), value: b"second".to_vec(), value_type: ValueType::Binary },
    ];
    let count = import_data(ImportRequest { connection_id: id.clone(), tree_name: None, data }, &mut manager).unwrap();
    assert_eq!(count, 3);
    assert_eq!(fetch(&mut manager, &id, None, b"import_key_1").unwrap().value, b"import_value_1".to_vec());
    assert_eq!(fetch(&mut manager, &id, None, b"import_key_2").unwrap().value, b"second".to_vec());
    let (_, total, _) = range(&mut manager, &id, None, None, None, false);
    assert_eq!(total, 2);
}

#[test]
fn trees_come_and_go() {
    let (mut manager, id, _dir) = open("trees");
    create_tree(id.clone(), "test_tree".to_string(), &mut manager).unwrap();
    let trees = get_trees(id.clone(), &manager).unwrap();
    assert!(trees.contains(&"test_tree".to_string()));
    assert!(trees.contains(&"__sled__default".to_string()));
    assert_eq!(trees.len(), 2);
    put(&mut manager, &id, Some("test_tree"), b"k", b"v");
    create_tree(id.clone(), "test_tree".to_string(), &mut manager).unwrap();
    assert_eq!(fetch(&mut manager, &id, Some("test_tree"), b"k").unwrap().value, b"v".to_vec());
    remove_tree(id.clone(), "test_tree".to_string(), &mut manager).unwrap();
    let trees = get_trees(id.clone(), &manager).unwrap();
    assert_eq!(trees, vec!["__sled__default".to_string()]);
    remove_tree(id.clone(), "test_tree".to_string(), &mut manager).unwrap();
    assert!(fetch(&mut manager, &id, Some("test_tree"), b"k").is_none());
    assert!(get_trees(id.clone(), &manager).unwrap().contains(&"test_tree".to_string()));
}

#[test]
fn the_built_in_tree_cannot_be_dropped() {
    let (mut manager, id, _dir) = open("builtin");
    let result = remove_tree(id.clone(), "__sled__default".to_string(), &mut manager);
    assert!(matches!(result, Err(StoreError::Tree(_))));
    assert_eq!(get_trees(id, &manager).unwrap(), vec!["__sled__default".to_string()]);
}

#[test]
fn tree_names_are_read_lossily() {
    let (mut manager, id, _dir) = open("lossy_names");
    manager.create_tree(&id, b"caf\xc3\xa9").unwrap();
    manager.create_tree(&id, b"bad\xff").unwrap();
    let mut trees = manager.get_trees(&id).unwrap();
    trees.sort();
    assert_eq!(trees, vec!["__sled__default".to_string(), "bad\u{fffd}".to_string(), "café".to_string()]);
}
