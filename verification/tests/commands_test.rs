use sled_explorer::commands::CreateConnectionRequest;
use sled_explorer::formats;
use sled_explorer::sled_manager::{KeyValue, SledManager, ValueType};
use std::io::{Read, Write};
use tempfile::TempDir;

fn create_test_manager() -> (SledManager, TempDir) {
    let temp_dir = TempDir::new().unwrap();
    let manager = SledManager::new();
    (manager, temp_dir)
}

fn create_test_connection(manager: &mut SledManager, name: &str, temp_dir: &TempDir) -> String {
    let db_path = temp_dir.path().join(format!("{}.db", name));
    let result = manager.add_connection(name.to_string(), db_path.to_string_lossy().to_string());
    assert!(result.is_ok());
    result.unwrap()
}

#[test]
fn test_create_connection() {
    let (mut manager, temp_dir) = create_test_manager();
    let db_path = temp_dir.path().join("test.db");

    let request = CreateConnectionRequest {
        name: "test_connection".to_string(),
        path: db_path.to_string_lossy().to_string(),
    };

    let result = manager.add_connection(request.name, request.path);
    assert!(result.is_ok());

    let connection_id = result.unwrap();
    assert!(!connection_id.is_empty());

    let connections = manager.get_connections();
    assert_eq!(connections.len(), 1);
    assert_eq!(connections[0].name, "test_connection");
}

#[test]
fn test_remove_connection() {
    let (mut manager, temp_dir) = create_test_manager();
    let connection_id = create_test_connection(&mut manager, "test_remove", &temp_dir);

    let connections = manager.get_connections();
    assert_eq!(connections.len(), 1);

    let result = manager.remove_connection(&connection_id);
    assert!(result.is_ok());

    let connections = manager.get_connections();
    assert_eq!(connections.len(), 0);
}

#[test]
fn test_get_connections() {
    let (mut manager, temp_dir) = create_test_manager();

    let connections = manager.get_connections();
    assert_eq!(connections.len(), 0);

    let conn1_id = create_test_connection(&mut manager, "conn1", &temp_dir);
    let conn2_id = create_test_connection(&mut manager, "conn2", &temp_dir);

    let connections = manager.get_connections();
    assert_eq!(connections.len(), 2);

    let conn1 = manager.get_connection(&conn1_id);
    assert!(conn1.is_some());
    assert_eq!(conn1.unwrap().name, "conn1");

    let conn2 = manager.get_connection(&conn2_id);
    assert!(conn2.is_some());
    assert_eq!(conn2.unwrap().name, "conn2");
}

#[test]
fn test_create_and_remove_tree() {
    let (mut manager, temp_dir) = create_test_manager();
    let connection_id = create_test_connection(&mut manager, "tree_test", &temp_dir);

    let result = manager.open_tree(&connection_id, "test_tree");
    assert!(result.is_ok());

    let trees = manager.get_trees(&connection_id).unwrap();
    assert!(trees.contains(&"test_tree".to_string()));

    let db = manager.get_database(&connection_id).unwrap();
    let result = db.drop_tree("test_tree");
    assert!(result.is_ok());
}

#[test]
fn test_get_and_set() {
    let (mut manager, temp_dir) = create_test_manager();
    let connection_id = create_test_connection(&mut manager, "kv_test", &temp_dir);

    let db = manager.get_database(&connection_id).unwrap();
    let tree = db.open_tree("default").unwrap();

    let result = tree.insert(b"test_key", b"test_value");
    assert!(result.is_ok());

    let result = tree.get(b"test_key");
    assert!(result.is_ok());

    let value = result.unwrap();
    assert!(value.is_some());
    assert_eq!(value.unwrap().to_vec(), b"test_value".to_vec());
}

#[test]
fn test_remove() {
    let (mut manager, temp_dir) = create_test_manager();
    let connection_id = create_test_connection(&mut manager, "remove_test", &temp_dir);

    let db = manager.get_database(&connection_id).unwrap();
    let tree = db.open_tree("default").unwrap();

    let result = tree.insert(b"key_to_remove", b"value_to_remove");
    assert!(result.is_ok());

    let result = tree.remove(b"key_to_remove");
    assert!(result.is_ok());

    let result = tree.get(b"key_to_remove");
    assert!(result.is_ok());
    assert!(result.unwrap().is_none());
}

#[test]
fn test_range_query() {
    let (mut manager, temp_dir) = create_test_manager();
    let connection_id = create_test_connection(&mut manager, "range_test", &temp_dir);

    let db = manager.get_database(&connection_id).unwrap();
    let tree = db.open_tree("default").unwrap();

    for i in 0..10 {
        let key = format!("key_{:02}", i);
        let value = format!("value_{}", i);
        let result = tree.insert(key.as_bytes(), value.as_bytes());
        assert!(result.is_ok());
    }

    let from_key = b"key_03".to_vec();
    let to_key = b"key_07".to_vec();

    let mut results = Vec::new();
    for item in tree.range(from_key..to_key).take(5) {
        let (key, value) = item.unwrap();
        results.push((key.to_vec(), value.to_vec()));
    }

    assert_eq!(results.len(), 4);
    assert_eq!(results[0].0, b"key_03".to_vec());
    assert_eq!(results[3].0, b"key_06".to_vec());
}

#[test]
fn test_prefix_query() {
    let (mut manager, temp_dir) = create_test_manager();
    let connection_id = create_test_connection(&mut manager, "prefix_test", &temp_dir);

    let db = manager.get_database(&connection_id).unwrap();
    let tree = db.open_tree("default").unwrap();

    for i in 0..5 {
        let key = format!("user_{}", i);
        let value = format!("user_data_{}", i);
        let result = tree.insert(key.as_bytes(), value.as_bytes());
        assert!(result.is_ok());
    }

    for i in 0..3 {
        let key = format!("admin_{}", i);
        let value = format!("admin_data_{}", i);
        let result = tree.insert(key.as_bytes(), value.as_bytes());
        assert!(result.is_ok());
    }

    let prefix = b"user_".to_vec();
    let mut results = Vec::new();

    for item in tree.scan_prefix(prefix).take(10) {
        let (key, value) = item.unwrap();
        results.push((key.to_vec(), value.to_vec()));
    }

    assert_eq!(results.len(), 5);

    for (key, _) in &results {
        assert!(key.starts_with(b"user_"));
    }
}

#[test]
fn test_import_data() {
    let (mut manager, temp_dir) = create_test_manager();
    let connection_id = create_test_connection(&mut manager, "import_test", &temp_dir);

    let db = manager.get_database(&connection_id).unwrap();
    let tree = db.open_tree("default").unwrap();

    let import_data = vec![
        KeyValue {
            key: b"import_key_1".to_vec(),
            value: b"import_value_1".to_vec(),
            value_type: ValueType::String,
        },
        KeyValue {
            key: b"import_key_2".to_vec(),
            value: b"import_value_2".to_vec(),
            value_type: ValueType::String,
        },
    ];

    let mut _count = 0;
    for kv in import_data {
        let result = tree.insert(kv.key.as_slice(), kv.value.as_slice());
        assert!(result.is_ok());
        _count += 1;
    }

    assert_eq!(_count, 2);

    let result = tree.get(b"import_key_1");
    assert!(result.is_ok());

    let value = result.unwrap();
    assert!(value.is_some());
    assert_eq!(value.unwrap().to_vec(), b"import_value_1".to_vec());
}

#[test]
fn test_export_data() {
    let (mut manager, temp_dir) = create_test_manager();
    let connection_id = create_test_connection(&mut manager, "export_test", &temp_dir);

    let db = manager.get_database(&connection_id).unwrap();
    let tree = db.open_tree("default").unwrap();

    let result = tree.insert(b"export_key_1", b"export_value_1");
    assert!(result.is_ok());

    let result = tree.insert(b"export_key_2", b"export_value_2");
    assert!(result.is_ok());

    let export_path = temp_dir.path().join("export.json");

    let mut export_data = Vec::new();
    for item in tree.iter() {
        let (key, value) = item.unwrap();
        let kv = KeyValue {
            key: key.to_vec(),
            value: value.to_vec(),
            value_type: SledManager::detect_value_type(&value),
        };
        export_data.push(kv);
    }

    let json_content = formats::json::encode(&export_data).unwrap();
    let mut file = tempfile::Builder::new()
        .prefix("export.json")
        .rand_bytes(0)
        .tempfile_in(temp_dir.path())
        .unwrap();
    file.write_all(json_content.as_bytes()).unwrap();

    assert!(export_path.exists());

    let mut content = String::new();
    file.reopen().unwrap().read_to_string(&mut content).unwrap();
    assert!(content.contains("\"key\": [\n      101,\n      120,\n      112,\n      111,\n      114,\n      116,\n      95,\n      107,\n      101,\n      121,\n      95,\n      49\n    ]"));
    assert!(content.contains("\"key\": [\n      101,\n      120,\n      112,\n      111,\n      114,\n      116,\n      95,\n      107,\n      101,\n      121,\n      95,\n      50\n    ]"));
}

#[test]
fn test_import_from_path() {
    let (mut manager, temp_dir) = create_test_manager();
    let connection_id = create_test_connection(&mut manager, "import_path_test", &temp_dir);

    let json_content = r#"
[
  {"key": [112, 97, 116, 104, 95, 107, 101, 121, 95, 49], "value": [112, 97, 116, 104, 95, 118, 97, 108, 117, 101, 95, 49], "value_type": "String"},
  {"key": [112, 97, 116, 104, 95, 107, 101, 121, 95, 50], "value": [112, 97, 116, 104, 95, 118, 97, 108, 117, 101, 95, 50], "value_type": "String"}
]
"#;

    let import_path = temp_dir.path().join("import.json");
    let mut file = tempfile::Builder::new()
        .prefix("import.json")
        .rand_bytes(0)
        .tempfile_in(temp_dir.path())
        .unwrap();
    file.write_all(json_content.as_bytes()).unwrap();
    assert!(import_path.exists());

    let db = manager.get_database(&connection_id).unwrap();
    let tree = db.open_tree("default").unwrap();

    let mut content = String::new();
    file.reopen().unwrap().read_to_string(&mut content).unwrap();
    let import_data: Vec<(Vec<u8>, Vec<u8>)> = formats::json::decode(&content).unwrap();

    let mut _count = 0;
    for kv in import_data {
        let result = tree.insert(kv.0.as_slice(), kv.1.as_slice());
        assert!(result.is_ok());
        _count += 1;
    }

    let result = tree.get(b"path_key_1");
    assert!(result.is_ok());

    let value = result.unwrap();
    assert!(value.is_some());
    assert_eq!(value.unwrap().to_vec(), b"path_value_1".to_vec());

    let result = tree.get(b"path_key_2");
    assert!(result.is_ok());

    let value = result.unwrap();
    assert!(value.is_some());
    assert_eq!(value.unwrap().to_vec(), b"path_value_2".to_vec());
}

#[test]
fn test_get_stats() {
    let (mut manager, temp_dir) = create_test_manager();
    let connection_id = create_test_connection(&mut manager, "stats_test", &temp_dir);

    let db = manager.get_database(&connection_id).unwrap();
    let tree = db.open_tree("default").unwrap();

    for i in 0..5 {
        let key = format!("stats_key_{}", i);
        let value = format!("stats_value_{}", i);
        let result = tree.insert(key.as_bytes(), value.as_bytes());
        assert!(result.is_ok());
    }

    let result = manager.get_stats(&connection_id);
    assert!(result.is_ok());

    let _stats = result.unwrap();
    assert_eq!(_stats.key_count, 5);
}
