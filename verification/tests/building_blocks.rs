use sled_explorer::formats::delimited::import_rows;
use sled_explorer::formats::json::{export_value, import_value};
use sled_explorer::formats::yaml::{export_node, import_node};
use sled_explorer::sled_manager::{ConnectionInfo, KeyValue, SledManager, Timestamp, ValueType};
use tempfile::TempDir;
use yaml_rust2::Yaml;

fn record(id: &str, name: &str) -> ConnectionInfo {
    let moment = Timestamp { secs: 1, nanos: 2 };
    ConnectionInfo {
        id: id.to_string(),
        name: name.to_string(),
        path: "somewhere".to_string(),
        created_at: moment,
        last_accessed: moment,
    }
}

#[test]
fn registering_under_a_used_id_replaces_the_connection() {
    let dir = TempDir::new().unwrap();
    let mut manager = SledManager::new();
    let first = sled::open(dir.path().join("first")).unwrap();
    first.open_tree("default").unwrap().insert(b"k", b"first").unwrap();
    let second = sled::open(dir.path().join("second")).unwrap();
    second.open_tree("default").unwrap().insert(b"k", b"second").unwrap();
    let third = sled::open(dir.path().join("third")).unwrap();
    manager.register(record("same", "one"), first);
    manager.register(record("other", "two"), third);
    manager.register(record("same", "three"), second);
    let infos = manager.get_connections();
    assert_eq!(infos.len(), 2);
    assert_eq!(manager.get_connection("same").unwrap().name, "three");
    assert_eq!(manager.get_connection("other").unwrap().name, "two");
    assert_eq!(manager.get("same", b"default", b"k").unwrap().unwrap().value, b"second".to_vec());
}

#[test]
fn rows_give_pairs() {
    let rows = vec![
        Ok(vec!["k1".to_string(), "v1".to_string(), "more".to_string()]),
        Ok(vec!["lonely".to_string()]),
        Ok(vec![]),
        Ok(vec!["k2".to_string(), "caf\u{e9}".to_string()]),
    ];
    let (pairs, failure) = import_rows(&rows);
    assert!(failure.is_none());
    assert_eq!(
        pairs,
        vec![(b"k1".to_vec(), b"v1".to_vec()), (b"k2".to_vec(), "caf\u{e9}".as_bytes().to_vec())]
    );
    let (pairs, failure) = import_rows(&Vec::new());
    assert!(pairs.is_empty());
    assert!(failure.is_none());
}

#[test]
fn rows_stop_at_a_failure() {
    let broken = csv::Reader::from_reader("a,b\n1,2\n3\n4,5\n".as_bytes())
        .records()
        .map(|row| row.map(|r| r.iter().map(String::from).collect::<Vec<String>>()))
        .collect::<Vec<_>>();
    assert_eq!(broken.len(), 3);
    assert!(broken[1].is_err());
    let (pairs, failure) = import_rows(&broken);
    assert_eq!(pairs, vec![(b"1".to_vec(), b"2".to_vec())]);
    assert!(failure.is_some());
}

fn text(s: &str) -> Yaml {
    Yaml::String(s.to_string())
}

fn mapping(pairs: &[(Yaml, Yaml)]) -> Yaml {
    let mut hash = yaml_rust2::yaml::Hash::new();
    for (k, v) in pairs {
        hash.insert(k.clone(), v.clone());
    }
    Yaml::Hash(hash)
}

#[test]
fn a_yaml_mapping_gives_its_pairs() {
    let node = mapping(&[(text("b"), text("2")), (text("a"), text("1"))]);
    let (pairs, complete) = import_node(&node);
    assert!(complete);
    assert_eq!(pairs, vec![(b"b".to_vec(), b"2".to_vec()), (b"a".to_vec(), b"1".to_vec())]);
    let (pairs, complete) = import_node(&mapping(&[]));
    assert!(complete);
    assert!(pairs.is_empty());
}

#[test]
fn a_yaml_sequence_gives_the_pairs_of_its_mappings() {
    let node = Yaml::Array(vec![
        mapping(&[(text("a"), text("1"))]),
        mapping(&[]),
        mapping(&[(text("b"), text("2")), (text("c"), text("3"))]),
    ]);
    let (pairs, complete) = import_node(&node);
    assert!(complete);
    assert_eq!(
        pairs,
        vec![(b"a".to_vec(), b"1".to_vec()), (b"b".to_vec(), b"2".to_vec()), (b"c".to_vec(), b"3".to_vec())]
    );
    let (pairs, complete) = import_node(&Yaml::Array(Vec::new()));
    assert!(complete);
    assert!(pairs.is_empty());
}

#[test]
fn yaml_stops_at_what_is_no_text() {
    for (node, kept) in [
        (text("scalar"), 0),
        (Yaml::Integer(5), 0),
        (Yaml::Null, 0),
        (Yaml::Boolean(true), 0),
        (Yaml::Real("1.5".to_string()), 0),
        (Yaml::BadValue, 0),
        (mapping(&[(text("a"), text("1")), (text("b"), Yaml::Integer(2)), (text("c"), text("3"))]), 1),
        (mapping(&[(Yaml::Integer(1), text("1"))]), 0),
        (mapping(&[(text("a"), Yaml::Array(vec![text("x")]))]), 0),
        (mapping(&[(text("a"), mapping(&[(text("x"), text("y"))]))]), 0),
        (Yaml::Array(vec![mapping(&[(text("a"), text("1"))]), text("loose"), mapping(&[(text("b"), text("2"))])]), 1),
        (Yaml::Array(vec![mapping(&[(text("a"), text("1")), (text("b"), Yaml::Null)]), mapping(&[(text("c"), text("3"))])]), 1),
        (Yaml::Array(vec![Yaml::Array(vec![])]), 0),
    ] {
        let (pairs, complete) = import_node(&node);
        assert!(!complete, "{:?}", node);
        assert_eq!(pairs.len(), kept, "{:?}", node);
    }
}

fn entries() -> Vec<KeyValue> {
    vec![
        KeyValue { key: vec![0, 255], value: vec![], value_type: ValueType::String },
        KeyValue { key: b"k".to_vec(), value: b"true".to_vec(), value_type: ValueType::Boolean },
    ]
}

#[test]
fn the_json_document_of_entries() {
    let value = export_value(&entries());
    let items = value.as_array().unwrap();
    assert_eq!(items.len(), 2);
    let first = items[0].as_object().unwrap();
    assert_eq!(first.len(), 3);
    let key: Vec<u64> = first["key"].as_array().unwrap().iter().map(|n| n.as_u64().unwrap()).collect();
    assert_eq!(key, vec![0, 255]);
    assert!(first["value"].as_array().unwrap().is_empty());
    assert_eq!(first["value_type"].as_str(), Some("String"));
    assert_eq!(items[1]["value_type"].as_str(), Some("Boolean"));
    assert_eq!(
        import_value(&value),
        Some(vec![(vec![0u8, 255], vec![]), (b"k".to_vec(), b"true".to_vec())])
    );
}

#[test]
fn json_documents_of_other_shapes() {
    assert_eq!(import_value(&serde_json::Value::Array(Vec::new())), Some(Vec::new()));
    assert_eq!(import_value(&serde_json::Value::Null), None);
    assert_eq!(import_value(&serde_json::Value::from("text")), None);
    assert_eq!(import_value(&serde_json::Value::from(vec![1, 2])), None);
}

#[test]
fn the_yaml_document_of_entries() {
    let node = export_node(&entries());
    let items = node.as_vec().unwrap();
    assert_eq!(items.len(), 2);
    let first: Vec<(&str, &str)> = items[0]
        .as_hash()
        .unwrap()
        .iter()
        .map(|(k, v)| (k.as_str().unwrap(), v.as_str().unwrap()))
        .collect();
    assert_eq!(first, vec![("key", "\u{0}\u{fffd}"), ("value", ""), ("value_type", "String")]);
}
