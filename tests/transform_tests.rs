use data_transformer::codec::{decode, encode};
use data_transformer::error::TransformationError;
use data_transformer::record::Record;
use data_transformer::schema::{flatten, join_path, FieldType, Schema};
use data_transformer::store::Transformable;
use data_transformer::transform::{ConcatRule, DataTransformer};

fn source_schema() -> Schema {
    Schema::Complex(vec![
        ("field1".to_string(), Schema::Simple(FieldType::StringType)),
        ("field2".to_string(), Schema::Simple(FieldType::StringType)),
    ])
}

fn target_schema() -> Schema {
    Schema::Complex(vec![("field3".to_string(), Schema::Simple(FieldType::StringType))])
}

fn temp_db() -> sled::Db {
    sled::Config::new().temporary(true).open().unwrap()
}

#[test]
fn flatten_two_leaves() {
    let mut paths = flatten(&source_schema(), &String::new());
    paths.sort();
    assert_eq!(paths, vec!["field1".to_string(), "field2".to_string()]);
}

#[test]
fn flatten_nested_uses_dots() {
    let schema = Schema::Complex(vec![
        ("a".to_string(), Schema::Complex(vec![
            ("b".to_string(), Schema::Simple(FieldType::StringType)),
            ("c".to_string(), Schema::Simple(FieldType::StringType)),
        ])),
        ("d".to_string(), Schema::Simple(FieldType::StringType)),
    ]);
    assert_eq!(flatten(&schema, &String::new()), vec!["a.b", "a.c", "d"]);
    assert_eq!(flatten(&schema, &"root".to_string()), vec!["root.a.b", "root.a.c", "root.d"]);
}

#[test]
fn flatten_bare_leaf_is_prefix() {
    let leaf = Schema::Simple(FieldType::StringType);
    assert_eq!(flatten(&leaf, &String::new()), vec![String::new()]);
    assert_eq!(flatten(&leaf, &"x".to_string()), vec!["x".to_string()]);
}

#[test]
fn join_path_cases() {
    assert_eq!(join_path(&String::new(), &"n".to_string()), "n");
    assert_eq!(join_path(&"p".to_string(), &"n".to_string()), "p.n");
}

#[test]
fn schema_names_of_engine() {
    let engine = DataTransformer::new(source_schema(), target_schema(), ConcatRule);
    let (from, to) = engine.get_schema_names();
    assert_eq!(from, vec!["field1", "field2"]);
    assert_eq!(to, vec!["field3"]);
}

#[test]
fn record_insert_overwrites() {
    let mut r = Record::new();
    r.insert("k".to_string(), "1".to_string());
    r.insert("k".to_string(), "2".to_string());
    r.insert("j".to_string(), "3".to_string());
    assert_eq!(r.get(&"k".to_string()), Some(&"2".to_string()));
    assert_eq!(r.get(&"j".to_string()), Some(&"3".to_string()));
    assert_eq!(r.get(&"z".to_string()), None);
}

#[test]
fn transform_joins_fields() {
    let engine = DataTransformer::new(source_schema(), target_schema(), ConcatRule);
    let mut input = Record::new();
    input.insert("field1".to_string(), "Data1".to_string());
    input.insert("field2".to_string(), "Data2".to_string());
    let first = engine.transform(&input).unwrap();
    let second = engine.transform(&input).unwrap();
    assert_eq!(first.get(&"field3".to_string()), Some(&"Data1 Data2".to_string()));
    assert_eq!(first.get(&"field1".to_string()), None);
    assert_eq!(second.get(&"field3".to_string()), first.get(&"field3".to_string()));
    assert_eq!(input.get(&"field1".to_string()), Some(&"Data1".to_string()));
}

#[test]
fn transform_missing_field_fails() {
    let engine = DataTransformer::new(source_schema(), target_schema(), ConcatRule);
    let mut input = Record::new();
    input.insert("field1".to_string(), "Data1".to_string());
    assert_eq!(engine.transform(&input).err(), Some(TransformationError::InvalidValue));
    assert_eq!(engine.transform(&Record::new()).err(), Some(TransformationError::InvalidValue));
}

#[test]
fn string_encoding_round_trip() {
    for s in ["", "v", "héllo wörld", "Data1 Data2"] {
        let s = s.to_string();
        let bytes = encode(&s);
        assert_eq!(bytes.len(), 8 + s.len());
        assert_eq!(decode::<String>(&bytes), Some(s));
    }
}

#[test]
fn string_encoding_layout() {
    assert_eq!(encode(&"ab".to_string()), vec![2, 0, 0, 0, 0, 0, 0, 0, b'a', b'b']);
}

#[test]
fn decode_rejects_bad_bytes() {
    let bytes = encode(&"value".to_string());
    for n in 0..bytes.len() {
        assert_eq!(decode::<String>(&bytes[..n].to_vec()), None);
    }
    let mut longer = bytes.clone();
    longer.push(0);
    assert_eq!(decode::<String>(&longer), None);
    assert_eq!(decode::<String>(&vec![1, 0, 0, 0, 0, 0, 0, 0, 0xff]), None);
}

#[test]
fn persistence_round_trip() {
    let db = temp_db();
    let t = Transformable::new("x".to_string(), "v".to_string());
    t.save(&db).unwrap();
    let loaded = Transformable::<String>::load(&db, &"x".to_string()).unwrap();
    assert_eq!(loaded.id, "x");
    assert_eq!(loaded.data, "v");
    match Transformable::<String>::load(&db, &"nonexistent".to_string()) {
        Err(TransformationError::NotFound(k)) => assert_eq!(k, "nonexistent"),
        _ => panic!("expected NotFound"),
    }
}

#[test]
fn overwrite_keeps_latest() {
    let db = temp_db();
    Transformable::new("x".to_string(), "first".to_string()).save(&db).unwrap();
    Transformable::new("x".to_string(), "second".to_string()).save(&db).unwrap();
    let loaded = Transformable::<String>::load(&db, &"x".to_string()).unwrap();
    assert_eq!(loaded.data, "second");
}

#[test]
fn truncated_bytes_fail_to_load() {
    let db = temp_db();
    Transformable::new("x".to_string(), "value".to_string()).save(&db).unwrap();
    let stored = db.get(b"x").unwrap().unwrap().to_vec();
    db.insert(b"x", stored[..stored.len() - 2].to_vec()).unwrap();
    match Transformable::<String>::load(&db, &"x".to_string()) {
        Err(TransformationError::DeserializationFailed(_)) => {}
        _ => panic!("expected DeserializationFailed"),
    }
}

#[test]
fn lookup_outcomes() {
    let id = "k".to_string();
    match Transformable::<String>::from_lookup(&id, Err("disk gone".to_string())) {
        Err(TransformationError::DatabaseError(d)) => assert_eq!(d, "disk gone"),
        _ => panic!("expected DatabaseError"),
    }
    match Transformable::<String>::from_lookup(&id, Ok(None)) {
        Err(TransformationError::NotFound(k)) => assert_eq!(k, "k"),
        _ => panic!("expected NotFound"),
    }
    let ok = Transformable::<String>::from_lookup(&id, Ok(Some(encode(&"v".to_string())))).unwrap();
    assert_eq!((ok.id, ok.data), ("k".to_string(), "v".to_string()));
    match Transformable::<String>::from_lookup(&id, Ok(Some(vec![9]))) {
        Err(TransformationError::DeserializationFailed(_)) => {}
        _ => panic!("expected DeserializationFailed"),
    }
}

#[test]
fn to_stored_encodes_payload_only() {
    let t = Transformable::new("key".to_string(), "v".to_string());
    let (k, bytes) = t.to_stored();
    assert_eq!(k, "key");
    assert_eq!(bytes, encode(&"v".to_string()));
}
