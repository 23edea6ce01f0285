use data_transformer::codec::{decode, encode};
use data_transformer::error::TransformationError;
use data_transformer::field::Field;
use data_transformer::schema::{FieldType, Schema};
use data_transformer::store::Transformable;

fn leaf(v: &str) -> Field<String> {
    Field::new("string".to_string(), v.to_string())
}

fn same(a: &Field<String>, b: &Field<String>) -> bool {
    match (a, b) {
        (
            Field::Simple { field_type: t1, value: v1 },
            Field::Simple { field_type: t2, value: v2 },
        ) => t1 == t2 && v1 == v2,
        (Field::Composite { fields: f1 }, Field::Composite { fields: f2 }) => {
            f1.len() == f2.len() && f1.iter().zip(f2.iter()).all(|(x, y)| same(x, y))
        }
        _ => false,
    }
}

fn nested(depth: usize) -> Field<String> {
    if depth == 0 {
        leaf("bottom")
    } else {
        Field::composite(vec![leaf(&format!("l{}", depth)), nested(depth - 1), Field::composite(vec![])])
    }
}

#[test]
fn field_simple_round_trip() {
    let f = leaf("Data1");
    let back = decode::<Field<String>>(&encode(&f)).unwrap();
    assert!(same(&f, &back));
}

#[test]
fn field_tree_round_trip_up_to_depth_five() {
    for depth in 0..=5 {
        let f = nested(depth);
        let back = decode::<Field<String>>(&encode(&f)).unwrap();
        assert!(same(&f, &back));
    }
}

#[test]
fn field_order_and_variant_kept() {
    let f = Field::composite(vec![leaf("a"), Field::composite(vec![leaf("b")]), leaf("c")]);
    let back = decode::<Field<String>>(&encode(&f)).unwrap();
    match back {
        Field::Composite { fields } => {
            assert_eq!(fields.len(), 3);
            assert!(same(&fields[0], &leaf("a")));
            assert!(matches!(&fields[1], Field::Composite { .. }));
            assert!(same(&fields[2], &leaf("c")));
        }
        _ => panic!("expected a composite"),
    }
    assert!(!same(&leaf("a"), &Field::composite(vec![leaf("a")])));
}

#[test]
fn field_encoding_layout() {
    let bytes = encode(&Field::new("t".to_string(), "v".to_string()));
    assert_eq!(bytes, vec![0, 1, 0, 0, 0, 0, 0, 0, 0, b't', 1, 0, 0, 0, 0, 0, 0, 0, b'v']);
    let empty: Field<String> = Field::composite(vec![]);
    assert_eq!(encode(&empty), vec![1, 0, 0, 0, 0, 0, 0, 0, 0]);
}

#[test]
fn field_truncated_and_bad_tag_rejected() {
    let bytes = encode(&nested(3));
    for n in 0..bytes.len() {
        assert!(decode::<Field<String>>(&bytes[..n].to_vec()).is_none());
    }
    assert!(decode::<Field<String>>(&vec![7]).is_none());
}

#[test]
fn field_persistence_round_trip() {
    let db = sled::Config::new().temporary(true).open().unwrap();
    let tree = nested(2);
    Transformable::new("tree".to_string(), nested(2)).save(&db).unwrap();
    let loaded = Transformable::<Field<String>>::load(&db, &"tree".to_string()).unwrap();
    assert_eq!(loaded.id, "tree");
    assert!(same(&loaded.data, &tree));
    match Transformable::<Field<String>>::load(&db, &"other".to_string()) {
        Err(TransformationError::NotFound(k)) => assert_eq!(k, "other"),
        _ => panic!("expected NotFound"),
    }
}

#[test]
fn schema_complex_rejects_duplicate_names() {
    let dup = Schema::complex(vec![
        ("a".to_string(), Schema::Simple(FieldType::StringType)),
        ("a".to_string(), Schema::Simple(FieldType::StringType)),
    ]);
    assert!(dup.is_none());
    let ok = Schema::complex(vec![
        ("a".to_string(), Schema::Simple(FieldType::StringType)),
        ("b".to_string(), Schema::Simple(FieldType::StringType)),
    ]);
    assert!(matches!(ok, Some(Schema::Complex(ref v)) if v.len() == 2));
    assert!(Schema::complex(vec![]).is_some());
}
