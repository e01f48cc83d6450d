use row_pipeline::error::Error;
use row_pipeline::field::{Field, Fields, parse_field};
use row_pipeline::processor::{ProcessorKind, run_processors};
use row_pipeline::select::{SelectProcessor, SelectType};
use row_pipeline::value::{ObjectMap, Value};

fn object_two() -> ObjectMap {
    let mut p = ObjectMap::new();
    p.insert("hello".to_string(), Value::Bytes(b"world".to_vec()));
    p.insert("hello2".to_string(), Value::Bytes(b"world2".to_vec()));
    p
}

fn unwrap_object(v: Value) -> ObjectMap {
    match v {
        Value::Object(m) => m,
        _ => panic!("expected an object"),
    }
}

#[test]
fn test_select() {
    let processor = SelectProcessor {
        fields: Fields::one(Field::new("hello", None)),
        select_type: SelectType::Include,
    };

    let result = processor.exec_mut(Value::Object(object_two()));
    assert!(result.is_ok());
    let p = unwrap_object(result.unwrap());
    assert_eq!(p.len(), 1);
    assert!(matches!(p.get("hello"), Some(Value::Bytes(b)) if b.as_slice() == b"world"));
}

#[test]
fn test_select_with_target() {
    let processor = SelectProcessor {
        fields: Fields::one(Field::new("hello", Some("hello3".to_string()))),
        select_type: SelectType::Include,
    };

    let result = processor.exec_mut(Value::Object(object_two()));
    assert!(result.is_ok());
    let p = unwrap_object(result.unwrap());
    assert_eq!(p.len(), 1);
    assert!(matches!(p.get("hello3"), Some(Value::Bytes(b)) if b.as_slice() == b"world"));
}

#[test]
fn test_select_with_exclude() {
    let processor = SelectProcessor {
        fields: Fields::one(Field::new("hello", None)),
        select_type: SelectType::Exclude,
    };

    let result = processor.exec_mut(Value::Object(object_two()));
    assert!(result.is_ok());
    let p = unwrap_object(result.unwrap());
    assert_eq!(p.len(), 1);
    assert!(p.get("hello").is_none());
    assert!(matches!(p.get("hello2"), Some(Value::Bytes(b)) if b.as_slice() == b"world2"));
}

#[test]
fn test_include_rename_keeps_exactly_target_key() {
    // Rename-then-include on a record that also holds the target key and
    // an unrelated key: only the target key survives, with the input's value.
    let processor = SelectProcessor {
        fields: Fields::one(Field::new("a", Some("b".to_string()))),
        select_type: SelectType::Include,
    };
    let mut p = ObjectMap::new();
    p.insert("a".to_string(), Value::Int(1));
    p.insert("b".to_string(), Value::Int(2));
    p.insert("c".to_string(), Value::Int(3));
    let p = unwrap_object(processor.exec_mut(Value::Object(p)).unwrap());
    assert_eq!(p.len(), 1);
    assert!(matches!(p.get("b"), Some(Value::Int(1))));
    assert!(p.get("a").is_none());
    assert!(p.get("c").is_none());
}

#[test]
fn test_exclude_introduces_no_keys() {
    let processor = SelectProcessor {
        fields: Fields::one(Field::new("missing", None)),
        select_type: SelectType::Exclude,
    };
    let p = unwrap_object(processor.exec_mut(Value::Object(object_two())).unwrap());
    assert_eq!(p.len(), 2);
    assert!(p.get("missing").is_none());
    assert!(p.get("hello").is_some());
    assert!(p.get("hello2").is_some());
}

#[test]
fn test_select_missing_field_is_skipped() {
    let processor = SelectProcessor {
        fields: Fields::one(Field::new("absent", None)),
        select_type: SelectType::Include,
    };
    let p = unwrap_object(processor.exec_mut(Value::Object(object_two())).unwrap());
    assert_eq!(p.len(), 0);
}

#[test]
fn test_select_on_non_object_fails() {
    let processor = SelectProcessor {
        fields: Fields::one(Field::new("hello", None)),
        select_type: SelectType::Include,
    };
    let result = processor.exec_mut(Value::Int(42));
    assert!(matches!(result, Err(Error::ValueMustBeMap)));
}

#[test]
fn test_select_type_keywords() {
    assert_eq!(SelectType::try_from("include".to_string()), Ok(SelectType::Include));
    assert_eq!(SelectType::try_from("exclude".to_string()), Ok(SelectType::Exclude));
    let err = SelectType::try_from("keep".to_string());
    match err {
        Err(Error::ProcessorUnsupportedValue { processor, val }) => {
            assert_eq!(processor, "select");
            assert_eq!(val, "'keep', expect 'include' or 'exclude'");
        },
        other => panic!("unexpected result: {:?}", other),
    }
}

#[test]
fn test_processor_config_field_and_type() {
    let config = vec![
        (Value::Str("field".to_string()), Value::Str("hello, hello3".to_string())),
        (Value::Str("type".to_string()), Value::Str("exclude".to_string())),
        (Value::Str("unrecognized".to_string()), Value::Int(7)),
    ];
    let p = SelectProcessor::try_from(&config).unwrap();
    assert_eq!(p.select_type, SelectType::Exclude);
    assert_eq!(p.fields.len(), 1);
    assert_eq!(p.fields.get(0).input_field(), "hello");
    assert_eq!(p.fields.get(0).target_field(), Some("hello3"));
    assert_eq!(p.kind(), "select");
    assert!(p.ignore_missing());
}

#[test]
fn test_processor_config_field_list() {
    let config = vec![
        (
            Value::Str("fields".to_string()),
            Value::Array(vec![
                Value::Str("a".to_string()),
                Value::Str("b, c".to_string()),
            ]),
        ),
    ];
    let p = SelectProcessor::try_from(&config).unwrap();
    assert_eq!(p.select_type, SelectType::Include);
    assert_eq!(p.fields.len(), 2);
    assert_eq!(p.fields.get(0).input_field(), "a");
    assert_eq!(p.fields.get(0).target_field(), None);
    assert_eq!(p.fields.get(1).input_field(), "b");
    assert_eq!(p.fields.get(1).target_field(), Some("c"));
}

#[test]
fn test_processor_config_errors() {
    let bad_key = vec![(Value::Int(1), Value::Str("x".to_string()))];
    assert_eq!(SelectProcessor::try_from(&bad_key).unwrap_err(), Error::KeyMustBeString);

    let bad_value = vec![(Value::Str("field".to_string()), Value::Int(1))];
    assert_eq!(SelectProcessor::try_from(&bad_value).unwrap_err(), Error::ValueMustBeString);

    let empty_field = vec![(Value::Str("field".to_string()), Value::Str("  ".to_string()))];
    assert_eq!(SelectProcessor::try_from(&empty_field).unwrap_err(), Error::EmptyField);

    let bad_mode = vec![(Value::Str("type".to_string()), Value::Str("all".to_string()))];
    match SelectProcessor::try_from(&bad_mode).unwrap_err() {
        Error::ProcessorUnsupportedValue { processor, val } => {
            assert_eq!(processor, "select");
            assert_eq!(val, "'all', expect 'include' or 'exclude'");
        },
        other => panic!("unexpected error: {:?}", other),
    }
}

#[test]
fn test_parse_field_forms() {
    let f = parse_field("name").unwrap();
    assert_eq!(f.input_field(), "name");
    assert_eq!(f.target_field(), None);

    let f = parse_field(" a , b ").unwrap();
    assert_eq!(f.input_field(), "a");
    assert_eq!(f.target_field(), Some("b"));

    let f = parse_field("a,").unwrap();
    assert_eq!(f.input_field(), "a");
    assert_eq!(f.target_field(), None);

    assert!(matches!(parse_field(",b"), Err(Error::EmptyField)));
    assert!(matches!(parse_field("   "), Err(Error::EmptyField)));
}

#[test]
fn test_chain_runs_stages_in_order() {
    // First keep {a -> x, b}, then drop b: only x remains.
    let stages = vec![
        ProcessorKind::Select(SelectProcessor {
            fields: Fields::new(vec![
                Field::new("a", Some("x".to_string())),
                Field::new("b", None),
            ]),
            select_type: SelectType::Include,
        }),
        ProcessorKind::Select(SelectProcessor {
            fields: Fields::one(Field::new("b", None)),
            select_type: SelectType::Exclude,
        }),
    ];
    let mut p = ObjectMap::new();
    p.insert("a".to_string(), Value::Int(1));
    p.insert("b".to_string(), Value::Int(2));
    p.insert("c".to_string(), Value::Int(3));
    let out = unwrap_object(run_processors(&stages, Value::Object(p)).unwrap());
    assert_eq!(out.len(), 1);
    assert!(matches!(out.get("x"), Some(Value::Int(1))));

    let failed = run_processors(&stages, Value::Bool(true));
    assert!(matches!(failed, Err(Error::ValueMustBeMap)));

    let empty_chain: Vec<ProcessorKind> = vec![];
    assert!(matches!(run_processors(&empty_chain, Value::Bool(true)), Ok(Value::Bool(true))));
}

#[test]
fn test_object_map_operations() {
    let mut m = ObjectMap::new();
    assert_eq!(m.len(), 0);
    m.insert("k".to_string(), Value::Int(1));
    m.insert("k".to_string(), Value::Int(2));
    assert_eq!(m.len(), 1);
    assert!(matches!(m.get("k"), Some(Value::Int(2))));
    assert!(m.contains_key("k"));
    let removed = m.remove("k");
    assert!(matches!(removed, Some(Value::Int(2))));
    assert_eq!(m.len(), 0);
    assert!(m.remove("k").is_none());
}
