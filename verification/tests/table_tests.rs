use row_pipeline::decode::{DecodeError, PromValidationMode};
use row_pipeline::row::{
    ColumnDataType, PromLabel, RowValue, Sample, SemanticType,
};
use row_pipeline::table::TableBuilder;

fn label(name: &str, value: &str) -> PromLabel {
    PromLabel::new(name.as_bytes().to_vec(), value.as_bytes().to_vec())
}

fn sample(timestamp: i64, value: f64) -> Sample {
    Sample { timestamp, value_bits: value.to_bits() }
}

#[test]
fn test_table_builder() {
    let mut builder = TableBuilder::default();
    let _ = builder.add_labels_and_samples(
        &[label("tag0", "v0"), label("tag1", "v1")],
        &[sample(0, 0.0)],
        PromValidationMode::Strict,
    );

    let _ = builder.add_labels_and_samples(
        &[label("tag0", "v0"), label("tag2", "v2")],
        &[sample(1, 0.1)],
        PromValidationMode::Strict,
    );

    let request = builder.as_row_insert_request("test".to_string());
    let rows = request.rows.unwrap().rows;
    assert_eq!(2, rows.len());

    assert_eq!(
        vec![
            RowValue::TimestampMillis(0),
            RowValue::Float64Bits(0.0f64.to_bits()),
            RowValue::Str("v0".to_string()),
            RowValue::Str("v1".to_string()),
            RowValue::Null,
        ],
        rows[0].values
    );

    assert_eq!(
        vec![
            RowValue::TimestampMillis(1),
            RowValue::Float64Bits(0.1f64.to_bits()),
            RowValue::Str("v0".to_string()),
            RowValue::Null,
            RowValue::Str("v2".to_string()),
        ],
        rows[1].values
    );

    let invalid_utf8_bytes = &[0xFFu8, 0xFF, 0xFF];
    let res = builder.add_labels_and_samples(
        &[PromLabel::new(b"tag0".to_vec(), invalid_utf8_bytes.to_vec())],
        &[sample(1, 0.1)],
        PromValidationMode::Strict,
    );
    assert_eq!(res, Err(DecodeError::new("invalid utf-8")));
}

#[test]
fn test_flushed_schema_and_width() {
    let mut builder = TableBuilder::with_capacity(4, 2);
    builder
        .add_labels_and_samples(&[label("host", "h1")], &[sample(10, 1.5)], PromValidationMode::Strict)
        .unwrap();
    builder
        .add_labels_and_samples(
            &[label("host", "h2"), label("region", "r1")],
            &[sample(11, 2.5), sample(12, 3.5)],
            PromValidationMode::Strict,
        )
        .unwrap();

    let request = builder.as_row_insert_request("metric".to_string());
    assert_eq!(request.table_name, "metric");
    let rows = request.rows.unwrap();

    let names: Vec<String> = rows.schema.iter().map(|c| c.column_name.clone()).collect();
    assert_eq!(names, vec![
        "greptime_timestamp".to_string(),
        "greptime_value".to_string(),
        "host".to_string(),
        "region".to_string(),
    ]);
    assert_eq!(rows.schema[0].datatype, ColumnDataType::TimestampMillisecond);
    assert_eq!(rows.schema[0].semantic_type, SemanticType::Timestamp);
    assert_eq!(rows.schema[1].datatype, ColumnDataType::Float64);
    assert_eq!(rows.schema[1].semantic_type, SemanticType::Field);
    assert_eq!(rows.schema[2].datatype, ColumnDataType::Utf8);
    assert_eq!(rows.schema[2].semantic_type, SemanticType::Tag);

    // Every row has exactly schema-length values, including the one written
    // before the region column existed.
    assert_eq!(rows.rows.len(), 3);
    for row in &rows.rows {
        assert_eq!(row.values.len(), rows.schema.len());
    }
    assert_eq!(rows.rows[0].values[3], RowValue::Null);
    assert_eq!(rows.rows[1].values[3], RowValue::Str("r1".to_string()));
}

#[test]
fn test_strict_decode_failure_leaves_builder_intact() {
    let mut builder = TableBuilder::default();
    builder
        .add_labels_and_samples(&[label("tag", "ok")], &[sample(1, 1.0)], PromValidationMode::Strict)
        .unwrap();

    let res = builder.add_labels_and_samples(
        &[PromLabel::new(b"tag".to_vec(), vec![0x80, 0x80])],
        &[sample(2, 2.0)],
        PromValidationMode::Strict,
    );
    assert!(res.is_err());
    assert_eq!(res.unwrap_err().description(), "invalid utf-8");

    // The failed call added no row and no column.
    let request = builder.as_row_insert_request("t".to_string());
    let rows = request.rows.unwrap();
    assert_eq!(rows.rows.len(), 1);
    assert_eq!(rows.schema.len(), 3);
}

#[test]
fn test_lossy_decode_substitutes() {
    let mut builder = TableBuilder::default();
    builder
        .add_labels_and_samples(
            &[PromLabel::new(b"tag".to_vec(), vec![0xFF, b'a'])],
            &[sample(0, 0.0)],
            PromValidationMode::Lossy,
        )
        .unwrap();
    let request = builder.as_row_insert_request("t".to_string());
    let rows = request.rows.unwrap();
    assert_eq!(rows.rows[0].values[2], RowValue::Str("\u{FFFD}a".to_string()));
}

#[test]
fn test_strict_decode_multibyte() {
    let mut builder = TableBuilder::default();
    builder
        .add_labels_and_samples(
            &[label("t\u{00e9}l\u{00e9}", "gr\u{00fc}n")],
            &[sample(0, 0.0)],
            PromValidationMode::Strict,
        )
        .unwrap();
    let request = builder.as_row_insert_request("t".to_string());
    let rows = request.rows.unwrap();
    assert_eq!(rows.schema[2].column_name, "t\u{00e9}l\u{00e9}");
    assert_eq!(rows.rows[0].values[2], RowValue::Str("gr\u{00fc}n".to_string()));
}

#[test]
fn test_empty_sample_list_adds_no_rows() {
    let mut builder = TableBuilder::default();
    builder
        .add_labels_and_samples(&[label("tag", "v")], &[], PromValidationMode::Strict)
        .unwrap();
    let tags = builder.tags();
    assert_eq!(tags, vec!["tag".to_string()]);
    let request = builder.as_row_insert_request("t".to_string());
    let rows = request.rows.unwrap();
    assert_eq!(rows.rows.len(), 0);
    assert_eq!(rows.schema.len(), 3);
}

#[test]
fn test_tag_column_order_is_deterministic() {
    let mut b1 = TableBuilder::default();
    let mut b2 = TableBuilder::default();
    let calls: Vec<(&str, &str)> = vec![("b", "1"), ("a", "2"), ("c", "3"), ("a", "4")];
    for (name, value) in &calls {
        b1.add_labels_and_samples(&[label(name, value)], &[sample(0, 0.0)], PromValidationMode::Strict)
            .unwrap();
        b2.add_labels_and_samples(&[label(name, value)], &[sample(0, 0.0)], PromValidationMode::Strict)
            .unwrap();
    }
    // Identical call order yields identical tag-column order: first-seen.
    assert_eq!(b1.tags(), b2.tags());
    assert_eq!(b1.tags(), vec!["b".to_string(), "a".to_string(), "c".to_string()]);
}

#[test]
fn test_flush_twice_yields_empty_second_result() {
    let mut builder = TableBuilder::default();
    builder
        .add_labels_and_samples(&[label("tag", "v")], &[sample(0, 0.0)], PromValidationMode::Strict)
        .unwrap();
    let first = builder.as_row_insert_request("t".to_string());
    assert_eq!(first.rows.unwrap().rows.len(), 1);

    let second = builder.as_row_insert_request("t".to_string());
    let rows = second.rows.unwrap();
    assert_eq!(rows.rows.len(), 0);
    assert_eq!(rows.schema.len(), 0);
}

#[test]
fn test_decode_string_modes() {
    let strict = PromValidationMode::Strict;
    let lossy = PromValidationMode::Lossy;
    assert_eq!(strict.decode_string(b"plain").unwrap(), "plain");
    assert_eq!(strict.decode_string("h\u{00e9}llo".as_bytes()).unwrap(), "h\u{00e9}llo");
    assert!(strict.decode_string(&[0xC3, 0x28]).is_err());
    assert_eq!(lossy.decode_string(&[0xC3, 0x28]).unwrap(), "\u{FFFD}(");
    assert_eq!(lossy.decode_string(b"plain").unwrap(), "plain");
}
