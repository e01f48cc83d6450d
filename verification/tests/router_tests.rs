use row_pipeline::decode::PromValidationMode;
use row_pipeline::row::{PromLabel, RowValue, Sample};
use row_pipeline::router::{ContextOpt, ContextReq, PromCtx, TablesBuilder};

fn label(name: &str, value: &str) -> PromLabel {
    PromLabel::new(name.as_bytes().to_vec(), value.as_bytes().to_vec())
}

fn sample(timestamp: i64, value: f64) -> Sample {
    Sample { timestamp, value_bits: value.to_bits() }
}

fn ctx(schema: Option<&str>, physical_table: Option<&str>) -> PromCtx {
    PromCtx {
        schema: schema.map(|s| s.to_string()),
        physical_table: physical_table.map(|s| s.to_string()),
    }
}

fn opt(schema: Option<&str>, physical_table: Option<&str>) -> ContextOpt {
    let mut o = ContextOpt::default();
    if let Some(s) = schema {
        o.set_schema(s.to_string());
    }
    if let Some(p) = physical_table {
        o.set_physical_table(p.to_string());
    }
    o
}

#[test]
fn test_get_or_create_accumulates_in_one_builder() {
    let mut tables = TablesBuilder::default();
    let c = ctx(Some("db"), None);

    let b = tables.get_or_create_table_builder(c.clone(), "cpu".to_string(), 1, 1);
    b.add_labels_and_samples(&[label("host", "h1")], &[sample(0, 1.0)], PromValidationMode::Strict)
        .unwrap();

    // The same key hands back the same accumulating builder.
    let b = tables.get_or_create_table_builder(c.clone(), "cpu".to_string(), 1, 1);
    b.add_labels_and_samples(&[label("host", "h2")], &[sample(1, 2.0)], PromValidationMode::Strict)
        .unwrap();

    let req = tables.as_insert_requests();
    assert_eq!(req.len(), 1);
    let group = req.get_requests(&opt(Some("db"), None)).unwrap();
    assert_eq!(group.len(), 1);
    let rows = group[0].rows.as_ref().unwrap();
    assert_eq!(group[0].table_name, "cpu");
    assert_eq!(rows.rows.len(), 2);
}

#[test]
fn test_flush_groups_by_destination() {
    let mut tables = TablesBuilder::default();
    let c1 = ctx(None, None);
    let c2 = ctx(Some("other"), Some("phys"));

    tables
        .get_or_create_table_builder(c1.clone(), "cpu".to_string(), 0, 0)
        .add_labels_and_samples(&[], &[sample(0, 0.5)], PromValidationMode::Strict)
        .unwrap();
    tables
        .get_or_create_table_builder(c1.clone(), "mem".to_string(), 0, 0)
        .add_labels_and_samples(&[], &[sample(0, 0.25)], PromValidationMode::Strict)
        .unwrap();
    tables
        .get_or_create_table_builder(c2.clone(), "cpu".to_string(), 0, 0)
        .add_labels_and_samples(&[], &[sample(0, 0.75)], PromValidationMode::Strict)
        .unwrap();

    let req = tables.as_insert_requests();
    assert_eq!(req.len(), 2);

    let plain = req.get_requests(&opt(None, None)).unwrap();
    assert_eq!(plain.len(), 2);
    assert_eq!(plain[0].table_name, "cpu");
    assert_eq!(plain[1].table_name, "mem");

    let routed = req.get_requests(&opt(Some("other"), Some("phys"))).unwrap();
    assert_eq!(routed.len(), 1);
    assert_eq!(routed[0].table_name, "cpu");
}

#[test]
fn test_flush_twice_without_writes_is_empty() {
    let mut tables = TablesBuilder::default();
    tables
        .get_or_create_table_builder(ctx(None, None), "cpu".to_string(), 0, 0)
        .add_labels_and_samples(&[], &[sample(0, 1.0)], PromValidationMode::Strict)
        .unwrap();

    let first = tables.as_insert_requests();
    assert_eq!(first.len(), 1);

    let second = tables.as_insert_requests();
    assert_eq!(second.len(), 0);
    assert!(second.get_requests(&opt(None, None)).is_none());
}

#[test]
fn test_clear_resets_the_accumulator() {
    let mut tables = TablesBuilder::default();
    tables
        .get_or_create_table_builder(ctx(None, None), "cpu".to_string(), 0, 0)
        .add_labels_and_samples(&[], &[sample(0, 1.0)], PromValidationMode::Strict)
        .unwrap();
    tables.clear();
    let req = tables.as_insert_requests();
    assert_eq!(req.len(), 0);
}

#[test]
fn test_merge_concatenates_equal_destinations() {
    let mut left = ContextReq::new();
    let mut right = ContextReq::new();

    let mut t1 = TablesBuilder::default();
    t1.get_or_create_table_builder(ctx(Some("db"), None), "cpu".to_string(), 0, 0)
        .add_labels_and_samples(&[], &[sample(0, 1.0)], PromValidationMode::Strict)
        .unwrap();
    left.merge(t1.as_insert_requests());

    let mut t2 = TablesBuilder::default();
    t2.get_or_create_table_builder(ctx(Some("db"), None), "cpu".to_string(), 0, 0)
        .add_labels_and_samples(&[], &[sample(1, 2.0)], PromValidationMode::Strict)
        .unwrap();
    t2.get_or_create_table_builder(ctx(None, None), "mem".to_string(), 0, 0)
        .add_labels_and_samples(&[], &[sample(2, 3.0)], PromValidationMode::Strict)
        .unwrap();
    right.merge(t2.as_insert_requests());

    left.merge(right);
    assert_eq!(left.len(), 2);
    // Batches for the same destination are concatenated, never overwritten.
    let db = left.get_requests(&opt(Some("db"), None)).unwrap();
    assert_eq!(db.len(), 2);
    assert_eq!(db[0].table_name, "cpu");
    assert_eq!(db[1].table_name, "cpu");
    let plain = left.get_requests(&opt(None, None)).unwrap();
    assert_eq!(plain.len(), 1);
    assert_eq!(plain[0].table_name, "mem");
}

#[test]
fn test_merge_by_name_matches_combined_builder() {
    // Draining two builders for the same table and concatenating their rows
    // equals one builder that saw all appends, comparing rows by column
    // name: the tag columns may stand at different positions.
    let calls1 = vec![(vec![("a", "1")], 0i64), (vec![("b", "2")], 1)];
    let calls2 = vec![(vec![("c", "3")], 2), (vec![("a", "4"), ("c", "5")], 3)];

    let run = |calls: &[(Vec<(&str, &str)>, i64)]| -> row_pipeline::row::Rows {
        let mut b = row_pipeline::table::TableBuilder::default();
        for (tags, ts) in calls {
            let labels: Vec<PromLabel> = tags.iter().map(|(n, v)| label(n, v)).collect();
            b.add_labels_and_samples(&labels, &[sample(*ts, 1.0)], PromValidationMode::Strict)
                .unwrap();
        }
        b.as_row_insert_request("t".to_string()).rows.unwrap()
    };

    let named = |rows: &row_pipeline::row::Rows| -> Vec<Vec<(String, RowValue)>> {
        rows.rows
            .iter()
            .map(|row| {
                row.values
                    .iter()
                    .enumerate()
                    .filter(|(_, v)| **v != RowValue::Null)
                    .map(|(i, v)| (rows.schema[i].column_name.clone(), v.clone()))
                    .collect()
            })
            .collect()
    };

    let separate1 = run(&calls1);
    let separate2 = run(&calls2);
    let combined = {
        let mut all = calls1.clone();
        all.extend(calls2.clone());
        run(&all)
    };

    let mut expected = named(&separate1);
    expected.extend(named(&separate2));
    let mut got = named(&combined);

    // Within one row the column order may differ between the two sides;
    // compare each row's (name, value) set.
    for row in expected.iter_mut() {
        row.sort_by(|a, b| a.0.cmp(&b.0));
    }
    for row in got.iter_mut() {
        row.sort_by(|a, b| a.0.cmp(&b.0));
    }
    assert_eq!(expected, got);
}
