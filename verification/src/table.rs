//! The table builder: accumulates rows for one table, inducing tag columns
//! on the fly and reconciling row width at flush time.

use vstd::prelude::*;
use crate::decode::{
    DecodeError, PromValidationMode, spec_decode_ok, spec_decoded,
};
use crate::row::{
    ColumnDataType, ColumnSchema, ColumnSchemaV, PromLabel, PromLabelV, Row, RowInsertRequest,
    RowValue, RowValueV, Rows, Sample, SemanticType,
};

verus! {

/// The fixed first column: the millisecond timestamp.
pub open spec fn ts_column() -> ColumnSchemaV {
    ColumnSchemaV {
        column_name: "greptime_timestamp"@,
        datatype: ColumnDataType::TimestampMillisecond,
        semantic_type: SemanticType::Timestamp,
    }
}

/// The fixed second column: the measured value.
pub open spec fn value_column() -> ColumnSchemaV {
    ColumnSchemaV {
        column_name: "greptime_value"@,
        datatype: ColumnDataType::Float64,
        semantic_type: SemanticType::Field,
    }
}

/// A dynamically discovered tag column.
pub open spec fn tag_column(name: Seq<char>) -> ColumnSchemaV {
    ColumnSchemaV {
        column_name: name,
        datatype: ColumnDataType::Utf8,
        semantic_type: SemanticType::Tag,
    }
}

/// The mathematical content of a [`TableBuilder`]: its column schema and
/// the rows accumulated so far, some of which may still be narrower than
/// the schema.
pub struct TableModel {
    pub schema: Seq<ColumnSchemaV>,
    pub rows: Seq<Seq<RowValueV>>,
}

/// A fresh builder: the two fixed columns and no rows.
pub open spec fn init_model() -> TableModel {
    TableModel { schema: seq![ts_column(), value_column()], rows: Seq::empty() }
}

/// A drained builder.
pub open spec fn empty_model() -> TableModel {
    TableModel { schema: Seq::empty(), rows: Seq::empty() }
}

/// Well-formed: the two fixed columns stand first, column names are
/// distinct, and no row is wider than the schema.
pub open spec fn wf_model(m: TableModel) -> bool {
    &&& m.schema.len() >= 2
    &&& m.schema[0] == ts_column()
    &&& m.schema[1] == value_column()
    &&& forall|i: int, j: int|
        #![trigger m.schema[i], m.schema[j]]
        0 <= i < j < m.schema.len() ==> m.schema[i].column_name != m.schema[j].column_name
    &&& forall|i: int| 0 <= i < m.rows.len() ==> 2 <= (#[trigger] m.rows[i]).len() <= m.schema.len()
}

/// The position of the column called `name`, or -1.
pub open spec fn find_col(schema: Seq<ColumnSchemaV>, name: Seq<char>) -> int
    decreases schema.len(),
{
    if schema.len() == 0 {
        -1
    } else if schema[0].column_name == name {
        0
    } else {
        let r = find_col(schema.drop_first(), name);
        if r < 0 {
            -1
        } else {
            r + 1
        }
    }
}

/// A row of `n` empty cells.
pub open spec fn null_row(n: int) -> Seq<RowValueV> {
    Seq::new(n as nat, |i: int| RowValueV::Null)
}

/// One tag set into the prototype row: at the column already carrying its
/// name, or at a freshly appended tag column.
pub open spec fn add_tag(
    schema: Seq<ColumnSchemaV>,
    proto: Seq<RowValueV>,
    name: Seq<char>,
    value: Seq<char>,
) -> (Seq<ColumnSchemaV>, Seq<RowValueV>) {
    let i = find_col(schema, name);
    if i >= 0 {
        (schema, proto.update(i, RowValueV::Str(value)))
    } else {
        (schema.push(tag_column(name)), proto.push(RowValueV::Str(value)))
    }
}

/// All tags of one append call set into the prototype row, in order.
pub open spec fn add_tags(
    schema: Seq<ColumnSchemaV>,
    proto: Seq<RowValueV>,
    tags: Seq<(Seq<char>, Seq<char>)>,
) -> (Seq<ColumnSchemaV>, Seq<RowValueV>)
    decreases tags.len(),
{
    if tags.len() == 0 {
        (schema, proto)
    } else {
        let sp = add_tag(schema, proto, tags[0].0, tags[0].1);
        add_tags(sp.0, sp.1, tags.drop_first())
    }
}

/// The prototype row finished for one sample: timestamp and value set.
pub open spec fn sample_row(proto: Seq<RowValueV>, s: Sample) -> Seq<RowValueV> {
    proto.update(0, RowValueV::TimestampMillis(s.timestamp)).update(
        1,
        RowValueV::Float64Bits(s.value_bits),
    )
}

/// One finished row per sample, in sample order.
pub open spec fn rows_of_samples(proto: Seq<RowValueV>, samples: Seq<Sample>) -> Seq<
    Seq<RowValueV>,
> {
    samples.map_values(|s: Sample| sample_row(proto, s))
}

/// What one append call does to a builder: tags grow the schema and fill a
/// prototype row, and each sample appends one finished row.
pub open spec fn spec_add(
    m: TableModel,
    tags: Seq<(Seq<char>, Seq<char>)>,
    samples: Seq<Sample>,
) -> TableModel {
    let sp = add_tags(m.schema, null_row(m.schema.len() as int), tags);
    TableModel { schema: sp.0, rows: m.rows + rows_of_samples(sp.1, samples) }
}

/// The labels' names and values as decoded under `mode`.
pub open spec fn decoded_tags(mode: PromValidationMode, labels: Seq<PromLabelV>) -> Seq<
    (Seq<char>, Seq<char>),
> {
    labels.map_values(|l: PromLabelV| (spec_decoded(mode, l.name), spec_decoded(mode, l.value)))
}

/// True when every label's name and value decode under `mode`.
pub open spec fn all_labels_decodable(mode: PromValidationMode, labels: Seq<PromLabelV>) -> bool {
    forall|i: int|
        0 <= i < labels.len() ==> spec_decode_ok(mode, (#[trigger] labels[i]).name)
            && spec_decode_ok(mode, labels[i].value)
}

/// `row` widened to `n` cells by trailing empty cells; a row already that
/// wide is unchanged.
pub open spec fn pad_row(row: Seq<RowValueV>, n: int) -> Seq<RowValueV> {
    if row.len() >= n {
        row
    } else {
        row + Seq::new((n - row.len()) as nat, |i: int| RowValueV::Null)
    }
}

/// Every row widened to `n` cells.
pub open spec fn padded_rows(rows: Seq<Seq<RowValueV>>, n: int) -> Seq<Seq<RowValueV>> {
    rows.map_values(|r: Seq<RowValueV>| pad_row(r, n))
}

/// The predicate holding of tag columns.
pub open spec fn tag_pred() -> spec_fn(ColumnSchemaV) -> bool {
    |c: ColumnSchemaV| c.semantic_type == SemanticType::Tag
}

/// The names of the tag columns, in first-seen order.
pub open spec fn tag_names(schema: Seq<ColumnSchemaV>) -> Seq<Seq<char>> {
    schema.filter(tag_pred()).map_values(|c: ColumnSchemaV| c.column_name)
}

proof fn lemma_find_col_at(schema: Seq<ColumnSchemaV>, name: Seq<char>, i: int)
    requires
        0 <= i < schema.len(),
        schema[i].column_name == name,
        forall|j: int| 0 <= j < i ==> (#[trigger] schema[j]).column_name != name,
    ensures
        find_col(schema, name) == i,
    decreases i,
{
    if i > 0 {
        lemma_find_col_at(schema.drop_first(), name, i - 1);
    }
}

proof fn lemma_find_col_none(schema: Seq<ColumnSchemaV>, name: Seq<char>)
    requires
        forall|j: int| 0 <= j < schema.len() ==> (#[trigger] schema[j]).column_name != name,
    ensures
        find_col(schema, name) == -1,
    decreases schema.len(),
{
    if schema.len() > 0 {
        lemma_find_col_none(schema.drop_first(), name);
    }
}

/// Where `find_col` points: at a column of that name, with none before it;
/// or nowhere, when no column carries the name.
pub proof fn lemma_find_col_props(schema: Seq<ColumnSchemaV>, name: Seq<char>)
    ensures
        find_col(schema, name) == -1 ==> forall|j: int|
            0 <= j < schema.len() ==> (#[trigger] schema[j]).column_name != name,
        find_col(schema, name) != -1 ==> 0 <= find_col(schema, name) < schema.len() && schema[
            find_col(schema, name)
        ].column_name == name,
    decreases schema.len(),
{
    if schema.len() > 0 {
        lemma_find_col_props(schema.drop_first(), name);
        if find_col(schema, name) == -1 {
            assert forall|j: int|
                0 <= j < schema.len() implies (#[trigger] schema[j]).column_name != name by {
                if j > 0 {
                    assert(schema.drop_first()[j - 1] == schema[j]);
                }
            }
        }
    }
}

/// The labels' mathematical content.
pub open spec fn labels_view(labels: Seq<PromLabel>) -> Seq<PromLabelV> {
    labels.map_values(|l: PromLabel| l@)
}

/// Builder for one table: its evolving column schema and accumulated rows.
#[derive(Debug)]
pub struct TableBuilder {
    schema: Vec<ColumnSchema>,
    rows: Vec<Row>,
}

impl View for TableBuilder {
    type V = TableModel;

    closed spec fn view(&self) -> TableModel {
        TableModel { schema: self.schema.deep_view(), rows: self.rows.deep_view() }
    }
}

/// Cells of `v`, duplicated one by one.
fn duplicate_cells(v: &Vec<RowValue>) -> (r: Vec<RowValue>)
    ensures
        r.deep_view() == v.deep_view(),
{
    let mut r: Vec<RowValue> = Vec::new();
    let n = v.len();
    let mut i: usize = 0;
    while i < n
        invariant
            n == v@.len(),
            0 <= i <= n,
            r.deep_view() == v.deep_view().take(i as int),
        decreases n - i,
    {
        let ghost r0 = r.deep_view();
        r.push(v[i].duplicate());
        proof {
            assert(r.deep_view() =~= r0.push(v@[i as int]@));
            assert(v.deep_view().take(i as int + 1) =~= v.deep_view().take(i as int).push(
                v@[i as int]@,
            ));
        }
        i += 1;
    }
    proof {
        assert(v.deep_view().take(n as int) =~= v.deep_view());
    }
    r
}

impl Default for TableBuilder {
    fn default() -> (r: Self)
        ensures
            r@ == init_model(),
            wf_model(r@),
    {
        Self::with_capacity(2, 0)
    }
}

impl TableBuilder {
    /// A fresh builder, pre-sized for `cols` columns and `rows` rows.
    pub fn with_capacity(cols: usize, rows: usize) -> (r: Self)
        ensures
            r@ == init_model(),
            wf_model(r@),
    {
        let mut schema: Vec<ColumnSchema> = Vec::with_capacity(cols);
        schema.push(
            ColumnSchema {
                column_name: "greptime_timestamp".to_owned(),
                datatype: ColumnDataType::TimestampMillisecond,
                semantic_type: SemanticType::Timestamp,
            },
        );
        schema.push(
            ColumnSchema {
                column_name: "greptime_value".to_owned(),
                datatype: ColumnDataType::Float64,
                semantic_type: SemanticType::Field,
            },
        );
        let r = TableBuilder { schema, rows: Vec::with_capacity(rows) };
        proof {
            reveal_strlit("greptime_timestamp");
            reveal_strlit("greptime_value");
            assert(r@.schema =~= init_model().schema);
            assert(r@.rows =~= init_model().rows);
            assert("greptime_timestamp"@.len() == 18);
            assert("greptime_value"@.len() == 14);
        }
        r
    }

    /// The position of the column called `name`, if the schema has one.
    fn find_column(&self, name: &str) -> (r: Option<usize>)
        ensures
            match r {
                Some(i) => find_col(self@.schema, name@) == i && i < self@.schema.len(),
                None => find_col(self@.schema, name@) == -1,
            },
    {
        let n = self.schema.len();
        let mut i: usize = 0;
        while i < n
            invariant
                n == self.schema@.len(),
                0 <= i <= n,
                forall|j: int|
                    0 <= j < i ==> (#[trigger] self@.schema[j]).column_name != name@,
            decreases n - i,
        {
            proof {
                assert(self@.schema[i as int] == self.schema@[i as int]@);
            }
            if crate::value::str_eq(self.schema[i].column_name.as_str(), name) {
                proof {
                    lemma_find_col_at(self@.schema, name@, i as int);
                }
                return Some(i);
            }
            i += 1;
        }
        proof {
            lemma_find_col_none(self@.schema, name@);
        }
        None
    }

    /// Appends one group: the labels' tags, then one row per sample.
    ///
    /// Under strict validation, a label that is not UTF-8 fails the whole
    /// call and leaves the builder exactly as it was.
    #[verifier::loop_isolation(false)]
    pub fn add_labels_and_samples(
        &mut self,
        labels: &[PromLabel],
        samples: &[Sample],
        prom_validation_mode: PromValidationMode,
    ) -> (r: Result<(), DecodeError>)
        requires
            wf_model(old(self)@),
        ensures
            wf_model(final(self)@),
            r is Ok <==> all_labels_decodable(prom_validation_mode, labels_view(labels@)),
            r is Ok ==> final(self)@ == spec_add(
                old(self)@,
                decoded_tags(prom_validation_mode, labels_view(labels@)),
                samples@,
            ),
            r is Err ==> final(self)@ == old(self)@,
            r matches Err(e) ==> e.description_view() == "invalid utf-8"@,
    {
        let ghost lv = labels_view(labels@);
        let ghost dtags = decoded_tags(prom_validation_mode, lv);
        // Decode every label before touching any shared state, so that a
        // failed group never leaves a partial schema behind.
        let mut tags: Vec<(String, String)> = Vec::new();
        let nl = labels.len();
        let mut i: usize = 0;
        proof {
            assert(tags@.map(|k: int, e: (String, String)| (e.0@, e.1@)) =~= dtags.take(0));
        }
        while i < nl
            invariant
                nl == labels@.len(),
                0 <= i <= nl,
                *self == *old(self),
                lv == labels_view(labels@),
                dtags == decoded_tags(prom_validation_mode, lv),
                forall|j: int|
                    0 <= j < i ==> spec_decode_ok(prom_validation_mode, (#[trigger] lv[j]).name)
                        && spec_decode_ok(prom_validation_mode, lv[j].value),
                tags@.map(|k: int, e: (String, String)| (e.0@, e.1@)) == dtags.take(i as int),
            decreases nl - i,
        {
            let ghost tags0 = tags@.map(|k: int, e: (String, String)| (e.0@, e.1@));
            proof {
                assert(lv[i as int] == labels@[i as int]@);
            }
            let name = match prom_validation_mode.decode_string(labels[i].name.as_slice()) {
                Ok(s) => s,
                Err(e) => {
                    proof {
                        assert(!spec_decode_ok(prom_validation_mode, lv[i as int].name));
                        assert(!all_labels_decodable(prom_validation_mode, lv));
                    }
                    return Err(e);
                },
            };
            let value = match prom_validation_mode.decode_string(labels[i].value.as_slice()) {
                Ok(s) => s,
                Err(e) => {
                    proof {
                        assert(!spec_decode_ok(prom_validation_mode, lv[i as int].value));
                        assert(!all_labels_decodable(prom_validation_mode, lv));
                    }
                    return Err(e);
                },
            };
            proof {
                assert(lv[i as int] == labels@[i as int]@);
            }
            tags.push((name, value));
            proof {
                assert(tags@.map(|k: int, e: (String, String)| (e.0@, e.1@)) =~= tags0.push(
                    dtags[i as int],
                ));
                assert(dtags.take(i as int + 1) =~= dtags.take(i as int).push(dtags[i as int]));
            }
            i += 1;
        }
        proof {
            assert(dtags.take(nl as int) =~= dtags);
            assert forall|j: int| 0 <= j < lv.len() implies spec_decode_ok(
                prom_validation_mode,
                (#[trigger] lv[j]).name,
            ) && spec_decode_ok(prom_validation_mode, lv[j].value) by {}
        }
        // Build the prototype row: one empty cell per current column.
        let ghost m0 = self@;
        let cols = self.schema.len();
        let mut proto: Vec<RowValue> = Vec::new();
        let mut p: usize = 0;
        proof {
            assert(proto.deep_view() =~= null_row(0));
        }
        while p < cols
            invariant
                0 <= p <= cols,
                *self == *old(self),
                proto.deep_view() == null_row(p as int),
            decreases cols - p,
        {
            let ghost pr0 = proto.deep_view();
            proto.push(RowValue::Null);
            proof {
                assert forall|q: int|
                    0 <= q < proto.deep_view().len() implies proto.deep_view()[q] == null_row(
                    p as int + 1,
                )[q] by {
                    if q < p {
                        assert(proto.deep_view()[q] == pr0[q]);
                        assert(pr0[q] == RowValueV::Null);
                    } else {
                        assert(proto@[q] == RowValue::Null);
                    }
                }
                assert(proto.deep_view() =~= null_row(p as int + 1));
            }
            p += 1;
        }
        // Set each tag, growing the schema where the name is new.
        let nt = tags.len();
        let mut t: usize = 0;
        proof {
            assert(dtags.skip(0) =~= dtags);
            assert(m0.rows == self@.rows);
        }
        while t < nt
            invariant
                nt == tags@.len(),
                0 <= t <= nt,
                m0 == old(self)@,
                wf_model(m0),
                dtags == decoded_tags(prom_validation_mode, lv),
                tags@.map(|k: int, e: (String, String)| (e.0@, e.1@)) == dtags,
                nt == dtags.len(),
                self@.rows == m0.rows,
                wf_model(TableModel { schema: self@.schema, rows: m0.rows }),
                proto.deep_view().len() == self@.schema.len(),
                add_tags(m0.schema, null_row(m0.schema.len() as int), dtags) == add_tags(
                    self@.schema,
                    proto.deep_view(),
                    dtags.skip(t as int),
                ),
            decreases nt - t,
        {
            let ghost schema0 = self@.schema;
            let ghost proto0 = proto.deep_view();
            let ghost tag = dtags[t as int];
            proof {
                assert(tags@.map(|k: int, e: (String, String)| (e.0@, e.1@))[t as int] == dtags[t as int]);
                assert(dtags.skip(t as int)[0] == tag);
                assert(dtags.skip(t as int).drop_first() =~= dtags.skip(t as int + 1));
            }
            let tag_name = tags[t].0.clone();
            let tag_value = tags[t].1.clone();
            match self.find_column(tag_name.as_str()) {
                Some(idx) => {
                    proto[idx] = RowValue::Str(tag_value);
                    proof {
                        assert(proto.deep_view() =~= proto0.update(
                            idx as int,
                            RowValueV::Str(tag.1),
                        ));
                        assert(add_tag(schema0, proto0, tag.0, tag.1) == (
                            self@.schema,
                            proto.deep_view(),
                        ));
                    }
                },
                None => {
                    self.schema.push(
                        ColumnSchema {
                            column_name: tag_name,
                            datatype: ColumnDataType::Utf8,
                            semantic_type: SemanticType::Tag,
                        },
                    );
                    proto.push(RowValue::Str(tag_value));
                    proof {
                        assert(self@.schema =~= schema0.push(tag_column(tag.0)));
                        assert(proto.deep_view() =~= proto0.push(RowValueV::Str(tag.1)));
                        lemma_find_col_props(schema0, tag.0);
                        assert forall|a: int, b: int|
                            #![trigger self@.schema[a], self@.schema[b]]
                            0 <= a < b < self@.schema.len() implies self@.schema[a].column_name
                            != self@.schema[b].column_name by {
                            if b < schema0.len() {
                                assert(schema0[a].column_name != schema0[b].column_name);
                            } else {
                                assert(schema0[a].column_name != tag.0);
                            }
                        }
                    }
                },
            }
            t += 1;
        }
        proof {
            assert(dtags.skip(nt as int) =~= Seq::<(Seq<char>, Seq<char>)>::empty());
        }
        // One finished row per sample.
        let ghost schema_f = self@.schema;
        let ghost proto_f = proto.deep_view();
        let ns = samples.len();
        let mut s: usize = 0;
        proof {
            assert(self@.rows =~= m0.rows + rows_of_samples(proto_f, samples@.take(0)));
        }
        while s < ns
            invariant
                ns == samples@.len(),
                0 <= s <= ns,
                m0 == old(self)@,
                wf_model(m0),
                proto.deep_view() == proto_f,
                proto_f.len() == schema_f.len(),
                schema_f.len() >= 2,
                self@.schema == schema_f,
                wf_model(TableModel { schema: schema_f, rows: m0.rows }),
                self@.rows == m0.rows + rows_of_samples(proto_f, samples@.take(s as int)),
            decreases ns - s,
        {
            let ghost rows0 = self@.rows;
            let mut row = duplicate_cells(&proto);
            row[0] = RowValue::TimestampMillis(samples[s].timestamp);
            row[1] = RowValue::Float64Bits(samples[s].value_bits);
            proof {
                assert(row.deep_view() =~= sample_row(proto_f, samples@[s as int]));
            }
            self.rows.push(Row { values: row });
            proof {
                assert(self@.rows =~= rows0.push(sample_row(proto_f, samples@[s as int])));
                assert(rows_of_samples(proto_f, samples@.take(s as int + 1)) =~= rows_of_samples(
                    proto_f,
                    samples@.take(s as int),
                ).push(sample_row(proto_f, samples@[s as int])));
                assert(self@.rows =~= rows0 + seq![sample_row(proto_f, samples@[s as int])]);
                assert(
                    m0.rows + rows_of_samples(proto_f, samples@.take(s as int + 1)) =~= rows0 + seq![
                        sample_row(proto_f, samples@[s as int]),
                    ]
                );
            }
            s += 1;
        }
        proof {
            assert(samples@.take(ns as int) =~= samples@);
            assert(self@ == spec_add(m0, dtags, samples@)) by {
                assert(add_tags(m0.schema, null_row(m0.schema.len() as int), dtags) == (
                    schema_f,
                    proto_f,
                ));
            }
        }
        Ok(())
    }

    /// Drains the builder into one batch: every row is widened to the final
    /// column count, so each emitted row has exactly schema-length values.
    #[verifier::loop_isolation(false)]
    pub fn as_row_insert_request(&mut self, table_name: String) -> (r: RowInsertRequest)
        ensures
            final(self)@ == empty_model(),
            r.table_name@ == table_name@,
            r.rows matches Some(rows) && rows.schema.deep_view() == old(self)@.schema
                && rows.rows.deep_view() == padded_rows(
                old(self)@.rows,
                old(self)@.schema.len() as int,
            ),
            wf_model(old(self)@) ==> (r.rows matches Some(rows) ==> forall|i: int|
                0 <= i < rows.rows.deep_view().len() ==> (#[trigger] rows.rows.deep_view()[i]).len()
                    == old(self)@.schema.len()),
    {
        let ghost m0 = self@;
        let mut schema: Vec<ColumnSchema> = Vec::new();
        core::mem::swap(&mut self.schema, &mut schema);
        let mut rows: Vec<Row> = Vec::new();
        core::mem::swap(&mut self.rows, &mut rows);
        proof {
            assert(self@.schema =~= Seq::<ColumnSchemaV>::empty());
            assert(self@.rows =~= Seq::<Seq<RowValueV>>::empty());
        }
        let col_num = schema.len();
        let ghost rows0 = rows.deep_view();
        let ghost n: int = rows0.len() as int;
        proof {
            assert(rows0 == m0.rows);
            assert(schema.deep_view() == m0.schema);
        }
        let mut out: Vec<Row> = Vec::new();
        proof {
            assert(out.deep_view() =~= padded_rows(rows0.take(0), col_num as int));
        }
        while rows.len() > 0
            invariant
                n == rows0.len(),
                rows.deep_view().len() <= n,
                rows.deep_view() == rows0.skip(n - rows.deep_view().len()),
                col_num == m0.schema.len(),
                out.deep_view() == padded_rows(
                    rows0.take(n - rows.deep_view().len()),
                    col_num as int,
                ),
            decreases rows.deep_view().len(),
        {
            let ghost k: int = n - rows.deep_view().len();
            let ghost rsrc = rows.deep_view();
            let mut row = rows.remove(0);
            proof {
                assert(rsrc[0] == rows0[k]);
                assert(row.deep_view() == rows0[k]);
                assert forall|q: int|
                    0 <= q < rows.deep_view().len() implies rows.deep_view()[q] == rows0.skip(
                    k + 1,
                )[q] by {
                    assert(rows.deep_view()[q] == rsrc[q + 1]);
                }
                assert(rows.deep_view() =~= rows0.skip(k + 1));
            }
            let ghost rowv = row@;
            while row.values.len() < col_num
                invariant
                    rowv == rows0[k],
                    rowv.len() <= row@.len(),
                    row@.len() <= col_num || row@ == rowv,
                    row@ == pad_row(rowv, row@.len() as int),
                    row@.len() == row.values@.len(),
                decreases col_num - row.values.len(),
            {
                let ghost r0 = row@;
                row.values.push(RowValue::Null);
                proof {
                    assert(row@ =~= r0.push(RowValueV::Null));
                    assert(row@ =~= pad_row(rowv, row@.len() as int));
                }
            }
            proof {
                assert(row@ =~= pad_row(rowv, col_num as int));
            }
            let ghost out0 = out.deep_view();
            out.push(row);
            proof {
                assert(out.deep_view() =~= out0.push(pad_row(rows0[k], col_num as int)));
                assert(padded_rows(rows0.take(k + 1), col_num as int) =~= padded_rows(
                    rows0.take(k),
                    col_num as int,
                ).push(pad_row(rows0[k], col_num as int)));
            }
        }
        proof {
            assert(rows0.take(n) =~= rows0);
        }
        let r = RowInsertRequest { table_name, rows: Some(Rows { schema, rows: out }) };
        proof {
            if wf_model(m0) {
                assert forall|i: int| 0 <= i < out.deep_view().len() implies (
                #[trigger] out.deep_view()[i]).len() == m0.schema.len() by {
                    assert(out.deep_view()[i] == pad_row(rows0[i], col_num as int));
                    assert(m0.rows[i].len() <= m0.schema.len());
                }
            }
        }
        r
    }

    /// The names of the tag columns, in first-seen order.
    pub fn tags(&self) -> (r: Vec<String>)
        ensures
            r.deep_view() == tag_names(self@.schema),
    {
        let mut r: Vec<String> = Vec::new();
        let n = self.schema.len();
        let mut i: usize = 0;
        proof {
            reveal_with_fuel(Seq::filter, 2);
            assert(self@.schema.take(0) =~= Seq::<ColumnSchemaV>::empty());
            assert(r.deep_view() =~= tag_names(self@.schema.take(0)));
        }
        while i < n
            invariant
                n == self.schema@.len(),
                0 <= i <= n,
                r.deep_view() == tag_names(self@.schema.take(i as int)),
            decreases n - i,
        {
            let ghost cv = self@.schema[i as int];
            let ghost r0 = r.deep_view();
            proof {
                assert(cv == self.schema@[i as int]@);
            }
            if self.schema[i].semantic_type == SemanticType::Tag {
                r.push(self.schema[i].column_name.clone());
                proof {
                    assert(r.deep_view() =~= r0.push(cv.column_name));
                }
            }
            proof {
                let pr = tag_pred();
                assert(self@.schema.take(i as int + 1) =~= self@.schema.take(i as int) + seq![cv]);
                Seq::filter_distributes_over_add(self@.schema.take(i as int), seq![cv], pr);
                reveal_with_fuel(Seq::filter, 2);
                assert(seq![cv].drop_last() =~= Seq::<ColumnSchemaV>::empty());
                if cv.semantic_type == SemanticType::Tag {
                    assert(seq![cv].filter(pr) =~= seq![cv]);
                    assert(r.deep_view() =~= tag_names(self@.schema.take(i as int + 1)));
                } else {
                    assert(seq![cv].filter(pr) =~= Seq::<ColumnSchemaV>::empty());
                    assert(r.deep_view() =~= tag_names(self@.schema.take(i as int + 1)));
                }
            }
            i += 1;
        }
        proof {
            assert(self@.schema.take(n as int) =~= self@.schema);
        }
        r
    }
}


/// One append call's mathematical content: its decoded tags and samples.
pub struct CallV {
    pub tags: Seq<(Seq<char>, Seq<char>)>,
    pub samples: Seq<Sample>,
}

/// The builder state after a sequence of append calls, oldest first.
pub open spec fn run_calls(m: TableModel, calls: Seq<CallV>) -> TableModel
    decreases calls.len(),
{
    if calls.len() == 0 {
        m
    } else {
        run_calls(spec_add(m, calls[0].tags, calls[0].samples), calls.drop_first())
    }
}

/// True when no two columns of `schema` share a name.
pub open spec fn distinct_names(schema: Seq<ColumnSchemaV>) -> bool {
    forall|i: int, j: int|
        #![trigger schema[i], schema[j]]
        0 <= i < j < schema.len() ==> schema[i].column_name != schema[j].column_name
}

/// Setting tags grows the schema monotonically: what stands keeps its
/// place, names stay distinct, and the prototype stays schema-length.
pub proof fn lemma_add_tags_props(
    schema: Seq<ColumnSchemaV>,
    proto: Seq<RowValueV>,
    tags: Seq<(Seq<char>, Seq<char>)>,
)
    requires
        distinct_names(schema),
        proto.len() == schema.len(),
    ensures
        add_tags(schema, proto, tags).0.len() >= schema.len(),
        add_tags(schema, proto, tags).1.len() == add_tags(schema, proto, tags).0.len(),
        add_tags(schema, proto, tags).0.take(schema.len() as int) == schema,
        distinct_names(add_tags(schema, proto, tags).0),
    decreases tags.len(),
{
    if tags.len() == 0 {
        assert(schema.take(schema.len() as int) =~= schema);
    } else {
        let sp = add_tag(schema, proto, tags[0].0, tags[0].1);
        let i = find_col(schema, tags[0].0);
        lemma_find_col_props(schema, tags[0].0);
        if i >= 0 {
            assert(sp.0 == schema);
            assert(sp.0.take(schema.len() as int) =~= schema);
        } else {
            lemma_find_col_props(schema, tags[0].0);
            assert(sp.0 == schema.push(tag_column(tags[0].0)));
            assert(sp.0.take(schema.len() as int) =~= schema);
            assert forall|a: int, b: int|
                #![trigger sp.0[a], sp.0[b]]
                0 <= a < b < sp.0.len() implies sp.0[a].column_name != sp.0[b].column_name by {
                if b < schema.len() {
                    assert(schema[a].column_name != schema[b].column_name);
                } else {
                    assert(sp.0[a] == schema[a]);
                    assert(sp.0[b].column_name == tags[0].0);
                    assert(schema[a].column_name != tags[0].0);
                }
            }
        }
        lemma_add_tags_props(sp.0, sp.1, tags.drop_first());
        let fin = add_tags(sp.0, sp.1, tags.drop_first());
        assert(fin == add_tags(schema, proto, tags));
        assert forall|q: int| 0 <= q < schema.len() implies fin.0.take(schema.len() as int)[q]
            == schema[q] by {
            assert(fin.0.take(sp.0.len() as int)[q] == sp.0[q]);
            assert(sp.0.take(schema.len() as int)[q] == schema[q]);
        }
        assert(fin.0.take(schema.len() as int) =~= schema);
    }
}

/// Appending one group preserves the builder's well-formedness.
pub proof fn lemma_spec_add_wf(m: TableModel, tags: Seq<(Seq<char>, Seq<char>)>, samples: Seq<Sample>)
    requires
        wf_model(m),
    ensures
        wf_model(spec_add(m, tags, samples)),
{
    let n: int = m.schema.len() as int;
    lemma_add_tags_props(m.schema, null_row(n), tags);
    let sp = add_tags(m.schema, null_row(n), tags);
    let m2 = spec_add(m, tags, samples);
    assert(m2.schema == sp.0);
    assert(sp.0.take(n)[0] == sp.0[0]);
    assert(sp.0.take(n)[1] == sp.0[1]);
    assert(m2.schema[0] == ts_column());
    assert(m2.schema[1] == value_column());
    assert forall|i: int| 0 <= i < m2.rows.len() implies 2 <= (#[trigger] m2.rows[i]).len()
        <= m2.schema.len() by {
        if i < m.rows.len() {
            assert(m2.rows[i] == m.rows[i]);
        } else {
            let j = i - m.rows.len();
            assert(rows_of_samples(sp.1, samples)[j] == sample_row(sp.1, samples[j]));
            assert(m2.rows[i] == sample_row(sp.1, samples[j]));
        }
    }
}

/// Any run of append calls from a well-formed state stays well-formed.
pub proof fn lemma_run_calls_wf(m: TableModel, calls: Seq<CallV>)
    requires
        wf_model(m),
    ensures
        wf_model(run_calls(m, calls)),
    decreases calls.len(),
{
    if calls.len() > 0 {
        lemma_spec_add_wf(m, calls[0].tags, calls[0].samples);
        lemma_run_calls_wf(spec_add(m, calls[0].tags, calls[0].samples), calls.drop_first());
    }
}

/// A fresh builder is well-formed.
pub proof fn lemma_init_model_wf()
    ensures
        wf_model(init_model()),
{
    reveal_strlit("greptime_timestamp");
    reveal_strlit("greptime_value");
    assert("greptime_timestamp"@.len() == 18);
    assert("greptime_value"@.len() == 14);
    let m = init_model();
    assert(m.schema[0] == ts_column());
    assert(m.schema[1] == value_column());
    assert forall|i: int, j: int|
        #![trigger m.schema[i], m.schema[j]]
        0 <= i < j < m.schema.len() implies m.schema[i].column_name != m.schema[j].column_name by {
        assert(i == 0 && j == 1);
    }
}

/// Law: the schema-width invariant. After any sequence of append calls on a
/// fresh builder, flushing pads every accumulated row to exactly the final
/// schema length.
pub proof fn lemma_flush_row_width(calls: Seq<CallV>)
    ensures
        ({
            let m = run_calls(init_model(), calls);
            let flushed = padded_rows(m.rows, m.schema.len() as int);
            forall|i: int| 0 <= i < flushed.len() ==> (#[trigger] flushed[i]).len()
                == m.schema.len()
        }),
{
    lemma_init_model_wf();
    lemma_run_calls_wf(init_model(), calls);
    let m = run_calls(init_model(), calls);
    let flushed = padded_rows(m.rows, m.schema.len() as int);
    assert forall|i: int| 0 <= i < flushed.len() implies (#[trigger] flushed[i]).len()
        == m.schema.len() by {
        assert(flushed[i] == pad_row(m.rows[i], m.schema.len() as int));
        assert(m.rows[i].len() <= m.schema.len());
    }
}

/// Law: column-order determinism. The schema after an append depends only
/// on the schema before it and on the decoded tags, in order — never on
/// accumulated rows or on the samples — so identical call orders yield
/// identical tag-column order.
pub proof fn lemma_column_order_deterministic(
    m1: TableModel,
    m2: TableModel,
    tags: Seq<(Seq<char>, Seq<char>)>,
    samples1: Seq<Sample>,
    samples2: Seq<Sample>,
)
    requires
        m1.schema == m2.schema,
    ensures
        spec_add(m1, tags, samples1).schema == spec_add(m2, tags, samples2).schema,
{
}


/// The cells of one row, keyed by their column's name; empty cells are
/// absent. This is the "schema reconciled by name" reading of a row.
pub open spec fn named_row(schema: Seq<ColumnSchemaV>, row: Seq<RowValueV>) -> Map<
    Seq<char>,
    RowValueV,
>
    decreases row.len(),
{
    if row.len() == 0 {
        Map::empty()
    } else {
        let i = row.len() - 1;
        let m = named_row(schema, row.drop_last());
        if row[i] == RowValueV::Null || i >= schema.len() {
            m
        } else {
            m.insert(schema[i].column_name, row[i])
        }
    }
}

/// Every row of `rows` read by column name.
pub open spec fn named_rows(schema: Seq<ColumnSchemaV>, rows: Seq<Seq<RowValueV>>) -> Seq<
    Map<Seq<char>, RowValueV>,
> {
    rows.map_values(|r: Seq<RowValueV>| named_row(schema, r))
}

/// A builder's accumulated rows, each read by column name.
pub open spec fn named_rows_of(m: TableModel) -> Seq<Map<Seq<char>, RowValueV>> {
    named_rows(m.schema, m.rows)
}

/// The tags of one call folded into `m`, in order: a later tag of the same
/// name wins.
pub open spec fn tags_named_from(
    m: Map<Seq<char>, RowValueV>,
    tags: Seq<(Seq<char>, Seq<char>)>,
) -> Map<Seq<char>, RowValueV>
    decreases tags.len(),
{
    if tags.len() == 0 {
        m
    } else {
        tags_named_from(m.insert(tags[0].0, RowValueV::Str(tags[0].1)), tags.drop_first())
    }
}

/// The named cells of the row one call writes for sample `s`: its tags,
/// then the fixed timestamp and value cells — a function of the call alone,
/// independent of any builder state.
pub open spec fn call_named(tags: Seq<(Seq<char>, Seq<char>)>, s: Sample) -> Map<
    Seq<char>,
    RowValueV,
> {
    tags_named_from(Map::empty(), tags).insert(
        "greptime_timestamp"@,
        RowValueV::TimestampMillis(s.timestamp),
    ).insert("greptime_value"@, RowValueV::Float64Bits(s.value_bits))
}

/// The named rows one call writes, in sample order.
pub open spec fn call_rows_named(
    tags: Seq<(Seq<char>, Seq<char>)>,
    samples: Seq<Sample>,
) -> Seq<Map<Seq<char>, RowValueV>> {
    samples.map_values(|s: Sample| call_named(tags, s))
}

/// The named rows a sequence of calls writes, in order.
pub open spec fn calls_named(calls: Seq<CallV>) -> Seq<Map<Seq<char>, RowValueV>>
    decreases calls.len(),
{
    if calls.len() == 0 {
        Seq::empty()
    } else {
        call_rows_named(calls[0].tags, calls[0].samples) + calls_named(calls.drop_first())
    }
}

/// A row shorter than the schema reads the same under either of two
/// schemas that agree on its columns.
proof fn lemma_named_row_prefix(
    schema1: Seq<ColumnSchemaV>,
    schema2: Seq<ColumnSchemaV>,
    row: Seq<RowValueV>,
)
    requires
        row.len() <= schema1.len() <= schema2.len(),
        schema2.take(schema1.len() as int) == schema1,
    ensures
        named_row(schema2, row) == named_row(schema1, row),
    decreases row.len(),
{
    if row.len() > 0 {
        lemma_named_row_prefix(schema1, schema2, row.drop_last());
        let i = row.len() - 1;
        assert(schema2.take(schema1.len() as int)[i] == schema2[i]);
    }
}

/// A row of empty cells has no named cells.
proof fn lemma_named_row_null(schema: Seq<ColumnSchemaV>, n: int)
    requires
        0 <= n,
    ensures
        named_row(schema, null_row(n)) == Map::<Seq<char>, RowValueV>::empty(),
    decreases n,
{
    if n > 0 {
        lemma_named_row_null(schema, n - 1);
        assert(null_row(n).drop_last() =~= null_row(n - 1));
        assert(null_row(n)[n - 1] == RowValueV::Null);
    }
}

/// Setting a cell to a non-empty value binds exactly its column's name.
proof fn lemma_named_row_update(
    schema: Seq<ColumnSchemaV>,
    row: Seq<RowValueV>,
    i: int,
    v: RowValueV,
)
    requires
        distinct_names(schema),
        row.len() <= schema.len(),
        0 <= i < row.len(),
        v != RowValueV::Null,
    ensures
        named_row(schema, row.update(i, v)) =~= named_row(schema, row).insert(
            schema[i].column_name,
            v,
        ),
    decreases row.len(),
{
    let r2 = row.update(i, v);
    let l = row.len() - 1;
    if i == l {
        assert(r2.drop_last() =~= row.drop_last());
        let m = named_row(schema, row.drop_last());
        assert(named_row(schema, r2) == m.insert(schema[i].column_name, v));
        if row[l] == RowValueV::Null {
            assert(named_row(schema, row) == m);
        } else {
            assert(named_row(schema, row) == m.insert(schema[l].column_name, row[l]));
            assert(m.insert(schema[l].column_name, row[l]).insert(schema[i].column_name, v) =~= m.insert(
                schema[i].column_name,
                v,
            ));
        }
    } else {
        assert(r2.drop_last() =~= row.drop_last().update(i, v));
        lemma_named_row_update(schema, row.drop_last(), i, v);
        let m = named_row(schema, row.drop_last());
        assert(named_row(schema, r2.drop_last()) =~= m.insert(schema[i].column_name, v));
        assert(r2[l] == row[l]);
        if row[l] == RowValueV::Null {
            assert(named_row(schema, r2) == named_row(schema, r2.drop_last()));
        } else {
            assert(schema[i].column_name != schema[l].column_name);
            assert(m.insert(schema[i].column_name, v).insert(schema[l].column_name, row[l]) =~= m.insert(
                schema[l].column_name,
                row[l],
            ).insert(schema[i].column_name, v));
        }
    }
}

/// Appending a column and a matching non-empty cell binds exactly the new
/// column's name.
proof fn lemma_named_row_push(
    schema: Seq<ColumnSchemaV>,
    row: Seq<RowValueV>,
    col: ColumnSchemaV,
    v: RowValueV,
)
    requires
        row.len() == schema.len(),
        v != RowValueV::Null,
    ensures
        named_row(schema.push(col), row.push(v)) == named_row(schema, row).insert(
            col.column_name,
            v,
        ),
{
    let s2 = schema.push(col);
    let r2 = row.push(v);
    assert(r2.drop_last() =~= row);
    assert(r2[r2.len() - 1] == v);
    assert(s2[row.len() as int] == col);
    assert(s2.take(schema.len() as int) =~= schema);
    lemma_named_row_prefix(schema, s2, row);
}

/// Setting one tag binds exactly its name in the prototype's named cells.
proof fn lemma_add_tag_named(
    schema: Seq<ColumnSchemaV>,
    proto: Seq<RowValueV>,
    name: Seq<char>,
    value: Seq<char>,
)
    requires
        distinct_names(schema),
        proto.len() == schema.len(),
    ensures
        named_row(add_tag(schema, proto, name, value).0, add_tag(schema, proto, name, value).1)
            =~= named_row(schema, proto).insert(name, RowValueV::Str(value)),
{
    lemma_find_col_props(schema, name);
    let i = find_col(schema, name);
    if i >= 0 {
        lemma_named_row_update(schema, proto, i, RowValueV::Str(value));
    } else {
        lemma_named_row_push(schema, proto, tag_column(name), RowValueV::Str(value));
    }
}

/// Setting all of a call's tags folds them, in order, into the prototype's
/// named cells.
proof fn lemma_add_tags_named(
    schema: Seq<ColumnSchemaV>,
    proto: Seq<RowValueV>,
    tags: Seq<(Seq<char>, Seq<char>)>,
)
    requires
        distinct_names(schema),
        proto.len() == schema.len(),
    ensures
        named_row(add_tags(schema, proto, tags).0, add_tags(schema, proto, tags).1)
            == tags_named_from(named_row(schema, proto), tags),
    decreases tags.len(),
{
    if tags.len() > 0 {
        let sp = add_tag(schema, proto, tags[0].0, tags[0].1);
        lemma_add_tag_named(schema, proto, tags[0].0, tags[0].1);
        lemma_add_tags_props(schema, proto, seq![tags[0]]);
        lemma_find_col_props(schema, tags[0].0);
        let i = find_col(schema, tags[0].0);
        if i >= 0 {
            assert(distinct_names(sp.0));
            assert(sp.1.len() == sp.0.len());
        } else {
            assert(sp.0 == schema.push(tag_column(tags[0].0)));
            assert forall|a: int, b: int|
                #![trigger sp.0[a], sp.0[b]]
                0 <= a < b < sp.0.len() implies sp.0[a].column_name != sp.0[b].column_name by {
                if b < schema.len() {
                    assert(schema[a].column_name != schema[b].column_name);
                } else {
                    assert(sp.0[a] == schema[a]);
                    assert(sp.0[b].column_name == tags[0].0);
                    assert(schema[a].column_name != tags[0].0);
                }
            }
        }
        lemma_add_tags_named(sp.0, sp.1, tags.drop_first());
        assert(named_row(sp.0, sp.1) == named_row(schema, proto).insert(
            tags[0].0,
            RowValueV::Str(tags[0].1),
        ));
    }
}

/// The rows one call appends read, by name, as the call alone says: the
/// builder's prior state plays no part.
proof fn lemma_spec_add_named(m: TableModel, tags: Seq<(Seq<char>, Seq<char>)>, samples: Seq<Sample>)
    requires
        wf_model(m),
    ensures
        named_rows_of(spec_add(m, tags, samples)) =~= named_rows_of(m) + call_rows_named(
            tags,
            samples,
        ),
{
    let n: int = m.schema.len() as int;
    let proto0 = null_row(n);
    lemma_add_tags_props(m.schema, proto0, tags);
    let sp = add_tags(m.schema, proto0, tags);
    let m2 = spec_add(m, tags, samples);
    lemma_named_row_null(m.schema, n);
    lemma_add_tags_named(m.schema, proto0, tags);
    assert(named_row(sp.0, sp.1) == tags_named_from(Map::empty(), tags));
    assert(sp.0.take(n)[0] == sp.0[0]);
    assert(sp.0.take(n)[1] == sp.0[1]);
    assert(sp.0[0] == ts_column());
    assert(sp.0[1] == value_column());
    lemma_spec_add_wf(m, tags, samples);
    assert forall|q: int| 0 <= q < named_rows_of(m2).len() implies named_rows_of(m2)[q] == (
    named_rows_of(m) + call_rows_named(tags, samples))[q] by {
        assert(named_rows_of(m2)[q] == named_row(m2.schema, m2.rows[q]));
        if q < m.rows.len() {
            assert(m2.rows[q] == m.rows[q]);
            lemma_named_row_prefix(m.schema, sp.0, m.rows[q]);
            assert(named_rows_of(m)[q] == named_row(m.schema, m.rows[q]));
        } else {
            let j = q - m.rows.len();
            assert(rows_of_samples(sp.1, samples)[j] == sample_row(sp.1, samples[j]));
            assert(m2.rows[q] == sample_row(sp.1, samples[j]));
            let s = samples[j];
            let r1 = sp.1.update(0, RowValueV::TimestampMillis(s.timestamp));
            lemma_named_row_update(sp.0, sp.1, 0, RowValueV::TimestampMillis(s.timestamp));
            lemma_named_row_update(sp.0, r1, 1, RowValueV::Float64Bits(s.value_bits));
            assert(named_row(sp.0, sample_row(sp.1, s)) =~= named_row(sp.0, sp.1).insert(
                sp.0[0].column_name,
                RowValueV::TimestampMillis(s.timestamp),
            ).insert(sp.0[1].column_name, RowValueV::Float64Bits(s.value_bits)));
            assert(named_row(sp.0, sample_row(sp.1, s)) =~= call_named(tags, s));
            assert(call_rows_named(tags, samples)[j] == call_named(tags, s));
        }
    }
    assert(named_rows_of(m2) =~= named_rows_of(m) + call_rows_named(tags, samples));
}

/// The named rows after a run of calls: the rows already there, then each
/// call's rows in order.
proof fn lemma_run_calls_named(m: TableModel, calls: Seq<CallV>)
    requires
        wf_model(m),
    ensures
        named_rows_of(run_calls(m, calls)) =~= named_rows_of(m) + calls_named(calls),
    decreases calls.len(),
{
    if calls.len() == 0 {
        assert(named_rows_of(m) + calls_named(calls) =~= named_rows_of(m));
    } else {
        let m1 = spec_add(m, calls[0].tags, calls[0].samples);
        lemma_spec_add_wf(m, calls[0].tags, calls[0].samples);
        lemma_spec_add_named(m, calls[0].tags, calls[0].samples);
        lemma_run_calls_named(m1, calls.drop_first());
        assert(named_rows_of(run_calls(m, calls)) =~= named_rows_of(m1) + calls_named(
            calls.drop_first(),
        ));
        assert((named_rows_of(m) + call_rows_named(calls[0].tags, calls[0].samples))
            + calls_named(calls.drop_first()) =~= named_rows_of(m) + calls_named(calls));
    }
}

/// Splitting a run of calls splits its named rows.
proof fn lemma_calls_named_append(l1: Seq<CallV>, l2: Seq<CallV>)
    ensures
        calls_named(l1 + l2) =~= calls_named(l1) + calls_named(l2),
    decreases l1.len(),
{
    if l1.len() == 0 {
        assert(l1 + l2 =~= l2);
        assert(calls_named(l1) + calls_named(l2) =~= calls_named(l2));
    } else {
        assert((l1 + l2)[0] == l1[0]);
        assert((l1 + l2).drop_first() =~= l1.drop_first() + l2);
        lemma_calls_named_append(l1.drop_first(), l2);
        assert(calls_named(l1 + l2) =~= (call_rows_named(l1[0].tags, l1[0].samples)
            + calls_named(l1.drop_first())) + calls_named(l2));
    }
}

/// Widening rows with empty cells changes nothing read by name.
proof fn lemma_pad_preserves_named(schema: Seq<ColumnSchemaV>, row: Seq<RowValueV>, k: int)
    requires
        0 <= k,
    ensures
        named_row(schema, row + null_row(k)) == named_row(schema, row),
    decreases k,
{
    if k == 0 {
        assert(row + null_row(0) =~= row);
    } else {
        assert((row + null_row(k)).drop_last() =~= row + null_row(k - 1));
        assert((row + null_row(k))[row.len() + k - 1] == RowValueV::Null);
        lemma_pad_preserves_named(schema, row, k - 1);
    }
}

/// Flushed batches read by name exactly as the accumulated rows do.
pub proof fn lemma_flush_named(m: TableModel)
    ensures
        named_rows(m.schema, padded_rows(m.rows, m.schema.len() as int)) =~= named_rows_of(m),
{
    let n: int = m.schema.len() as int;
    assert forall|q: int| 0 <= q < m.rows.len() implies named_rows(
        m.schema,
        padded_rows(m.rows, n),
    )[q] == named_rows_of(m)[q] by {
        assert(padded_rows(m.rows, n)[q] == pad_row(m.rows[q], n));
        let r = m.rows[q];
        if r.len() >= n {
            assert(pad_row(r, n) == r);
        } else {
            assert(r + Seq::new((n - r.len()) as nat, |i: int| RowValueV::Null) =~= r + null_row(
                n - r.len(),
            ));
            lemma_pad_preserves_named(m.schema, r, n - r.len());
        }
    }
}

/// Law: merge associativity by name. Flushing two builders that saw two
/// call sequences and concatenating their batches' rows reads, by column
/// name, exactly as flushing one builder that saw all the calls in
/// concatenated order — though the tag columns may stand at different
/// positions on the two sides.
pub proof fn lemma_merge_by_name(l1: Seq<CallV>, l2: Seq<CallV>)
    ensures
        ({
            let mc = run_calls(init_model(), l1 + l2);
            let m1 = run_calls(init_model(), l1);
            let m2 = run_calls(init_model(), l2);
            named_rows(mc.schema, padded_rows(mc.rows, mc.schema.len() as int)) =~= named_rows(
                m1.schema,
                padded_rows(m1.rows, m1.schema.len() as int),
            ) + named_rows(m2.schema, padded_rows(m2.rows, m2.schema.len() as int))
        }),
{
    lemma_init_model_wf();
    let mc = run_calls(init_model(), l1 + l2);
    let m1 = run_calls(init_model(), l1);
    let m2 = run_calls(init_model(), l2);
    lemma_run_calls_named(init_model(), l1 + l2);
    lemma_run_calls_named(init_model(), l1);
    lemma_run_calls_named(init_model(), l2);
    lemma_calls_named_append(l1, l2);
    lemma_flush_named(mc);
    lemma_flush_named(m1);
    lemma_flush_named(m2);
    assert(named_rows_of(init_model()) =~= Seq::<Map<Seq<char>, RowValueV>>::empty());
    assert(named_rows_of(mc) =~= calls_named(l1 + l2));
    assert(named_rows_of(m1) =~= calls_named(l1));
    assert(named_rows_of(m2) =~= calls_named(l2));
}


/// Law, extended to whole runs: two builders with the same schema that see
/// the same calls keep the same schema throughout, whatever rows each had
/// accumulated before.
pub proof fn lemma_run_schema_deterministic(m1: TableModel, m2: TableModel, calls: Seq<CallV>)
    requires
        m1.schema == m2.schema,
    ensures
        run_calls(m1, calls).schema == run_calls(m2, calls).schema,
    decreases calls.len(),
{
    if calls.len() > 0 {
        let n1 = spec_add(m1, calls[0].tags, calls[0].samples);
        let n2 = spec_add(m2, calls[0].tags, calls[0].samples);
        lemma_column_order_deterministic(m1, m2, calls[0].tags, calls[0].samples, calls[0].samples);
        lemma_run_schema_deterministic(n1, n2, calls.drop_first());
    }
}

} // verus!
