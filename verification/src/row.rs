//! Row batch building blocks: cell values, column schemas, rows, and the
//! label/sample groups handed in by the wire decoder.

use vstd::prelude::*;

verus! {

/// The mathematical content of a [`RowValue`].
pub enum RowValueV {
    Null,
    TimestampMillis(i64),
    Float64Bits(u64),
    Str(Seq<char>),
}

/// One cell of a row: absent, a millisecond timestamp, an IEEE-754 double
/// carried as its bit pattern, or a string.
#[derive(Debug, Clone, PartialEq)]
pub enum RowValue {
    Null,
    TimestampMillis(i64),
    Float64Bits(u64),
    Str(String),
}

impl View for RowValue {
    type V = RowValueV;

    open spec fn view(&self) -> RowValueV {
        match self {
            RowValue::Null => RowValueV::Null,
            RowValue::TimestampMillis(t) => RowValueV::TimestampMillis(*t),
            RowValue::Float64Bits(b) => RowValueV::Float64Bits(*b),
            RowValue::Str(s) => RowValueV::Str(s@),
        }
    }
}

impl DeepView for RowValue {
    type V = RowValueV;

    open spec fn deep_view(&self) -> RowValueV {
        self.view()
    }
}

impl RowValue {
    /// An equal cell, built without sharing.
    pub fn duplicate(&self) -> (r: Self)
        ensures
            r@ == self@,
    {
        match self {
            RowValue::Null => RowValue::Null,
            RowValue::TimestampMillis(t) => RowValue::TimestampMillis(*t),
            RowValue::Float64Bits(b) => RowValue::Float64Bits(*b),
            RowValue::Str(s) => RowValue::Str(s.clone()),
        }
    }
}

/// The column's value type.
#[derive(Debug, Clone, Copy, PartialEq, Eq, Structural)]
pub enum ColumnDataType {
    TimestampMillisecond,
    Float64,
    Utf8,
}

/// The column's role: the fixed timestamp, the measured field, or a
/// dynamically discovered tag dimension.
#[derive(Debug, Clone, Copy, PartialEq, Eq, Structural)]
pub enum SemanticType {
    Timestamp,
    Field,
    Tag,
}

/// The mathematical content of a [`ColumnSchema`].
pub struct ColumnSchemaV {
    pub column_name: Seq<char>,
    pub datatype: ColumnDataType,
    pub semantic_type: SemanticType,
}

/// One column of a table: a name unique within the table, a value type, and
/// a semantic role.
#[derive(Debug, Clone, PartialEq)]
pub struct ColumnSchema {
    pub column_name: String,
    pub datatype: ColumnDataType,
    pub semantic_type: SemanticType,
}

impl View for ColumnSchema {
    type V = ColumnSchemaV;

    open spec fn view(&self) -> ColumnSchemaV {
        ColumnSchemaV {
            column_name: self.column_name@,
            datatype: self.datatype,
            semantic_type: self.semantic_type,
        }
    }
}

impl DeepView for ColumnSchema {
    type V = ColumnSchemaV;

    open spec fn deep_view(&self) -> ColumnSchemaV {
        self.view()
    }
}

/// One row: cell values positionally aligned to a table's schema.
#[derive(Debug, Clone, PartialEq)]
pub struct Row {
    pub values: Vec<RowValue>,
}

impl View for Row {
    type V = Seq<RowValueV>;

    open spec fn view(&self) -> Seq<RowValueV> {
        self.values.deep_view()
    }
}

impl DeepView for Row {
    type V = Seq<RowValueV>;

    open spec fn deep_view(&self) -> Seq<RowValueV> {
        self.view()
    }
}

/// A finished batch: a column schema and rows aligned to it.
#[derive(Debug, Clone, PartialEq)]
pub struct Rows {
    pub schema: Vec<ColumnSchema>,
    pub rows: Vec<Row>,
}

/// The mathematical content of a [`Rows`] batch.
pub struct RowsV {
    pub schema: Seq<ColumnSchemaV>,
    pub rows: Seq<Seq<RowValueV>>,
}

impl View for Rows {
    type V = RowsV;

    open spec fn view(&self) -> RowsV {
        RowsV { schema: self.schema.deep_view(), rows: self.rows.deep_view() }
    }
}

/// One table's batch, addressed by table name.
#[derive(Debug, Clone, PartialEq)]
pub struct RowInsertRequest {
    pub table_name: String,
    pub rows: Option<Rows>,
}

/// The mathematical content of a [`RowInsertRequest`].
pub struct RowInsertRequestV {
    pub table_name: Seq<char>,
    pub rows: Option<RowsV>,
}

impl View for RowInsertRequest {
    type V = RowInsertRequestV;

    open spec fn view(&self) -> RowInsertRequestV {
        RowInsertRequestV {
            table_name: self.table_name@,
            rows: match self.rows {
                Some(r) => Some(r@),
                None => None,
            },
        }
    }
}

impl DeepView for RowInsertRequest {
    type V = RowInsertRequestV;

    open spec fn deep_view(&self) -> RowInsertRequestV {
        self.view()
    }
}

/// A label as decoded off the wire: name and value as raw bytes.
#[derive(Debug, Clone, PartialEq)]
pub struct PromLabel {
    pub name: Vec<u8>,
    pub value: Vec<u8>,
}

/// The mathematical content of a [`PromLabel`].
pub struct PromLabelV {
    pub name: Seq<u8>,
    pub value: Seq<u8>,
}

impl View for PromLabel {
    type V = PromLabelV;

    open spec fn view(&self) -> PromLabelV {
        PromLabelV { name: self.name@, value: self.value@ }
    }
}

impl DeepView for PromLabel {
    type V = PromLabelV;

    open spec fn deep_view(&self) -> PromLabelV {
        self.view()
    }
}

impl PromLabel {
    pub fn new(name: Vec<u8>, value: Vec<u8>) -> (r: Self)
        ensures
            r@.name == name@,
            r@.value == value@,
    {
        PromLabel { name, value }
    }
}

/// One sample: a millisecond timestamp and the measured value, carried as
/// the bit pattern of an IEEE-754 double.
#[derive(Debug, Clone, Copy, PartialEq, Eq, Structural)]
pub struct Sample {
    pub timestamp: i64,
    pub value_bits: u64,
}

} // verus!
