//! Schema-on-write ingestion core: a processor chain that reshapes
//! semi-structured records, and a schema-inducing row builder that turns
//! labelled samples into column-aligned row batches.

pub mod decode;
pub mod error;
pub mod field;
pub mod processor;
pub mod router;
pub mod row;
pub mod select;
pub mod table;
pub mod value;
