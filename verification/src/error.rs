//! Errors of the processor chain and its configuration.

use vstd::prelude::*;

verus! {

/// What can go wrong while building or running a processor chain.
///
/// Configuration errors (`KeyMustBeString`, `ValueMustBeString`, `EmptyField`,
/// `ProcessorUnsupportedValue`) are fatal when a chain is built; a value-type
/// error (`ValueMustBeMap`) is fatal for the one record that caused it.
#[derive(Debug, PartialEq)]
pub enum Error {
    /// A stage was handed a record that is not an object map.
    ValueMustBeMap,
    /// A configuration mapping had a key that is not a string.
    KeyMustBeString,
    /// A configuration value that must be a string (or a list of strings)
    /// was something else.
    ValueMustBeString,
    /// A field specification had an empty input name.
    EmptyField,
    /// A stage configuration held a value outside the recognized set.
    ProcessorUnsupportedValue { processor: String, val: String },
}

} // verus!
