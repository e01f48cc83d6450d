//! Byte-to-string decoding of label names and values, under a validation
//! policy.

use vstd::prelude::*;
use vstd::utf8::{decode_utf8, valid_utf8};

verus! {

/// How label bytes are turned into strings: `Strict` refuses anything that
/// is not UTF-8; `Lossy` substitutes the replacement character.
#[derive(Debug, Clone, Copy, PartialEq, Eq, Structural)]
pub enum PromValidationMode {
    Strict,
    Lossy,
}

/// A failure to decode label bytes.
#[derive(Debug)]
pub struct DecodeError {
    description: String,
}

impl DecodeError {
    /// What went wrong, as text.
    pub closed spec fn description_view(&self) -> Seq<char> {
        self.description@
    }

    pub fn new(description: &str) -> (r: Self)
        ensures
            r.description_view() == description@,
    {
        DecodeError { description: description.to_owned() }
    }

    /// What went wrong, as text.
    pub fn description(&self) -> (r: &str)
        ensures
            r@ == self.description_view(),
    {
        self.description.as_str()
    }
}

impl PartialEq for DecodeError {
    fn eq(&self, other: &Self) -> (r: bool) {
        crate::value::str_eq(self.description.as_str(), other.description.as_str())
    }
}

impl vstd::std_specs::cmp::PartialEqSpecImpl for DecodeError {
    open spec fn obeys_eq_spec() -> bool {
        true
    }

    open spec fn eq_spec(&self, other: &Self) -> bool {
        self.description_view() == other.description_view()
    }
}

/// What `String::from_utf8_lossy` reads off the given bytes: a pure
/// function of the bytes alone.
pub uninterp spec fn lossy_decoded(bytes: Seq<u8>) -> Seq<char>;

/// Decodes bytes that are known only probably to be UTF-8.
///
/// Relies on `String::from_utf8_lossy`: the result is a function of the
/// bytes alone, and equals the UTF-8 decoding whenever the bytes are valid
/// UTF-8.
#[verifier::external_body]
fn utf8_lossy(bytes: &[u8]) -> (r: String)
    ensures
        r@ == lossy_decoded(bytes@),
        valid_utf8(bytes@) ==> r@ == decode_utf8(bytes@),
{
    String::from_utf8_lossy(bytes).into_owned()
}

/// Decodes bytes that must be UTF-8.
///
/// Relies on `core::str::from_utf8`: it returns `Ok` exactly when the bytes
/// are a valid UTF-8 encoding, and then the borrowed string reads those
/// bytes.
#[verifier::external_body]
fn utf8_strict(bytes: &[u8]) -> (r: Option<&str>)
    ensures
        r is Some <==> valid_utf8(bytes@),
        r matches Some(s) ==> s@ == decode_utf8(bytes@),
{
    core::str::from_utf8(bytes).ok()
}

/// True when decoding under `mode` succeeds on `bytes`.
pub open spec fn spec_decode_ok(mode: PromValidationMode, bytes: Seq<u8>) -> bool {
    match mode {
        PromValidationMode::Strict => valid_utf8(bytes),
        PromValidationMode::Lossy => true,
    }
}

/// What decoding under `mode` reads off `bytes`, when it succeeds.
pub open spec fn spec_decoded(mode: PromValidationMode, bytes: Seq<u8>) -> Seq<char> {
    match mode {
        PromValidationMode::Strict => decode_utf8(bytes),
        PromValidationMode::Lossy => lossy_decoded(bytes),
    }
}

impl PromValidationMode {
    /// Turns label bytes into a string under this policy.
    pub fn decode_string(&self, bytes: &[u8]) -> (r: Result<String, DecodeError>)
        ensures
            r is Ok <==> spec_decode_ok(*self, bytes@),
            r matches Ok(s) ==> s@ == spec_decoded(*self, bytes@),
            r matches Err(e) ==> e.description_view() == "invalid utf-8"@,
    {
        match self {
            PromValidationMode::Strict => match utf8_strict(bytes) {
                Some(s) => Ok(s.to_owned()),
                None => Err(DecodeError::new("invalid utf-8")),
            },
            PromValidationMode::Lossy => Ok(utf8_lossy(bytes)),
        }
    }
}

} // verus!
