//! Diagnostics reported by the expansion engine.
//!
//! All violations are recoverable: the engine appends a diagnostic to a
//! caller-owned buffer and keeps parsing. A diagnostic carries a message and,
//! for the violations named by the W3C JSON-LD algorithms, a stable code.

use vstd::prelude::*;

verus! {

/// Stable identifiers for the W3C-defined JSON-LD syntax violations.
#[derive(Debug, Clone, Copy, PartialEq, Eq, Structural)]
pub enum JsonLdErrorCode {
    InvalidLocalContext,
    InvalidContextNullification,
    InvalidContextEntry,
    InvalidVersionValue,
    ProcessingModeConflict,
    InvalidBaseIri,
    InvalidVocabMapping,
    InvalidTypeValue,
    InvalidTypedValue,
    InvalidValueObject,
    InvalidValueObjectValue,
    InvalidLanguageTaggedString,
    InvalidLanguageTaggedValue,
    CollidingKeywords,
}

/// A non-fatal syntax diagnostic: a message and an optional error code.
#[derive(Debug, Clone, PartialEq, Eq)]
pub struct JsonLdSyntaxError {
    pub message: String,
    pub code: Option<JsonLdErrorCode>,
}

/// Mathematical model of a diagnostic: the message characters and the code.
pub struct JsonLdSyntaxErrorV {
    pub message: Seq<char>,
    pub code: Option<JsonLdErrorCode>,
}

impl View for JsonLdSyntaxError {
    type V = JsonLdSyntaxErrorV;

    open spec fn view(&self) -> JsonLdSyntaxErrorV {
        JsonLdSyntaxErrorV { message: self.message@, code: self.code }
    }
}

impl JsonLdSyntaxError {
    /// A diagnostic that carries a message alone.
    pub fn msg(message: &str) -> (r: Self)
        ensures
            r@.message == message@,
            r@.code is None,
    {
        JsonLdSyntaxError { message: message.to_owned(), code: None }
    }

    /// A diagnostic that carries a message and a W3C error code.
    pub fn msg_and_code(message: &str, code: JsonLdErrorCode) -> (r: Self)
        ensures
            r@.message == message@,
            r@.code == Some(code),
    {
        JsonLdSyntaxError { message: message.to_owned(), code: Some(code) }
    }
}

} // verus!
