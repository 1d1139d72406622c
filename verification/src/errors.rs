//! Error values shared by the binary and text codecs.

use vstd::prelude::*;

verus! {

/// A deviation from the text grammar, with what was found instead.
#[derive(Debug, Clone, PartialEq, Eq)]
pub enum TextViolation {
    /// The first significant line is not the pattern header.
    Header { found: String },
    /// The metadata line does not scan as active steps and triplet flag.
    Metadata { found: String },
    /// A field line is missing: the next significant line does not start
    /// with the expected label.
    MissingField { label: String, found: String },
    /// A field line does not hold exactly 16 comma-separated tokens.
    TokenCount { label: String, count: usize },
    /// A token is not one of its field's symbols; `index` is the
    /// 0-based step position.
    UnknownToken { label: String, index: usize, found: String },
}

/// Why a codec call failed.
#[derive(Debug, Clone, PartialEq, Eq)]
pub enum CodecError {
    /// The binary payload is shorter than the fixed wire layout.
    SizeContractViolation { expected: usize, found: usize },
    /// A decoded field of the given step falls outside its range.
    MalformedBinaryField { step: usize, raw: u8, upper_c: bool },
    /// The text input deviates from the grammar.
    TextGrammarViolation(TextViolation),
}

/// The mathematical shape of a codec error.
#[verifier::ext_equal]
pub enum ErrorModel {
    Size { expected: int, found: int },
    Malformed { step: int, raw: u8, upper_c: bool },
    Header { found: Seq<char> },
    Metadata { found: Seq<char> },
    MissingField { label: Seq<char>, found: Seq<char> },
    TokenCount { label: Seq<char>, count: int },
    UnknownToken { label: Seq<char>, index: int, found: Seq<char> },
}

impl View for CodecError {
    type V = ErrorModel;

    open spec fn view(&self) -> ErrorModel {
        match self {
            CodecError::SizeContractViolation { expected, found } => ErrorModel::Size {
                expected: *expected as int,
                found: *found as int,
            },
            CodecError::MalformedBinaryField { step, raw, upper_c } => ErrorModel::Malformed {
                step: *step as int,
                raw: *raw,
                upper_c: *upper_c,
            },
            CodecError::TextGrammarViolation(v) => match v {
                TextViolation::Header { found } => ErrorModel::Header { found: found@ },
                TextViolation::Metadata { found } => ErrorModel::Metadata { found: found@ },
                TextViolation::MissingField { label, found } => ErrorModel::MissingField {
                    label: label@,
                    found: found@,
                },
                TextViolation::TokenCount { label, count } => ErrorModel::TokenCount {
                    label: label@,
                    count: *count as int,
                },
                TextViolation::UnknownToken { label, index, found } => ErrorModel::UnknownToken {
                    label: label@,
                    index: *index as int,
                    found: found@,
                },
            },
        }
    }
}

/// A codec result, with both sides taken to their mathematical shape.
pub open spec fn result_model<T: View>(r: Result<T, CodecError>) -> Result<T::V, ErrorModel> {
    match r {
        Ok(v) => Ok(v@),
        Err(e) => Err(e@),
    }
}

} // verus!
