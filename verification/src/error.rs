//! The errors that reading a project document can end in.

use vstd::prelude::*;

verus! {

/// What the grammar was looking for at the place where it gave up.
#[derive(Clone, Copy, Debug, PartialEq, Eq, Structural)]
pub enum Expected {
    /// The `{` that opens an object.
    OpenBrace,
    /// A field key.
    Key,
    /// The `=` between a key and its value.
    Equals,
    /// A value.
    Value,
    /// The `;` that ends a field.
    Semicolon,
    /// The `(` that opens an array.
    OpenParen,
    /// The `"` that closes a quoted string.
    ClosingQuote,
    /// The end of the text.
    EndOfInput,
    /// A token of the rule that was asked for.
    Token,
    /// A parse tree node with the children that its rule calls for.
    Children,
}

/// The shape of a generic value.
#[derive(Clone, Copy, Debug, PartialEq, Eq, Structural)]
pub enum ValueKind {
    String,
    Object,
    Array,
    Number,
    Bool,
    Kind,
}

/// Why a text could not be read, or a record could not be turned into an object.
#[derive(Debug, PartialEq, Eq)]
pub enum PBXError {
    /// The text does not follow the grammar. `position` counts characters from
    /// the start of the text; `found` is the character there, or empty at the
    /// end of the text.
    ParseError { position: usize, expected: Expected, found: String },
    /// A required field is absent from a record.
    MissingField { key: String },
    /// A field holds a value of another shape than the one asked for.
    TypeMismatch { key: String, expected_kind: ValueKind, actual_kind: ValueKind },
    /// A boolean token that is neither `YES` nor `NO`.
    InvalidBoolLiteral { text: String },
    /// A numeric token without a decimal point that is no integer of 64 bits.
    InvalidNumberLiteral { text: String },
}

/// The mathematical content of a `PBXError`.
pub enum PBXErrorView {
    ParseError { position: nat, expected: Expected, found: Seq<char> },
    MissingField { key: Seq<char> },
    TypeMismatch { key: Seq<char>, expected_kind: ValueKind, actual_kind: ValueKind },
    InvalidBoolLiteral { text: Seq<char> },
    InvalidNumberLiteral { text: Seq<char> },
}

impl View for PBXError {
    type V = PBXErrorView;

    open spec fn view(&self) -> PBXErrorView {
        match self {
            PBXError::ParseError { position, expected, found } => PBXErrorView::ParseError {
                position: *position as nat,
                expected: *expected,
                found: found@,
            },
            PBXError::MissingField { key } => PBXErrorView::MissingField { key: key@ },
            PBXError::TypeMismatch { key, expected_kind, actual_kind } => PBXErrorView::TypeMismatch {
                key: key@,
                expected_kind: *expected_kind,
                actual_kind: *actual_kind,
            },
            PBXError::InvalidBoolLiteral { text } => PBXErrorView::InvalidBoolLiteral { text: text@ },
            PBXError::InvalidNumberLiteral { text } => PBXErrorView::InvalidNumberLiteral {
                text: text@,
            },
        }
    }
}

impl PBXErrorView {
    /// Whether the error names the field of a record that it is about.
    pub open spec fn names_a_field(self) -> bool {
        self is MissingField || self is TypeMismatch
    }
}

/// The mathematical content of a result whose error is a `PBXError`.
pub open spec fn view_of_result<T: View>(r: Result<T, PBXError>) -> Result<T::V, PBXErrorView> {
    match r {
        Ok(v) => Ok(v@),
        Err(e) => Err(e@),
    }
}

} // verus!
