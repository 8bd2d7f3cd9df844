//! Errors of the encoders.
use vstd::prelude::*;

verus! {

/// The constraint of the wire format that an input breaks.
#[derive(Debug, Clone, Copy, PartialEq, Eq, Structural)]
pub enum EncodingError {
    /// A label of the name is empty: consecutive dots, a leading or trailing dot, or no text.
    EmptyLabel,
    /// A label of the name is longer than 63 bytes.
    LabelTooLong,
    /// The encoded name, length bytes and root label included, is longer than 255 bytes.
    NameTooLong,
    /// The header's question count differs from the number of questions supplied.
    QuestionCountMismatch,
}

} // verus!
