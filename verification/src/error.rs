//! The ways in which the text of a prefix can be rejected.

use vstd::prelude::*;

verus! {

/// Why a text is not a prefix.
#[derive(Clone, Copy, Debug, PartialEq, Eq, Structural)]
pub enum ParseError {
    /// The text holds no `/`.
    MissingSeparator,
    /// What follows the first `/` is not a decimal numeral.
    MalformedLength,
    /// The length is a decimal numeral, but its value is above 128.
    LengthOutOfRange,
    /// The address holds more than one `::`.
    MultipleZeroCompression,
    /// The address holds more than eight groups.
    TooManySegments,
    /// A group of the address is not made of one to four hexadecimal digits.
    MalformedSegment,
}

impl ParseError {
    /// The words of `message`, for each reason.
    pub open spec fn message_text(self) -> Seq<char> {
        match self {
            ParseError::MissingSeparator => "no '/' in the prefix"@,
            ParseError::MalformedLength => "the prefix length is not a decimal number"@,
            ParseError::LengthOutOfRange => "the prefix length is above 128"@,
            ParseError::MultipleZeroCompression => "more than one '::' in the address"@,
            ParseError::TooManySegments => "more than eight groups in the address"@,
            ParseError::MalformedSegment => "a group of the address is not 1 to 4 hexadecimal digits"@,
        }
    }

    /// The reason in words, for a reader.
    pub fn message(&self) -> (r: &'static str)
        ensures
            r@ == self.message_text(),
    {
        match self {
            ParseError::MissingSeparator => "no '/' in the prefix",
            ParseError::MalformedLength => "the prefix length is not a decimal number",
            ParseError::LengthOutOfRange => "the prefix length is above 128",
            ParseError::MultipleZeroCompression => "more than one '::' in the address",
            ParseError::TooManySegments => "more than eight groups in the address",
            ParseError::MalformedSegment => "a group of the address is not 1 to 4 hexadecimal digits",
        }
    }
}

} // verus!
