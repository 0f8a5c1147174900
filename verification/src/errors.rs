//! Error and warning types for header decoding.

use vstd::prelude::*;

verus! {

/// The ways a header byte buffer, a header line, or a field token can be
/// malformed.
#[derive(Clone, Copy, Debug, PartialEq, Eq, Structural)]
pub enum FormatError {
    /// No newline followed by a non-`$` byte exists in the buffer, so the
    /// ASCII-to-binary transition could not be found.
    NoHeaderTerminator,
    /// The header region contains a byte outside the US-ASCII range.
    InvalidEncoding,
    /// A header line lacks the `*` separator before its checksum.
    MissingChecksumDelimiter,
    /// The text after `*` is not exactly two hexadecimal digits.
    InvalidChecksumDigits,
    /// The XOR of the payload bytes does not equal the declared checksum.
    ChecksumMismatch,
    /// A numeric field token failed to parse as a decimal integer in range.
    UnparseableNumericToken,
    /// A header line is shorter than two bytes and so has no tag character.
    EmptyTagLine,
    /// An alarms (`A`) line did not carry exactly eight field tokens.
    AlarmTokenCountMismatch,
}

/// A non-fatal, per-line finding reported alongside a decoded record: the
/// index of the line in the header region, its tag character if it had one,
/// and what was wrong with it.
#[derive(Clone, Copy, Debug, PartialEq, Eq)]
pub struct LineWarning {
    pub line_index: usize,
    pub tag: Option<u8>,
    pub kind: FormatError,
}

/// A fatal decoding failure: the kind of fault, and the index of the header
/// line that exhibited it where one exists (boundary-scan failures have no
/// line to point at).
#[derive(Clone, Copy, Debug, PartialEq, Eq)]
pub struct DecodeError {
    pub line_index: Option<usize>,
    pub kind: FormatError,
}

} // verus!
