//! S-expression parsing and encoding errors, without input bytes.
use vstd::prelude::*;

use vstd::string::StringExecFns;

use crate::protocol::wire::{decimal, DIGIT_ZERO};

verus! {

/// The category of a canonical S-expression parsing failure.
#[derive(Clone, Copy, Debug, Eq, PartialEq, Structural)]
#[non_exhaustive]
pub enum ParseErrorKind {
    /// The configured limits are inconsistent or unsupported.
    InvalidLimits,
    /// The entire input slice exceeds its configured byte limit.
    InputLimit,
    /// An atom declares more bytes than permitted.
    AtomLimit,
    /// The expression contains too many atoms and lists.
    NodeLimit,
    /// A list exceeds the configured nesting limit.
    DepthLimit,
    /// An atom length cannot be represented as a `usize`.
    LengthOverflow,
    /// An atom length is not canonical, for example because of a leading zero.
    InvalidLength,
    /// A decimal atom length is not followed by a colon.
    ExpectedColon,
    /// A byte cannot begin an expression at this position.
    UnexpectedToken,
    /// The input ends before an atom or list is complete.
    UnexpectedEof,
    /// A complete expression is followed by additional bytes.
    TrailingData,
    /// Storage for the list structure could not be reserved.
    AllocationFailed,
}

impl ParseErrorKind {
    /// The fixed description of this category.
    pub open spec fn text(self) -> Seq<char> {
        match self {
            ParseErrorKind::InvalidLimits => "invalid S-expression limits"@,
            ParseErrorKind::InputLimit => "input byte limit exceeded"@,
            ParseErrorKind::AtomLimit => "atom byte limit exceeded"@,
            ParseErrorKind::NodeLimit => "expression node limit exceeded"@,
            ParseErrorKind::DepthLimit => "list nesting limit exceeded"@,
            ParseErrorKind::LengthOverflow => "atom length overflow"@,
            ParseErrorKind::InvalidLength => "non-canonical atom length"@,
            ParseErrorKind::ExpectedColon => "expected colon after atom length"@,
            ParseErrorKind::UnexpectedToken => "unexpected expression byte"@,
            ParseErrorKind::UnexpectedEof => "incomplete S-expression"@,
            ParseErrorKind::TrailingData => "data after complete S-expression"@,
            ParseErrorKind::AllocationFailed => "could not reserve expression storage"@,
        }
    }

    fn description(&self) -> (s: &'static str)
        ensures
            s@ == self.text(),
    {
        match self {
            ParseErrorKind::InvalidLimits => "invalid S-expression limits",
            ParseErrorKind::InputLimit => "input byte limit exceeded",
            ParseErrorKind::AtomLimit => "atom byte limit exceeded",
            ParseErrorKind::NodeLimit => "expression node limit exceeded",
            ParseErrorKind::DepthLimit => "list nesting limit exceeded",
            ParseErrorKind::LengthOverflow => "atom length overflow",
            ParseErrorKind::InvalidLength => "non-canonical atom length",
            ParseErrorKind::ExpectedColon => "expected colon after atom length",
            ParseErrorKind::UnexpectedToken => "unexpected expression byte",
            ParseErrorKind::UnexpectedEof => "incomplete S-expression",
            ParseErrorKind::TrailingData => "data after complete S-expression",
            ParseErrorKind::AllocationFailed => "could not reserve expression storage",
        }
    }
}

/// A parsing failure with a byte offset and no copy of the input.
///
/// Configuration errors have no byte offset. Input offsets are zero-based;
/// an unexpected end of input points one byte past the last available byte.
#[derive(Clone, Copy, Debug, Eq, PartialEq, Structural)]
pub struct ParseError {
    kind: ParseErrorKind,
    offset: Option<usize>,
}

/// The error of the given kind at the given offset.
pub closed spec fn error_at(kind: ParseErrorKind, offset: int) -> ParseError {
    ParseError { kind, offset: Some(offset as usize) }
}

/// An error built at an offset reports that kind and that offset.
pub broadcast proof fn lemma_error_at(kind: ParseErrorKind, offset: int)
    ensures
        #[trigger] error_at(kind, offset).spec_kind() == kind,
        error_at(kind, offset).spec_offset() == Some(offset as usize),
{
}

impl ParseError {
    /// An error of `kind` at byte `offset`.
    pub(crate) fn at(kind: ParseErrorKind, offset: usize) -> (e: Self)
        ensures
            e == error_at(kind, offset as int),
    {
        Self { kind, offset: Some(offset) }
    }

    /// The error for inconsistent limits, which has no offset.
    pub(crate) fn invalid_limits() -> (e: Self)
        ensures
            e.spec_kind() == ParseErrorKind::InvalidLimits,
            e.spec_offset() == None::<usize>,
    {
        Self { kind: ParseErrorKind::InvalidLimits, offset: None }
    }

    /// The category of this error.
    pub closed spec fn spec_kind(self) -> ParseErrorKind {
        self.kind
    }

    /// The offset of this error.
    pub closed spec fn spec_offset(self) -> Option<usize> {
        self.offset
    }

    /// Returns the category without exposing any input bytes.
    pub fn kind(self) -> (k: ParseErrorKind)
        ensures
            k == self.spec_kind(),
    {
        self.kind
    }

    /// Returns the zero-based byte offset, or `None` for invalid configuration.
    pub fn offset(self) -> (o: Option<usize>)
        ensures
            o == self.spec_offset(),
    {
        self.offset
    }

    /// The text this error displays: its description, then ` at byte ` and
    /// the decimal offset when there is one.
    pub open spec fn text(self) -> Seq<char> {
        match self.spec_offset() {
            None => self.spec_kind().text(),
            Some(offset) => self.spec_kind().text() + " at byte "@ + decimal(offset as nat).map_values(
                |b: u8| b as char,
            ),
        }
    }

    /// Returns the text this error displays.
    pub fn to_string(&self) -> (s: String)
        ensures
            s@ == self.text(),
    {
        let mut text = self.kind.description().to_string();
        match self.offset {
            None => {},
            Some(offset) => {
                text.append(" at byte ");
                let digits = decimal_text(offset);
                text.append(digits.as_str());
            },
        }
        text
    }
}

/// The text of one decimal digit.
fn digit_str(d: usize) -> (s: &'static str)
    requires
        d < 10,
    ensures
        s@ == seq![(d + DIGIT_ZERO) as u8 as char],
{
    proof {
        reveal_strlit("0");
        reveal_strlit("1");
        reveal_strlit("2");
        reveal_strlit("3");
        reveal_strlit("4");
        reveal_strlit("5");
        reveal_strlit("6");
        reveal_strlit("7");
        reveal_strlit("8");
        reveal_strlit("9");
    }
    match d {
        0 => "0",
        1 => "1",
        2 => "2",
        3 => "3",
        4 => "4",
        5 => "5",
        6 => "6",
        7 => "7",
        8 => "8",
        _ => "9",
    }
}

/// The decimal representation of `n` as text.
pub(crate) fn decimal_text(n: usize) -> (s: String)
    ensures
        s@ == decimal(n as nat).map_values(|b: u8| b as char),
    decreases n,
{
    if n < 10 {
        let s = String::from_str(digit_str(n));
        assert(decimal(n as nat).map_values(|b: u8| b as char) =~= s@);
        s
    } else {
        let mut s = decimal_text(n / 10);
        s.append(digit_str(n % 10));
        assert(decimal(n as nat).map_values(|b: u8| b as char) =~= decimal((n / 10) as nat).map_values(
            |b: u8| b as char,
        ).push(((n % 10) + DIGIT_ZERO) as u8 as char));
        s
    }
}

/// A failure to encode an expression without exceeding the default limits.
///
/// Errors contain no atom contents. Encoding errors leave existing output
/// bytes and length unchanged.
#[derive(Clone, Copy, Debug, Eq, PartialEq, Structural)]
#[non_exhaustive]
pub enum EncodeError {
    /// The final output buffer would exceed the byte limit.
    SizeLimit,
    /// An atom exceeds the payload byte limit.
    AtomLimit,
    /// The expression contains too many atoms and lists.
    NodeLimit,
    /// The expression contains too many nested lists.
    DepthLimit,
    /// A size calculation overflowed.
    LengthOverflow,
    /// Traversal or output storage could not be reserved.
    AllocationFailed,
}

impl EncodeError {
    /// The fixed description of this error.
    pub open spec fn text(self) -> Seq<char> {
        match self {
            EncodeError::SizeLimit => "canonical output byte limit exceeded"@,
            EncodeError::AtomLimit => "atom byte limit exceeded"@,
            EncodeError::NodeLimit => "expression node limit exceeded"@,
            EncodeError::DepthLimit => "list nesting limit exceeded"@,
            EncodeError::LengthOverflow => "canonical output length overflow"@,
            EncodeError::AllocationFailed => "could not reserve encoding storage"@,
        }
    }

    /// Returns the text this error displays.
    pub fn to_string(&self) -> (s: String)
        ensures
            s@ == self.text(),
    {
        let text = match self {
            EncodeError::SizeLimit => "canonical output byte limit exceeded",
            EncodeError::AtomLimit => "atom byte limit exceeded",
            EncodeError::NodeLimit => "expression node limit exceeded",
            EncodeError::DepthLimit => "list nesting limit exceeded",
            EncodeError::LengthOverflow => "canonical output length overflow",
            EncodeError::AllocationFailed => "could not reserve encoding storage",
        };
        String::from_str(text)
    }
}

} // verus!
