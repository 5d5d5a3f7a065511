//! Command validation and parsing.
use vstd::prelude::*;
use vstd::string::StringSliceAdditionalSpecFns;

use super::error::ProtocolError;
use super::text::{all_ascii, lemma_ascii_is_utf8, utf8_text};
use super::wire::{CR, HASH, LF, NUL, PERCENT, SPACE};

verus! {

/// A byte that may appear inside a line: not NUL, CR or LF.
pub open spec fn line_byte(b: u8) -> bool {
    b != NUL && b != CR && b != LF
}

/// A line free of NUL, CR and LF.
pub open spec fn valid_line(s: Seq<u8>) -> bool {
    forall|i: int| 0 <= i < s.len() ==> #[trigger] line_byte(s[i])
}

/// A printable, non-space ASCII byte other than `%`.
pub open spec fn token_byte(b: u8) -> bool {
    0x21 <= b <= 0x7e && b != PERCENT
}

/// A nonempty token of token bytes that does not start with `#`.
pub open spec fn valid_token(s: Seq<u8>) -> bool {
    &&& s.len() > 0
    &&& s[0] != HASH
    &&& forall|i: int| 0 <= i < s.len() ==> #[trigger] token_byte(s[i])
}

/// The index of the first space, or the length when there is none.
pub open spec fn field_end(s: Seq<u8>) -> int
    decreases s.len(),
{
    if s.len() == 0 {
        0
    } else if s[0] == SPACE {
        0
    } else {
        1 + field_end(s.skip(1))
    }
}

/// The bytes before the first space.
pub open spec fn first_field(s: Seq<u8>) -> Seq<u8> {
    s.take(field_end(s))
}

/// The bytes after the first space; empty when there is no space.
pub open spec fn after_field(s: Seq<u8>) -> Seq<u8> {
    if field_end(s) < s.len() {
        s.skip(field_end(s) + 1)
    } else {
        Seq::empty()
    }
}

/// `field_end` is the position of the first space, or the length.
pub proof fn lemma_field_end(s: Seq<u8>, i: int)
    requires
        0 <= i <= s.len(),
        forall|j: int| 0 <= j < i ==> s[j] != SPACE,
        i == s.len() || s[i] == SPACE,
    ensures
        field_end(s) == i,
    decreases i,
{
    if i > 0 {
        lemma_field_end(s.skip(1), i - 1);
    }
}

/// `field_end` lies within the sequence and no space precedes it.
pub proof fn lemma_field_end_bounds(s: Seq<u8>)
    ensures
        0 <= field_end(s) <= s.len(),
        forall|j: int| 0 <= j < field_end(s) ==> s[j] != SPACE,
        field_end(s) < s.len() ==> s[field_end(s)] == SPACE,
    decreases s.len(),
{
    if s.len() > 0 && s[0] != SPACE {
        lemma_field_end_bounds(s.skip(1));
        assert forall|j: int| 0 <= j < field_end(s) implies s[j] != SPACE by {
            if j > 0 {
                assert(s[j] == s.skip(1)[j - 1]);
            }
        }
    }
}

/// Token bytes are ASCII.
pub proof fn lemma_token_ascii(s: Seq<u8>)
    requires
        valid_token(s),
    ensures
        all_ascii(s),
{
    assert forall|i: int| 0 <= i < s.len() implies #[trigger] s[i] < 0x80 by {
        assert(token_byte(s[i]));
    }
}

/// Checks that a line holds no NUL, CR or LF.
pub(crate) fn validate_line(line: &[u8]) -> (r: Result<(), ProtocolError>)
    ensures
        r is Ok <==> valid_line(line@),
        r is Err ==> r == Err::<(), ProtocolError>(ProtocolError::InvalidLine),
{
    let mut i: usize = 0;
    while i < line.len()
        invariant
            i <= line@.len(),
            forall|j: int| 0 <= j < i ==> #[trigger] line_byte(line@[j]),
        decreases line@.len() - i,
    {
        let byte = line[i];
        if byte == NUL || byte == CR || byte == LF {
            assert(!line_byte(line@[i as int]));
            return Err(ProtocolError::InvalidLine);
        }
        i += 1;
    }
    Ok(())
}

/// Checks that bytes form a valid command name or keyword token.
pub(crate) fn validate_token(token: &[u8]) -> (r: Result<(), ProtocolError>)
    ensures
        r is Ok <==> valid_token(token@),
        r is Err ==> r == Err::<(), ProtocolError>(ProtocolError::InvalidToken),
{
    if token.len() == 0 || token[0] == HASH {
        return Err(ProtocolError::InvalidToken);
    }
    let mut i: usize = 0;
    while i < token.len()
        invariant
            i <= token@.len(),
            forall|j: int| 0 <= j < i ==> #[trigger] token_byte(token@[j]),
        decreases token@.len() - i,
    {
        let byte = token[i];
        if !(0x21 <= byte && byte <= 0x7e && byte != PERCENT) {
            assert(!token_byte(token@[i as int]));
            return Err(ProtocolError::InvalidToken);
        }
        i += 1;
    }
    Ok(())
}

/// Splits at the first space, which belongs to neither part.
pub(crate) fn split_field<'a>(bytes: &'a [u8]) -> (r: (&'a [u8], &'a [u8]))
    ensures
        r.0@ == first_field(bytes@),
        r.1@ == after_field(bytes@),
{
    let len = bytes.len();
    let mut i: usize = 0;
    while i < len
        invariant
            len == bytes@.len(),
            i <= len,
            forall|j: int| 0 <= j < i ==> bytes@[j] != SPACE,
        decreases len - i,
    {
        if bytes[i] == SPACE {
            proof {
                lemma_field_end(bytes@, i as int);
            }
            return (&bytes[0..i], &bytes[i + 1..len]);
        }
        i += 1;
    }
    proof {
        lemma_field_end(bytes@, len as int);
    }
    assert(bytes@.take(len as int) =~= bytes@);
    (&bytes[0..len], &bytes[len..len])
}

/// A validated command borrowing its name and wire-format arguments.
///
/// Arguments are not trimmed, tokenized or percent-decoded. The parser
/// accepts lines without terminators; framing enforces the wire limit.
pub struct Command<'a> {
    name: &'a str,
    args: &'a [u8],
}

impl<'a> Command<'a> {
    /// The command name as wire bytes.
    pub closed spec fn wire_name(&self) -> Seq<u8> {
        self.name.spec_bytes()
    }

    /// The arguments as wire bytes.
    pub closed spec fn wire_args(&self) -> Seq<u8> {
        self.args@
    }

    /// Every command has a valid name and a line-safe argument part.
    #[verifier::type_invariant]
    pub closed spec fn wf(&self) -> bool {
        valid_token(self.wire_name()) && valid_line(self.wire_args())
    }

    /// Validates a command name and arguments already in wire representation.
    ///
    /// Names are nonempty printable ASCII tokens without whitespace or `%`
    /// and cannot start with `#`. No transformation is applied.
    pub fn new(name: &'a str, args: &'a [u8]) -> (r: Result<Self, ProtocolError>)
        ensures
            !valid_token(name.spec_bytes()) ==> r == Err::<Self, ProtocolError>(
                ProtocolError::InvalidToken,
            ),
            valid_token(name.spec_bytes()) && !valid_line(args@) ==> r == Err::<
                Self,
                ProtocolError,
            >(ProtocolError::InvalidLine),
            r is Ok <==> valid_token(name.spec_bytes()) && valid_line(args@),
            r matches Ok(c) ==> c.wire_name() == name.spec_bytes() && c.wire_args() == args@,
    {
        validate_token(name.as_bytes())?;
        validate_line(args)?;
        Ok(Self { name, args })
    }

    /// Parses a command line without its LF or CRLF terminator.
    ///
    /// Exactly the first separating space is removed; additional spaces and
    /// all argument bytes are preserved.
    pub fn parse(line: &'a [u8]) -> (r: Result<Self, ProtocolError>)
        ensures
            !valid_line(line@) ==> r == Err::<Self, ProtocolError>(ProtocolError::InvalidLine),
            valid_line(line@) && !valid_token(first_field(line@)) ==> r == Err::<
                Self,
                ProtocolError,
            >(ProtocolError::InvalidToken),
            r is Ok <==> valid_line(line@) && valid_token(first_field(line@)),
            r matches Ok(c) ==> c.wire_name() == first_field(line@) && c.wire_args() == after_field(
                line@,
            ),
    {
        validate_line(line)?;
        let (name, args) = split_field(line);
        validate_token(name)?;
        proof {
            lemma_token_ascii(name@);
            lemma_ascii_is_utf8(name@);
            lemma_field_end_bounds(line@);
            assert forall|i: int| 0 <= i < args@.len() implies #[trigger] line_byte(args@[i]) by {
                assert(args@[i] == line@[field_end(line@) + 1 + i]);
            }
        }
        let name = match utf8_text(name) {
            Some(text) => text,
            None => return Err(ProtocolError::InvalidToken),
        };
        Ok(Self { name, args })
    }

    /// Returns the original command name without case normalization.
    pub fn name(&self) -> (r: &'a str)
        ensures
            r.spec_bytes() == self.wire_name(),
            valid_token(r.spec_bytes()),
    {
        proof {
            use_type_invariant(self);
        }
        self.name
    }

    /// Returns the original wire-format arguments without the separator.
    pub fn args(&self) -> (r: &'a [u8])
        ensures
            r@ == self.wire_args(),
            valid_line(r@),
    {
        proof {
            use_type_invariant(self);
        }
        self.args
    }
}

impl core::fmt::Debug for Command<'_> {
    /// Reports only the lengths of the name and arguments.
    #[verifier::external_body]
    fn fmt(&self, f: &mut core::fmt::Formatter<'_>) -> core::fmt::Result {
        f.debug_struct("Command").field("name_len", &self.name.len()).field(
            "args_len",
            &self.args.len(),
        ).finish_non_exhaustive()
    }
}

} // verus!
