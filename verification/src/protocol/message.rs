//! Server response lines and their parser.
use vstd::prelude::*;
use vstd::string::StringSliceAdditionalSpecFns;

use super::command::{
    after_field, first_field, lemma_field_end_bounds, lemma_token_ascii, split_field,
    valid_line, valid_token, validate_line, validate_token,
};
use super::error::ProtocolError;
use super::text::{lemma_ascii_is_utf8, utf8_text};
use super::wire::{
    all_digits, digits_value, is_alpha, is_digit, lemma_digits_value_prefix, DIGIT_ZERO, HASH, SPACE,
    UNDERSCORE,
};

verus! {

/// The bytes `OK`.
pub open spec fn word_ok() -> Seq<u8> {
    seq![0x4fu8, 0x4bu8]
}

/// The bytes `ERR`.
pub open spec fn word_err() -> Seq<u8> {
    seq![0x45u8, 0x52u8, 0x52u8]
}

/// The bytes `D`.
pub open spec fn word_data() -> Seq<u8> {
    seq![0x44u8]
}

/// The bytes `S`.
pub open spec fn word_status() -> Seq<u8> {
    seq![0x53u8]
}

/// The bytes `INQUIRE`.
pub open spec fn word_inquire() -> Seq<u8> {
    seq![0x49u8, 0x4eu8, 0x51u8, 0x55u8, 0x49u8, 0x52u8, 0x45u8]
}

/// The bytes `END`.
pub open spec fn word_end() -> Seq<u8> {
    seq![0x45u8, 0x4eu8, 0x44u8]
}

/// `s` begins with `p`.
pub open spec fn prefix_is(s: Seq<u8>, p: Seq<u8>) -> bool {
    p.len() <= s.len() && s.take(p.len() as int) == p
}

/// `s` begins with the word `w` followed by a space.
pub open spec fn word_then_space(s: Seq<u8>, w: Seq<u8>) -> bool {
    prefix_is(s, w.push(SPACE))
}

/// The abstract content of a server line: its category and field bytes.
pub enum LineModel {
    Okay(Seq<u8>),
    Error { code: u32, text: Seq<u8> },
    Data(Seq<u8>),
    Status { keyword: Seq<u8>, args: Seq<u8> },
    Inquire { keyword: Seq<u8>, args: Seq<u8> },
    End,
    Comment(Seq<u8>),
    Empty,
}

/// A status or inquiry keyword: a token starting with a letter or `_`.
pub open spec fn valid_keyword(k: Seq<u8>) -> bool {
    valid_token(k) && (is_alpha(k[0]) || k[0] == UNDERSCORE)
}

/// Splits keyword fields into the keyword and its unmodified arguments.
pub open spec fn keyword_fields(f: Seq<u8>) -> Result<(Seq<u8>, Seq<u8>), ProtocolError> {
    if valid_keyword(first_field(f)) {
        Ok((first_field(f), after_field(f)))
    } else {
        Err(ProtocolError::InvalidToken)
    }
}

/// A nonempty decimal error code that fits in 32 bits.
pub open spec fn error_code(number: Seq<u8>) -> Option<u32> {
    if number.len() > 0 && all_digits(number) && digits_value(number) <= u32::MAX {
        Some(digits_value(number) as u32)
    } else {
        None
    }
}

/// The meaning of a server line without its terminator.
pub open spec fn parse_line(s: Seq<u8>) -> Result<LineModel, ProtocolError> {
    if !valid_line(s) {
        Err(ProtocolError::InvalidLine)
    } else if s.len() == 0 {
        Ok(LineModel::Empty)
    } else if s[0] == HASH {
        Ok(LineModel::Comment(s.skip(1)))
    } else if s == word_ok() {
        Ok(LineModel::Okay(Seq::empty()))
    } else if word_then_space(s, word_ok()) {
        Ok(LineModel::Okay(s.skip(3)))
    } else if word_then_space(s, word_err()) {
        match error_code(first_field(s.skip(4))) {
            Some(code) => Ok(LineModel::Error { code, text: after_field(s.skip(4)) }),
            None => Err(ProtocolError::InvalidErrorCode),
        }
    } else if word_then_space(s, word_data()) {
        Ok(LineModel::Data(s.skip(2)))
    } else if word_then_space(s, word_status()) {
        match keyword_fields(s.skip(2)) {
            Ok((keyword, args)) => Ok(LineModel::Status { keyword, args }),
            Err(e) => Err(e),
        }
    } else if word_then_space(s, word_inquire()) {
        match keyword_fields(s.skip(8)) {
            Ok((keyword, args)) => Ok(LineModel::Inquire { keyword, args }),
            Err(e) => Err(e),
        }
    } else if s == word_end() {
        Ok(LineModel::End)
    } else {
        Err(ProtocolError::InvalidResponse)
    }
}

/// A server response borrowing its original wire-format fields.
///
/// Data remains percent-encoded until explicitly decoded. Debug output shows
/// only the category, lengths and an error code.
pub enum ServerLine<'a> {
    /// Successful completion (`OK`) with optional diagnostic text.
    Okay(&'a [u8]),
    /// Failed completion (`ERR`) carrying a libgpg-error code and optional text.
    Error {
        /// Numeric remote error code, including its source bits.
        code: u32,
        /// Original diagnostic bytes without the separating space.
        text: &'a [u8],
    },
    /// Percent-encoded data, preserving spaces after the first separator.
    Data(&'a [u8]),
    /// Informational status that does not complete the operation.
    Status {
        /// ASCII keyword beginning with a letter or underscore.
        keyword: &'a str,
        /// Unmodified keyword-specific arguments.
        args: &'a [u8],
    },
    /// Request for client data, terminated by END or CAN.
    Inquire {
        /// ASCII keyword beginning with a letter or underscore.
        keyword: &'a str,
        /// Unmodified inquiry-specific arguments.
        args: &'a [u8],
    },
    /// A partial end of server data; not a final OK or ERR.
    End,
    /// Comment bytes following `#`, including any space after it.
    Comment(&'a [u8]),
    /// An empty line.
    Empty,
}

impl<'a> View for ServerLine<'a> {
    type V = LineModel;

    open spec fn view(&self) -> LineModel {
        match self {
            ServerLine::Okay(t) => LineModel::Okay(t@),
            ServerLine::Error { code, text } => LineModel::Error { code: *code, text: text@ },
            ServerLine::Data(d) => LineModel::Data(d@),
            ServerLine::Status { keyword, args } => LineModel::Status {
                keyword: keyword.spec_bytes(),
                args: args@,
            },
            ServerLine::Inquire { keyword, args } => LineModel::Inquire {
                keyword: keyword.spec_bytes(),
                args: args@,
            },
            ServerLine::End => LineModel::End,
            ServerLine::Comment(t) => LineModel::Comment(t@),
            ServerLine::Empty => LineModel::Empty,
        }
    }
}

/// Checks whether `line` starts with `word`.
fn has_prefix(line: &[u8], word: &[u8]) -> (r: bool)
    ensures
        r == prefix_is(line@, word@),
{
    if word.len() > line.len() {
        return false;
    }
    let mut i: usize = 0;
    while i < word.len()
        invariant
            word@.len() <= line@.len(),
            i <= word@.len(),
            forall|j: int| 0 <= j < i ==> line@[j] == word@[j],
        decreases word@.len() - i,
    {
        if line[i] != word[i] {
            assert(line@.take(word@.len() as int)[i as int] != word@[i as int]);
            return false;
        }
        i += 1;
    }
    assert(line@.take(word@.len() as int) =~= word@);
    true
}

/// Parses a decimal error code.
fn parse_error_code(number: &[u8]) -> (r: Option<u32>)
    ensures
        r == error_code(number@),
{
    if number.len() == 0 {
        return None;
    }
    let mut code: u32 = 0;
    let mut i: usize = 0;
    while i < number.len()
        invariant
            i <= number@.len(),
            all_digits(number@.take(i as int)),
            code == digits_value(number@.take(i as int)),
        decreases number@.len() - i,
    {
        let digit = number[i];
        assert(number@.take(i + 1).drop_last() =~= number@.take(i as int));
        if !(DIGIT_ZERO <= digit && digit <= 0x39) {
            assert(!is_digit(number@[i as int]));
            return None;
        }
        let next = match code.checked_mul(10) {
            Some(v) => v.checked_add((digit - DIGIT_ZERO) as u32),
            None => None,
        };
        match next {
            Some(v) => {
                code = v;
            },
            None => {
                proof {
                    if all_digits(number@) {
                        lemma_digits_value_prefix(number@, i + 1);
                    }
                }
                return None;
            },
        }
        i += 1;
        assert(all_digits(number@.take(i as int))) by {
            assert forall|j: int| 0 <= j < i implies #[trigger] is_digit(
                number@.take(i as int)[j],
            ) by {
                if j < i - 1 {
                    assert(number@.take(i as int)[j] == number@.take(i - 1)[j]);
                }
            }
        }
    }
    assert(number@.take(number@.len() as int) =~= number@);
    Some(code)
}

/// Splits keyword fields and validates the keyword.
fn parse_keyword<'a>(fields: &'a [u8]) -> (r: Result<(&'a str, &'a [u8]), ProtocolError>)
    ensures
        match r {
            Ok((k, a)) => keyword_fields(fields@) == Ok::<(Seq<u8>, Seq<u8>), ProtocolError>(
                (k.spec_bytes(), a@),
            ),
            Err(e) => keyword_fields(fields@) == Err::<(Seq<u8>, Seq<u8>), ProtocolError>(e),
        },
{
    let (keyword, args) = split_field(fields);
    validate_token(keyword)?;
    let first = keyword[0];
    if !((0x41 <= first && first <= 0x5a) || (0x61 <= first && first <= 0x7a)
        || first == UNDERSCORE) {
        return Err(ProtocolError::InvalidToken);
    }
    proof {
        lemma_token_ascii(keyword@);
        lemma_ascii_is_utf8(keyword@);
    }
    match utf8_text(keyword) {
        Some(text) => Ok((text, args)),
        None => Err(ProtocolError::InvalidToken),
    }
}

/// Parses a server line without its LF or CRLF terminator, without allocation.
///
/// A single separating space is consumed for each field; payload spaces and
/// binary bytes remain unchanged. Unknown status and inquiry keywords are
/// accepted. Line-length limits belong to framing.
pub fn parse_server_line<'a>(line: &'a [u8]) -> (r: Result<ServerLine<'a>, ProtocolError>)
    ensures
        match r {
            Ok(l) => parse_line(line@) == Ok::<LineModel, ProtocolError>(l@),
            Err(e) => parse_line(line@) == Err::<LineModel, ProtocolError>(e),
        },
{
    validate_line(line)?;
    let len = line.len();
    if len == 0 {
        return Ok(ServerLine::Empty);
    }
    if line[0] == HASH {
        return Ok(ServerLine::Comment(&line[1..len]));
    }
    let ok: [u8; 2] = [0x4f, 0x4b];
    let ok_sp: [u8; 3] = [0x4f, 0x4b, SPACE];
    let err_sp: [u8; 4] = [0x45, 0x52, 0x52, SPACE];
    let data_sp: [u8; 2] = [0x44, SPACE];
    let status_sp: [u8; 2] = [0x53, SPACE];
    let inquire_sp: [u8; 8] = [0x49, 0x4e, 0x51, 0x55, 0x49, 0x52, 0x45, SPACE];
    let end: [u8; 3] = [0x45, 0x4e, 0x44];
    assert(ok@ =~= word_ok());
    assert(ok_sp@ =~= word_ok().push(SPACE));
    assert(err_sp@ =~= word_err().push(SPACE));
    assert(data_sp@ =~= word_data().push(SPACE));
    assert(status_sp@ =~= word_status().push(SPACE));
    assert(inquire_sp@ =~= word_inquire().push(SPACE));
    assert(end@ =~= word_end());
    if len == 2 && has_prefix(line, ok.as_slice()) {
        assert(line@ =~= word_ok());
        assert(line@.subrange(2, 2) =~= Seq::<u8>::empty());
        return Ok(ServerLine::Okay(&line[2..2]));
    }
    if has_prefix(line, ok_sp.as_slice()) {
        assert(line@ != word_ok());
        return Ok(ServerLine::Okay(&line[3..len]));
    }
    if has_prefix(line, err_sp.as_slice()) {
        let fields = &line[4..len];
        let (number, text) = split_field(fields);
        return match parse_error_code(number) {
            Some(code) => Ok(ServerLine::Error { code, text }),
            None => Err(ProtocolError::InvalidErrorCode),
        };
    }
    if has_prefix(line, data_sp.as_slice()) {
        return Ok(ServerLine::Data(&line[2..len]));
    }
    if has_prefix(line, status_sp.as_slice()) {
        let (keyword, args) = parse_keyword(&line[2..len])?;
        return Ok(ServerLine::Status { keyword, args });
    }
    if has_prefix(line, inquire_sp.as_slice()) {
        let (keyword, args) = parse_keyword(&line[8..len])?;
        return Ok(ServerLine::Inquire { keyword, args });
    }
    if len == 3 && has_prefix(line, end.as_slice()) {
        assert(line@ =~= word_end());
        return Ok(ServerLine::End);
    }
    assert(line@ != word_ok()) by {
        if line@ == word_ok() {
            assert(line@.take(2) =~= line@);
            assert(prefix_is(line@, ok@));
        }
    }
    assert(line@ != word_end()) by {
        if line@ == word_end() {
            assert(line@.take(3) =~= line@);
            assert(prefix_is(line@, end@));
        }
    }
    Err(ProtocolError::InvalidResponse)
}

impl core::fmt::Debug for ServerLine<'_> {
    /// Reports the category and field lengths, never field contents.
    #[verifier::external_body]
    fn fmt(&self, f: &mut core::fmt::Formatter<'_>) -> core::fmt::Result {
        match self {
            ServerLine::Okay(b) => write!(f, "Ok {{ len: {}, .. }}", b.len()),
            ServerLine::Error { code, text } => write!(f, "Err {{ code: {}, text_len: {}, .. }}", code, text.len()),
            ServerLine::Data(b) => write!(f, "Data {{ len: {}, .. }}", b.len()),
            ServerLine::Status { keyword: k, args: a } => write!(f, "Status {{ keyword_len: {}, args_len: {}, .. }}", k.len(), a.len()),
            ServerLine::Inquire { keyword: k, args: a } => write!(f, "Inquire {{ keyword_len: {}, args_len: {}, .. }}", k.len(), a.len()),
            ServerLine::End => f.write_str("End"),
            ServerLine::Comment(b) => write!(f, "Comment {{ len: {}, .. }}", b.len()),
            ServerLine::Empty => f.write_str("Empty"),
        }
    }
}

} // verus!
