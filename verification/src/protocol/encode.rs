//! Encoding of commands, data chunks and server responses.
use vstd::prelude::*;
use vstd::string::StringSliceAdditionalSpecFns;

use super::command::{valid_line, validate_line, validate_token, Command, line_byte};
use super::error::ProtocolError;
use super::escape::{decode_escapes, is_hex_digit};
use super::message::{
    valid_keyword, word_data, word_end, word_err, word_inquire, word_ok, word_status, LineModel,
    ServerLine,
};
use super::wire::{
    decimal, lemma_decimal, lemma_decimal_len_u32, CR, DIGIT_ZERO, HASH, LF, MAX_LINE_BYTES, NUL,
    PERCENT, SPACE, UNDERSCORE,
};

verus! {

/// The concatenation of all parts, in order.
pub open spec fn concat(parts: Seq<Seq<u8>>) -> Seq<u8>
    decreases parts.len(),
{
    if parts.len() == 0 {
        Seq::empty()
    } else {
        concat(parts.drop_last()) + parts.last()
    }
}

/// Validates parts in order: each must be a valid line fragment, and the
/// running length (starting from `total`) must stay within the wire limit.
pub open spec fn check_parts(parts: Seq<Seq<u8>>, total: int) -> Result<int, ProtocolError>
    decreases parts.len(),
{
    if parts.len() == 0 {
        Ok(total)
    } else if !valid_line(parts[0]) {
        Err(ProtocolError::InvalidLine)
    } else if total + parts[0].len() > MAX_LINE_BYTES {
        Err(ProtocolError::LineTooLong)
    } else {
        check_parts(parts.skip(1), total + parts[0].len())
    }
}

/// The line that parts form, or the first failure, counting one byte for LF.
pub open spec fn join_parts(parts: Seq<Seq<u8>>) -> Result<Seq<u8>, ProtocolError> {
    match check_parts(parts, 1) {
        Ok(_) => Ok(concat(parts)),
        Err(e) => Err(e),
    }
}

/// Concatenation distributes over a split of the part list.
pub proof fn lemma_concat_split(parts: Seq<Seq<u8>>, i: int)
    requires
        0 <= i <= parts.len(),
    ensures
        concat(parts) == concat(parts.take(i)) + concat(parts.skip(i)),
    decreases parts.len(),
{
    if i == parts.len() {
        assert(parts.take(i) =~= parts);
        assert(parts.skip(i) =~= Seq::<Seq<u8>>::empty());
        assert(concat(parts.take(i)) + Seq::<u8>::empty() =~= concat(parts.take(i)));
    } else {
        lemma_concat_split(parts.drop_last(), i);
        assert(parts.drop_last().take(i) =~= parts.take(i));
        assert(parts.skip(i).drop_last() =~= parts.drop_last().skip(i));
        assert(parts.skip(i).last() == parts.last());
        assert(concat(parts.take(i)) + concat(parts.skip(i)) =~= concat(parts.take(i)) + concat(
            parts.drop_last().skip(i),
        ) + parts.last());
    }
}

/// A successful check accounts for every byte and validates every part.
pub proof fn lemma_check_parts_ok(parts: Seq<Seq<u8>>, total: int)
    requires
        check_parts(parts, total) is Ok,
    ensures
        check_parts(parts, total) == Ok::<int, ProtocolError>(total + concat(parts).len()),
        total + concat(parts).len() <= MAX_LINE_BYTES || parts.len() == 0,
        valid_line(concat(parts)),
    decreases parts.len(),
{
    if parts.len() > 0 {
        lemma_check_parts_ok(parts.skip(1), total + parts[0].len());
        lemma_concat_split(parts, 1);
        assert(parts.take(1).drop_last() =~= Seq::<Seq<u8>>::empty());
        assert(concat(Seq::<Seq<u8>>::empty()) =~= Seq::<u8>::empty());
        assert(concat(parts.take(1)) =~= parts[0]);
        let whole = concat(parts);
        assert forall|k: int| 0 <= k < whole.len() implies #[trigger] line_byte(whole[k]) by {
            if k < parts[0].len() {
                assert(whole[k] == parts[0][k]);
            } else {
                assert(whole[k] == concat(parts.skip(1))[k - parts[0].len()]);
            }
        }
    }
}

/// When every part is a valid fragment, only the total length can fail.
pub proof fn lemma_check_parts_valid(parts: Seq<Seq<u8>>, total: int)
    requires
        forall|i: int| 0 <= i < parts.len() ==> valid_line(#[trigger] parts[i]),
        total <= MAX_LINE_BYTES,
    ensures
        check_parts(parts, total) == (if total + concat(parts).len() <= MAX_LINE_BYTES {
            Ok::<int, ProtocolError>(total + concat(parts).len())
        } else {
            Err::<int, ProtocolError>(ProtocolError::LineTooLong)
        }),
    decreases parts.len(),
{
    if parts.len() > 0 {
        lemma_concat_split(parts, 1);
        assert(parts.take(1).drop_last() =~= Seq::<Seq<u8>>::empty());
        assert(concat(Seq::<Seq<u8>>::empty()) =~= Seq::<u8>::empty());
        assert(concat(parts.take(1)) =~= parts[0]);
        assert(valid_line(parts[0]));
        if total + parts[0].len() <= MAX_LINE_BYTES {
            assert forall|i: int| 0 <= i < parts.skip(1).len() implies valid_line(
                #[trigger] parts.skip(1)[i],
            ) by {
                assert(parts.skip(1)[i] == parts[i + 1]);
            }
            lemma_check_parts_valid(parts.skip(1), total + parts[0].len());
        }
    } else {
        assert(concat(parts) =~= Seq::<u8>::empty());
    }
}

/// Writes validated parts followed by LF into `output`.
fn write_parts(parts: &[&[u8]], output: &mut [u8; MAX_LINE_BYTES]) -> (r: Result<usize, ProtocolError>)
    ensures
        match join_parts(parts@.map_values(|p: &[u8]| p@)) {
            Ok(line) => r == Ok::<usize, ProtocolError>((line.len() + 1int) as usize)
                && final(output)@.take(line.len() + 1int) == line.push(LF)
                && final(output)@.skip(line.len() + 1int) == old(output)@.skip(line.len() + 1int),
            Err(e) => r == Err::<usize, ProtocolError>(e) && final(output)@ == old(output)@,
        },
{
    let ghost views = parts@.map_values(|p: &[u8]| p@);
    let count = parts.len();
    let mut total: usize = 1;
    let mut i: usize = 0;
    assert(views.skip(0) =~= views);
    assert(views.take(0) =~= Seq::<Seq<u8>>::empty());
    while i < count
        invariant
            count == parts@.len(),
            views == parts@.map_values(|p: &[u8]| p@),
            i <= count,
            1 <= total <= MAX_LINE_BYTES,
            total == 1 + concat(views.take(i as int)).len(),
            check_parts(views, 1) == check_parts(views.skip(i as int), total as int),
            forall|j: int| 0 <= j < i ==> valid_line(#[trigger] views[j]),
        decreases count - i,
    {
        let part = parts[i];
        assert(views[i as int] == part@);
        assert(views.skip(i as int).skip(1) =~= views.skip(i + 1));
        validate_line(part)?;
        if part.len() > MAX_LINE_BYTES - total {
            return Err(ProtocolError::LineTooLong);
        }
        total = total + part.len();
        assert(views.take(i + 1).drop_last() =~= views.take(i as int));
        i += 1;
    }
    assert(views.take(count as int) =~= views);
    assert(views.skip(count as int) =~= Seq::<Seq<u8>>::empty());
    let ghost line = concat(views);
    let mut position: usize = 0;
    i = 0;
    while i < count
        invariant
            count == parts@.len(),
            views == parts@.map_values(|p: &[u8]| p@),
            i <= count,
            line == concat(views),
            total == 1 + line.len(),
            total <= MAX_LINE_BYTES,
            position == concat(views.take(i as int)).len(),
            output@.take(position as int) == concat(views.take(i as int)),
            output@.skip(position as int) == old(output)@.skip(position as int),
        decreases count - i,
    {
        let part = parts[i];
        assert(views[i as int] == part@);
        proof {
            lemma_concat_split(views, i + 1);
            assert(views.take(i + 1).drop_last() =~= views.take(i as int));
            assert(concat(views.take(i + 1)) == concat(views.take(i as int)) + part@);
        }
        let ghost start = output@;
        let mut k: usize = 0;
        while k < part.len()
            invariant
                position + part@.len() <= line.len(),
                line.len() < MAX_LINE_BYTES,
                k <= part@.len(),
                output@.len() == MAX_LINE_BYTES,
                start.len() == MAX_LINE_BYTES,
                output@.take(position as int) == start.take(position as int),
                output@.subrange(position as int, position + k) == part@.take(k as int),
                output@.skip(position + k) == start.skip(position + k),
            decreases part@.len() - k,
        {
            let ghost prev = output@;
            output[position + k] = part[k];
            assert(output@.take(position as int) =~= prev.take(position as int));
            assert(output@.subrange(position as int, position + k + 1) =~= part@.take(k + 1)) by {
                assert(prev.subrange(position as int, position + k) == part@.take(k as int));
            }
            assert(output@.skip(position + k + 1) =~= prev.skip(position + k + 1));
            assert(prev.skip(position + k + 1) =~= prev.skip(position + k).skip(1));
            assert(start.skip(position + k + 1) =~= start.skip(position + k).skip(1));
            k += 1;
        }
        assert(part@.take(part@.len() as int) =~= part@);
        assert(output@.take(position + part@.len()) =~= output@.take(position as int) + output@.subrange(
            position as int,
            position + part@.len(),
        ));
        assert(concat(views.take(i + 1)) == concat(views.take(i as int)) + part@);
        assert(output@.skip(position + part@.len()) =~= old(output)@.skip(position + part@.len())) by {
            assert(start.skip(position as int).skip(part@.len() as int) =~= start.skip(position + part@.len()));
            assert(old(output)@.skip(position as int).skip(part@.len() as int) =~= old(output)@.skip(position + part@.len()));
        }
        position = position + part.len();
        i += 1;
    }
    assert(views.take(count as int) =~= views);
    let ghost before = output@;
    output[position] = LF;
    assert(output@.take(position + 1) =~= line.push(LF)) by {
        assert(output@.take(position as int) =~= before.take(position as int));
    }
    assert(output@.skip(position + 1) =~= old(output)@.skip(position + 1)) by {
        assert(before.skip(position as int).skip(1) =~= before.skip(position + 1));
        assert(old(output)@.skip(position as int).skip(1) =~= old(output)@.skip(position + 1));
    }
    Ok(total)
}


/// How an encoding attempt relates the output buffer before and after: on
/// success the line and its LF fill the prefix and nothing else changes; on
/// failure nothing changes.
pub open spec fn wrote_line(
    encoding: Result<Seq<u8>, ProtocolError>,
    r: Result<usize, ProtocolError>,
    before: Seq<u8>,
    after: Seq<u8>,
) -> bool {
    match encoding {
        Ok(line) => r == Ok::<usize, ProtocolError>((line.len() + 1) as usize) && after.take(
            line.len() + 1int,
        ) == line.push(LF) && after.skip(line.len() + 1int) == before.skip(line.len() + 1int),
        Err(e) => r == Err::<usize, ProtocolError>(e) && after == before,
    }
}

/// A word alone, or followed by a space and nonempty text.
pub open spec fn with_optional(word: Seq<u8>, text: Seq<u8>) -> Seq<Seq<u8>> {
    if text.len() == 0 {
        seq![word]
    } else {
        seq![word, seq![SPACE], text]
    }
}

/// The wire text of a command: its name, then a space and the arguments
/// when there are any.
pub open spec fn command_text(name: Seq<u8>, args: Seq<u8>) -> Seq<u8> {
    concat(with_optional(name, args))
}

/// The encoding of a keyword line with the given prefix.
pub open spec fn keyword_line(prefix: Seq<u8>, keyword: Seq<u8>, args: Seq<u8>) -> Result<
    Seq<u8>,
    ProtocolError,
> {
    if !valid_keyword(keyword) {
        Err(ProtocolError::InvalidToken)
    } else if args.len() == 0 {
        join_parts(seq![prefix, keyword])
    } else {
        join_parts(seq![prefix, keyword, seq![SPACE], args])
    }
}

/// The wire text of a server response, or why it cannot be sent.
pub open spec fn encode_model(line: LineModel) -> Result<Seq<u8>, ProtocolError> {
    match line {
        LineModel::Okay(text) => join_parts(with_optional(word_ok(), text)),
        LineModel::Error { code, text } => if text.len() == 0 {
            join_parts(seq![word_err().push(SPACE), decimal(code as nat)])
        } else {
            join_parts(seq![word_err().push(SPACE), decimal(code as nat), seq![SPACE], text])
        },
        LineModel::Data(data) => if decode_escapes(data) is None {
            Err(ProtocolError::InvalidEscape)
        } else {
            join_parts(seq![word_data().push(SPACE), data])
        },
        LineModel::Status { keyword, args } => keyword_line(
            word_status().push(SPACE),
            keyword,
            args,
        ),
        LineModel::Inquire { keyword, args } => keyword_line(
            word_inquire().push(SPACE),
            keyword,
            args,
        ),
        LineModel::End => join_parts(seq![word_end()]),
        LineModel::Comment(text) => join_parts(seq![seq![HASH], text]),
        LineModel::Empty => join_parts(Seq::empty()),
    }
}

/// Joined parts leave room for the LF within the wire limit.
pub proof fn lemma_join_parts_len(parts: Seq<Seq<u8>>)
    ensures
        join_parts(parts) matches Ok(line) ==> line.len() < MAX_LINE_BYTES,
{
    if check_parts(parts, 1) is Ok {
        lemma_check_parts_ok(parts, 1);
        if parts.len() == 0 {
            assert(concat(parts) =~= Seq::<u8>::empty());
        }
    }
}

/// Every encodable response fits in one wire line together with its LF.
pub proof fn lemma_encode_model_len(line: LineModel)
    ensures
        encode_model(line) matches Ok(bytes) ==> bytes.len() < MAX_LINE_BYTES,
{
    match line {
        LineModel::Okay(text) => lemma_join_parts_len(with_optional(word_ok(), text)),
        LineModel::Error { code, text } => {
            lemma_join_parts_len(seq![word_err().push(SPACE), decimal(code as nat)]);
            lemma_join_parts_len(seq![word_err().push(SPACE), decimal(code as nat), seq![SPACE], text]);
        },
        LineModel::Data(data) => lemma_join_parts_len(seq![word_data().push(SPACE), data]),
        LineModel::Status { keyword, args } => {
            lemma_join_parts_len(seq![word_status().push(SPACE), keyword]);
            lemma_join_parts_len(seq![word_status().push(SPACE), keyword, seq![SPACE], args]);
        },
        LineModel::Inquire { keyword, args } => {
            lemma_join_parts_len(seq![word_inquire().push(SPACE), keyword]);
            lemma_join_parts_len(seq![word_inquire().push(SPACE), keyword, seq![SPACE], args]);
        },
        LineModel::End => lemma_join_parts_len(seq![word_end()]),
        LineModel::Comment(text) => lemma_join_parts_len(seq![seq![HASH], text]),
        LineModel::Empty => lemma_join_parts_len(Seq::empty()),
    }
}

/// The escaped form of one raw data byte: `%`, CR, LF and NUL become
/// uppercase percent escapes.
pub open spec fn escape_byte(b: u8) -> Seq<u8> {
    if b == PERCENT {
        seq![PERCENT, 0x32u8, 0x35u8]
    } else if b == CR {
        seq![PERCENT, 0x30u8, 0x44u8]
    } else if b == LF {
        seq![PERCENT, 0x30u8, 0x41u8]
    } else if b == NUL {
        seq![PERCENT, 0x30u8, 0x30u8]
    } else {
        seq![b]
    }
}

/// The escaped form of raw data.
pub open spec fn escape_data(s: Seq<u8>) -> Seq<u8>
    decreases s.len(),
{
    if s.len() == 0 {
        Seq::empty()
    } else {
        escape_data(s.drop_last()) + escape_byte(s.last())
    }
}

/// The prefix `D ` of a data line.
pub open spec fn data_prefix() -> Seq<u8> {
    word_data().push(SPACE)
}

/// The first `k` input bytes, escaped, fit in one data line with its LF.
pub open spec fn chunk_fits(input: Seq<u8>, k: int) -> bool {
    2 + escape_data(input.take(k)).len() < MAX_LINE_BYTES
}

/// Encodes a command with an LF terminator into caller-owned storage.
///
/// Arguments are already in wire representation and are not escaped. Empty
/// arguments omit the separator. Only the returned prefix is written, and an
/// error leaves the output unchanged.
pub fn encode_command(command: Command<'_>, output: &mut [u8; MAX_LINE_BYTES]) -> (r: Result<
    usize,
    ProtocolError,
>)
    ensures
        wrote_line(
            join_parts(with_optional(command.wire_name(), command.wire_args())),
            r,
            old(output)@,
            final(output)@,
        ),
        r is Ok <==> command_text(command.wire_name(), command.wire_args()).len() + 1
            <= MAX_LINE_BYTES,
        r is Err ==> r == Err::<usize, ProtocolError>(ProtocolError::LineTooLong),
{
    let name = command.name().as_bytes();
    let args = command.args();
    let space: [u8; 1] = [SPACE];
    let ghost ps = with_optional(name@, args@);
    proof {
        assert(valid_line(name@)) by {
            assert forall|i: int| 0 <= i < name@.len() implies #[trigger] line_byte(name@[i]) by {
                assert(super::command::token_byte(name@[i]));
            }
        }
        assert(valid_line(seq![SPACE]));
        assert forall|i: int| 0 <= i < ps.len() implies valid_line(#[trigger] ps[i]) by {}
        lemma_check_parts_valid(ps, 1);
    }
    if args.len() == 0 {
        let parts: [&[u8]; 1] = [name];
        assert(parts@.map_values(|p: &[u8]| p@) =~= ps);
        write_parts(parts.as_slice(), output)
    } else {
        let sp = space.as_slice();
        assert(sp@ =~= seq![SPACE]);
        let parts: [&[u8]; 3] = [name, sp, args];
        assert(parts@.map_values(|p: &[u8]| p@) =~= ps);
        write_parts(parts.as_slice(), output)
    }
}


/// Writes a word alone, or followed by a space and nonempty text.
fn write_optional(prefix: &[u8], text: &[u8], output: &mut [u8; MAX_LINE_BYTES]) -> (r: Result<
    usize,
    ProtocolError,
>)
    ensures
        wrote_line(join_parts(with_optional(prefix@, text@)), r, old(output)@, final(output)@),
{
    if text.len() == 0 {
        let parts: [&[u8]; 1] = [prefix];
        assert(parts@.map_values(|p: &[u8]| p@) =~= with_optional(prefix@, text@));
        write_parts(parts.as_slice(), output)
    } else {
        let space: [u8; 1] = [SPACE];
        let sp = space.as_slice();
        assert(sp@ =~= seq![SPACE]);
        let parts: [&[u8]; 3] = [prefix, sp, text];
        assert(parts@.map_values(|p: &[u8]| p@) =~= with_optional(prefix@, text@));
        write_parts(parts.as_slice(), output)
    }
}

/// Validates a keyword and writes a keyword line with the given prefix.
fn write_keyword(
    prefix: &[u8],
    keyword: &str,
    args: &[u8],
    output: &mut [u8; MAX_LINE_BYTES],
) -> (r: Result<usize, ProtocolError>)
    ensures
        wrote_line(
            keyword_line(prefix@, keyword.spec_bytes(), args@),
            r,
            old(output)@,
            final(output)@,
        ),
{
    let word = keyword.as_bytes();
    validate_token(word)?;
    let first = word[0];
    if !((0x41 <= first && first <= 0x5a) || (0x61 <= first && first <= 0x7a) || first
        == UNDERSCORE) {
        return Err(ProtocolError::InvalidToken);
    }
    if args.len() == 0 {
        let parts: [&[u8]; 2] = [prefix, word];
        assert(parts@.map_values(|p: &[u8]| p@) =~= seq![prefix@, word@]);
        write_parts(parts.as_slice(), output)
    } else {
        let space: [u8; 1] = [SPACE];
        let sp = space.as_slice();
        assert(sp@ =~= seq![SPACE]);
        let parts: [&[u8]; 4] = [prefix, word, sp, args];
        assert(parts@.map_values(|p: &[u8]| p@) =~= seq![prefix@, word@, seq![SPACE], args@]);
        write_parts(parts.as_slice(), output)
    }
}

/// Checks that every `%` starts a complete two-digit hexadecimal escape.
fn validate_encoded_data(data: &[u8]) -> (r: Result<(), ProtocolError>)
    ensures
        r is Ok <==> decode_escapes(data@) is Some,
        r is Err ==> r == Err::<(), ProtocolError>(ProtocolError::InvalidEscape),
{
    let len = data.len();
    let mut position: usize = 0;
    assert(data@.skip(0) =~= data@);
    while position < len
        invariant
            len == data@.len(),
            position <= len,
            decode_escapes(data@) is Some <==> decode_escapes(data@.skip(position as int)) is Some,
        decreases len - position,
    {
        let ghost rest = data@.skip(position as int);
        if data[position] == PERCENT {
            if len - position < 3 || !is_hex(data[position + 1]) || !is_hex(data[position + 2]) {
                return Err(ProtocolError::InvalidEscape);
            }
            assert(rest.skip(3) =~= data@.skip(position + 3));
            position += 3;
        } else {
            assert(rest.skip(1) =~= data@.skip(position + 1));
            position += 1;
        }
    }
    assert(data@.skip(len as int) =~= Seq::<u8>::empty());
    Ok(())
}

fn is_hex(b: u8) -> (r: bool)
    ensures
        r == is_hex_digit(b),
{
    (0x30 <= b && b <= 0x39) || (0x61 <= b && b <= 0x66) || (0x41 <= b && b <= 0x46)
}

/// Validates and encodes a complete server response with an LF terminator.
///
/// Data lines carry already percent-encoded bytes; diagnostic text and
/// keyword arguments are copied without additional escaping. Validation
/// completes before any output byte is written.
pub fn encode_response(line: ServerLine<'_>, output: &mut [u8; MAX_LINE_BYTES]) -> (r: Result<
    usize,
    ProtocolError,
>)
    ensures
        wrote_line(encode_model(line@), r, old(output)@, final(output)@),
{
    match line {
        ServerLine::Okay(text) => {
            let ok: [u8; 2] = [0x4f, 0x4b];
            let w = ok.as_slice();
            assert(w@ =~= word_ok());
            write_optional(w, text, output)
        },
        ServerLine::Error { code, text } => {
            let mut digits: [u8; 10] = [0; 10];
            let mut start: usize = 10;
            let mut value: u32 = code;
            proof {
                lemma_decimal_len_u32(code);
            }
            loop
                invariant_except_break
                    start <= 10,
                    decimal(value as nat).len() <= start,
                    decimal(value as nat) + digits@.subrange(start as int, 10) == decimal(
                        code as nat,
                    ),
                ensures
                    start < 10,
                    digits@.subrange(start as int, 10) == decimal(code as nat),
                decreases value,
            {
                proof {
                    lemma_decimal(value as nat);
                }
                let ghost before = digits@;
                start -= 1;
                digits[start] = DIGIT_ZERO + (value % 10) as u8;
                assert(digits@.subrange(start as int, 10) =~= seq![digits@[start as int]]
                    + before.subrange(start + 1, 10));
                let ghost old_value = value;
                value = value / 10;
                if value == 0 {
                    assert(old_value < 10);
                    break;
                }
                assert(decimal(old_value as nat) =~= decimal(value as nat).push(
                    digits@[start as int],
                ));
            }
            let err: [u8; 4] = [0x45, 0x52, 0x52, SPACE];
            let w = err.as_slice();
            assert(w@ =~= word_err().push(SPACE));
            let number = &digits[start..10];
            if text.len() == 0 {
                let parts: [&[u8]; 2] = [w, number];
                assert(parts@.map_values(|p: &[u8]| p@) =~= seq![
                    word_err().push(SPACE),
                    decimal(code as nat),
                ]);
                write_parts(parts.as_slice(), output)
            } else {
                let space: [u8; 1] = [SPACE];
                let sp = space.as_slice();
                assert(sp@ =~= seq![SPACE]);
                let parts: [&[u8]; 4] = [w, number, sp, text];
                assert(parts@.map_values(|p: &[u8]| p@) =~= seq![
                    word_err().push(SPACE),
                    decimal(code as nat),
                    seq![SPACE],
                    text@,
                ]);
                write_parts(parts.as_slice(), output)
            }
        },
        ServerLine::Data(data) => {
            validate_encoded_data(data)?;
            let prefix: [u8; 2] = [0x44, SPACE];
            let w = prefix.as_slice();
            assert(w@ =~= word_data().push(SPACE));
            let parts: [&[u8]; 2] = [w, data];
            assert(parts@.map_values(|p: &[u8]| p@) =~= seq![word_data().push(SPACE), data@]);
            write_parts(parts.as_slice(), output)
        },
        ServerLine::Status { keyword, args } => {
            let prefix: [u8; 2] = [0x53, SPACE];
            let w = prefix.as_slice();
            assert(w@ =~= word_status().push(SPACE));
            write_keyword(w, keyword, args, output)
        },
        ServerLine::Inquire { keyword, args } => {
            let prefix: [u8; 8] = [0x49, 0x4e, 0x51, 0x55, 0x49, 0x52, 0x45, SPACE];
            let w = prefix.as_slice();
            assert(w@ =~= word_inquire().push(SPACE));
            write_keyword(w, keyword, args, output)
        },
        ServerLine::End => {
            let end: [u8; 3] = [0x45, 0x4e, 0x44];
            let w = end.as_slice();
            assert(w@ =~= word_end());
            let parts: [&[u8]; 1] = [w];
            assert(parts@.map_values(|p: &[u8]| p@) =~= seq![word_end()]);
            write_parts(parts.as_slice(), output)
        },
        ServerLine::Comment(text) => {
            let hash: [u8; 1] = [HASH];
            let w = hash.as_slice();
            assert(w@ =~= seq![HASH]);
            let parts: [&[u8]; 2] = [w, text];
            assert(parts@.map_values(|p: &[u8]| p@) =~= seq![seq![HASH], text@]);
            write_parts(parts.as_slice(), output)
        },
        ServerLine::Empty => {
            let parts: [&[u8]; 0] = [];
            assert(parts@.map_values(|p: &[u8]| p@) =~= Seq::<Seq<u8>>::empty());
            write_parts(parts.as_slice(), output)
        },
    }
}

/// The escaped bytes for one input byte, as written by the encoder.
fn escape_of(b: u8) -> (r: (u8, u8, u8, usize))
    ensures
        r.3 == escape_byte(b).len(),
        r.3 == 1 ==> escape_byte(b) == seq![b],
        r.3 == 3 ==> escape_byte(b) == seq![r.0, r.1, r.2],
        r.3 == 1 || r.3 == 3,
{
    if b == PERCENT {
        (PERCENT, 0x32, 0x35, 3)
    } else if b == CR {
        (PERCENT, 0x30, 0x44, 3)
    } else if b == LF {
        (PERCENT, 0x30, 0x41, 3)
    } else if b == NUL {
        (PERCENT, 0x30, 0x30, 3)
    } else {
        (b, 0, 0, 1)
    }
}

/// Escaping a longer prefix appends the escape of the next byte.
proof fn lemma_escape_take(input: Seq<u8>, k: int)
    requires
        0 <= k < input.len(),
    ensures
        escape_data(input.take(k + 1)) == escape_data(input.take(k)) + escape_byte(input[k]),
{
    assert(input.take(k + 1).drop_last() =~= input.take(k));
}

/// Escaped prefixes grow with their raw prefixes.
proof fn lemma_escape_monotone(input: Seq<u8>, j: int, k: int)
    requires
        0 <= j <= k <= input.len(),
    ensures
        escape_data(input.take(j)).len() <= escape_data(input.take(k)).len(),
    decreases k - j,
{
    if j < k {
        lemma_escape_monotone(input, j, k - 1);
        lemma_escape_take(input, k - 1);
    }
}

/// Encodes as much raw data as fits in one `D ` line, terminated by LF.
///
/// Returns `(input_consumed, output_written)`. Percent, CR, LF and NUL become
/// uppercase percent escapes; other bytes are copied. Empty input emits
/// `D \n`; nonempty input always makes progress, and no escape is split.
pub fn encode_data_chunk(input: &[u8], output: &mut [u8; MAX_LINE_BYTES]) -> (r: Result<
    (usize, usize),
    ProtocolError,
>)
    ensures
        r matches Ok((consumed, written)) && {
            &&& consumed <= input@.len()
            &&& written == 3 + escape_data(input@.take(consumed as int)).len()
            &&& written <= MAX_LINE_BYTES
            &&& final(output)@.take(written as int) == data_prefix() + escape_data(
                input@.take(consumed as int),
            ) + seq![LF]
            &&& final(output)@.skip(written as int) == old(output)@.skip(written as int)
            &&& chunk_fits(input@, consumed as int)
            &&& consumed < input@.len() ==> !chunk_fits(input@, consumed + 1)
            &&& input@.len() > 0 ==> consumed > 0
        },
{
    output[0] = 0x44;
    output[1] = SPACE;
    let len = input.len();
    let mut written: usize = 2;
    let mut consumed: usize = 0;
    assert(input@.take(0) =~= Seq::<u8>::empty());
    assert(output@.take(2) =~= data_prefix());
    while consumed < len
        invariant_except_break
            len == input@.len(),
            consumed <= len,
            written == 2 + escape_data(input@.take(consumed as int)).len(),
            written < MAX_LINE_BYTES,
            output@.take(written as int) == data_prefix() + escape_data(input@.take(consumed as int)),
            output@.skip(written as int) == old(output)@.skip(written as int),
            consumed > 0 || written == 2,
        ensures
            consumed <= len,
            written == 2 + escape_data(input@.take(consumed as int)).len(),
            written < MAX_LINE_BYTES,
            output@.take(written as int) == data_prefix() + escape_data(input@.take(consumed as int)),
            output@.skip(written as int) == old(output)@.skip(written as int),
            consumed < len ==> !chunk_fits(input@, consumed + 1),
            len > 0 ==> consumed > 0,
        decreases len - consumed,
    {
        let byte = input[consumed];
        let (a, b, c, cost) = escape_of(byte);
        proof {
            lemma_escape_take(input@, consumed as int);
        }
        if written + cost >= MAX_LINE_BYTES {
            break;
        }
        let ghost before = output@;
        if cost == 3 {
            output[written] = a;
            output[written + 1] = b;
            output[written + 2] = c;
        } else {
            output[written] = byte;
        }
        assert(output@.take(written + cost) =~= before.take(written as int) + escape_byte(byte));
        assert(output@.skip(written + cost) =~= old(output)@.skip(written + cost)) by {
            assert(before.skip(written as int).skip(cost as int) =~= before.skip(written + cost));
            assert(old(output)@.skip(written as int).skip(cost as int) =~= old(output)@.skip(
                written + cost,
            ));
        }
        written += cost;
        consumed += 1;
    }
    let ghost before = output@;
    output[written] = LF;
    assert(output@.take(written + 1) =~= before.take(written as int) + seq![LF]);
    assert(output@.skip(written + 1) =~= old(output)@.skip(written + 1)) by {
        assert(before.skip(written as int).skip(1) =~= before.skip(written + 1));
        assert(old(output)@.skip(written as int).skip(1) =~= old(output)@.skip(written + 1));
    }
    Ok((consumed, written + 1))
}

} // verus!
