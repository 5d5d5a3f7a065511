//! HELP output: command metadata split into comment lines within the wire
//! limit, never inside a UTF-8 character.
use vstd::prelude::*;
use vstd::string::StringSliceAdditionalSpecFns;

use super::error::HandlerError;
use crate::protocol::command::{line_byte, valid_line, valid_token, Command};
use crate::protocol::encode::{concat, lemma_check_parts_valid, lemma_concat_split};
use crate::protocol::encode_response;
use crate::protocol::error::ProtocolError;
use crate::protocol::message::ServerLine;
use crate::protocol::wire::{HASH, LF, MAX_LINE_BYTES, SPACE};
use super::registry::{word_bye, word_help, word_nop, word_option, word_reset};
use vstd::utf8::{length_of_first_scalar, pop_first_scalar, valid_utf8};

verus! {

/// The most text bytes one HELP comment carries: the line also holds `#`,
/// a space and LF.
pub const HELP_CHUNK_BYTES: usize = 997;

/// A UTF-8 continuation byte, which never starts a character.
pub open spec fn continuation(b: u8) -> bool {
    0x80 <= b < 0xc0
}

/// The number of continuation bytes from `i` on.
pub open spec fn continuation_run(s: Seq<u8>, i: int) -> nat
    decreases s.len() - i,
{
    if 0 <= i < s.len() && continuation(s[i]) {
        1 + continuation_run(s, i + 1)
    } else {
        0
    }
}

/// The byte length of the character that starts at `i`.
pub open spec fn char_width(s: Seq<u8>, i: int) -> int {
    (1 + continuation_run(s, i + 1)) as int
}

/// A position between characters: the end, or a byte that starts one.
pub open spec fn char_start(s: Seq<u8>, i: int) -> bool {
    i == s.len() || (0 <= i < s.len() && !continuation(s[i]))
}

/// The text of a command's HELP entry: its name, a space and its description.
pub open spec fn help_text(name: Seq<u8>, description: Seq<u8>) -> Seq<u8> {
    name + seq![SPACE] + description
}

/// Chunks split `text` greedily: they concatenate to it, each holds between
/// one and `HELP_CHUNK_BYTES` bytes, each ends between characters, and each
/// but the last would overflow if it also took the next character.
pub open spec fn greedy_chunks(text: Seq<u8>, chunks: Seq<Seq<u8>>) -> bool {
    &&& concat(chunks) == text
    &&& forall|k: int|
        0 <= k < chunks.len() ==> 1 <= (#[trigger] chunks[k]).len() <= HELP_CHUNK_BYTES
    &&& forall|k: int|
        0 <= k < chunks.len() ==> char_start(text, (#[trigger] concat(chunks.take(k + 1))).len() as int)
    &&& forall|k: int|
        0 <= k < chunks.len() - 1 ==> (#[trigger] chunks[k]).len() + char_width(
            text,
            concat(chunks.take(k + 1)).len() as int,
        ) > HELP_CHUNK_BYTES
}

/// The comment line that carries one chunk: `#`, a space, the chunk and LF.
pub open spec fn comment_line(chunk: Seq<u8>) -> Seq<u8> {
    seq![HASH, SPACE] + chunk + seq![LF]
}

/// Continuation runs past a prefix are those of the rest of the sequence.
proof fn lemma_run_shift(s: Seq<u8>, w: int, j: int)
    requires
        0 <= w <= j,
        w <= s.len(),
    ensures
        continuation_run(s, j) == continuation_run(s.subrange(w, s.len() as int), j - w),
    decreases s.len() - j,
{
    if j < s.len() {
        lemma_run_shift(s, w, j + 1);
    }
}

/// In valid UTF-8 the first byte starts a character, and every byte that
/// starts a character is followed by at most three continuation bytes.
proof fn lemma_utf8_widths(s: Seq<u8>)
    requires
        valid_utf8(s),
    ensures
        s.len() > 0 ==> !continuation(s[0]),
        forall|i: int| 0 <= i < s.len() && !continuation(s[i]) ==> continuation_run(s, i + 1) <= 3,
    decreases s.len(),
{
    if s.len() > 0 {
        let w = length_of_first_scalar(s);
        let rest = pop_first_scalar(s);
        assert(1 <= w <= 4 && w <= s.len());
        assert(rest.len() < s.len());
        lemma_utf8_widths(rest);
        assert forall|k: int| 1 <= k < w implies continuation(s[k]) by {}
        assert(w < s.len() ==> !continuation(s[w])) by {
            if w < s.len() {
                assert(rest[0] == s[w]);
            }
        }
        assert(continuation_run(s, 1) == w - 1) by {
            assert forall|k: int| 1 <= k <= w implies #[trigger] continuation_run(s, k) == w - k by {
                lemma_run_down(s, k, w);
            }
        }
        assert forall|i: int| 0 <= i < s.len() && !continuation(s[i]) implies continuation_run(
            s,
            i + 1,
        ) <= 3 by {
            if i >= w {
                lemma_run_shift(s, w, i + 1);
                assert(rest[i - w] == s[i]);
            }
        }
    }
}

/// A run of continuation bytes up to a non-continuation byte at `end`.
proof fn lemma_run_down(s: Seq<u8>, k: int, end: int)
    requires
        1 <= k <= end <= s.len(),
        forall|j: int| k <= j < end ==> continuation(s[j]),
        end < s.len() ==> !continuation(s[end]),
    ensures
        continuation_run(s, k) == end - k,
    decreases end - k,
{
    if k < end {
        lemma_run_down(s, k + 1, end);
    }
}

/// The number of continuation bytes from `i` on.
fn continuation_bytes(s: &[u8], i: usize) -> (n: usize)
    requires
        i <= s@.len(),
    ensures
        n == continuation_run(s@, i as int),
        i + n <= s@.len(),
{
    let mut j: usize = i;
    while j < s.len() && 0x80 <= s[j] && s[j] < 0xc0
        invariant
            i <= j <= s@.len(),
            continuation_run(s@, i as int) == (j - i) + continuation_run(s@, j as int),
        decreases s@.len() - j,
    {
        j = j + 1;
    }
    j - i
}

/// Encodes one comment line carrying `chunk`.
fn comment(chunk: &[u8]) -> (line: Vec<u8>)
    requires
        1 <= chunk@.len() <= HELP_CHUNK_BYTES,
        valid_line(chunk@),
    ensures
        line@ == comment_line(chunk@),
{
    let mut body: Vec<u8> = Vec::new();
    body.push(SPACE);
    let mut i: usize = 0;
    while i < chunk.len()
        invariant
            i <= chunk@.len(),
            body@ == seq![SPACE] + chunk@.take(i as int),
        decreases chunk@.len() - i,
    {
        body.push(chunk[i]);
        proof {
            assert(chunk@.take(i + 1) =~= chunk@.take(i as int).push(chunk@[i as int]));
        }
        i = i + 1;
    }
    assert(chunk@.take(chunk@.len() as int) =~= chunk@);
    let mut output = [0u8; MAX_LINE_BYTES];
    let ghost parts = seq![seq![HASH], body@];
    proof {
        assert(valid_line(body@)) by {
            assert forall|k: int| 0 <= k < body@.len() implies #[trigger] line_byte(body@[k]) by {
                if k > 0 {
                    assert(body@[k] == chunk@[k - 1]);
                }
            }
        }
        assert(valid_line(seq![HASH])) by {
            assert forall|k: int| 0 <= k < 1 implies #[trigger] line_byte(seq![HASH][k]) by {}
        }
        assert forall|k: int| 0 <= k < parts.len() implies valid_line(#[trigger] parts[k]) by {}
        lemma_concat_split(parts, 1);
        assert(parts.take(1).drop_last() =~= Seq::<Seq<u8>>::empty());
        assert(concat(Seq::<Seq<u8>>::empty()) =~= Seq::<u8>::empty());
        assert(parts.take(1).last() == seq![HASH]);
        assert(concat(parts.take(1)) =~= seq![HASH]);
        assert(parts.skip(1).drop_last() =~= Seq::<Seq<u8>>::empty());
        assert(concat(parts.skip(1)) =~= body@);
        lemma_check_parts_valid(parts, 1);
    }
    let len = match encode_response(ServerLine::Comment(body.as_slice()), &mut output) {
        Ok(len) => len,
        Err(_) => 0,
    };
    let mut line: Vec<u8> = Vec::new();
    let mut k: usize = 0;
    while k < len
        invariant
            k <= len,
            len <= MAX_LINE_BYTES,
            line@ == output@.take(k as int),
        decreases len - k,
    {
        line.push(output[k]);
        proof {
            assert(output@.take(k + 1) =~= output@.take(k as int).push(output@[k as int]));
        }
        k = k + 1;
    }
    assert(line@ =~= comment_line(chunk@));
    line
}

/// The HELP comment lines of one command: its name, a space and its
/// description, split greedily into chunks of at most `HELP_CHUNK_BYTES`
/// bytes between characters. Metadata that is not a valid command line is a
/// protocol failure.
pub fn help_entry(name: &str, description: &str) -> (r: Result<Vec<Vec<u8>>, HandlerError>)
    ensures
        !valid_token(name.spec_bytes()) ==> r matches Err(
            HandlerError::Protocol(ProtocolError::InvalidToken),
        ),
        valid_token(name.spec_bytes()) && !valid_line(description.spec_bytes()) ==> r matches Err(
            HandlerError::Protocol(ProtocolError::InvalidLine),
        ),
        r is Ok <==> valid_token(name.spec_bytes()) && valid_line(description.spec_bytes()),
        r matches Ok(lines) ==> exists|chunks: Seq<Seq<u8>>|
            {
                &&& greedy_chunks(help_text(name.spec_bytes(), description.spec_bytes()), chunks)
                &&& lines@.len() == chunks.len()
                &&& forall|k: int|
                    0 <= k < chunks.len() ==> (#[trigger] lines@[k])@ == comment_line(chunks[k])
            },
{
    match Command::new(name, description.as_bytes()) {
        Err(e) => {
            return Err(HandlerError::Protocol(e));
        },
        Ok(_) => {},
    }
    let name_bytes = name.as_bytes();
    let description_bytes = description.as_bytes();
    let mut text: Vec<u8> = Vec::new();
    let mut i: usize = 0;
    while i < name_bytes.len()
        invariant
            i <= name_bytes@.len(),
            text@ == name_bytes@.take(i as int),
        decreases name_bytes@.len() - i,
    {
        text.push(name_bytes[i]);
        proof {
            assert(name_bytes@.take(i + 1) =~= name_bytes@.take(i as int).push(name_bytes@[i as int]));
        }
        i = i + 1;
    }
    assert(name_bytes@.take(name_bytes@.len() as int) =~= name_bytes@);
    text.push(SPACE);
    let mut j: usize = 0;
    while j < description_bytes.len()
        invariant
            j <= description_bytes@.len(),
            text@ == name_bytes@ + seq![SPACE] + description_bytes@.take(j as int),
        decreases description_bytes@.len() - j,
    {
        text.push(description_bytes[j]);
        proof {
            assert(description_bytes@.take(j + 1) =~= description_bytes@.take(j as int).push(
                description_bytes@[j as int],
            ));
        }
        j = j + 1;
    }
    assert(description_bytes@.take(description_bytes@.len() as int) =~= description_bytes@);
    proof {
        vstd::utf8::encode_utf8_valid_utf8(name@);
        vstd::utf8::encode_utf8_valid_utf8(description@);
        assert(valid_utf8(seq![SPACE])) by {
            crate::protocol::text::lemma_ascii_is_utf8(seq![SPACE]);
        }
        vstd::utf8::valid_utf8_concat(name_bytes@, seq![SPACE]);
        vstd::utf8::valid_utf8_concat(name_bytes@ + seq![SPACE], description_bytes@);
        assert(text@ == help_text(name_bytes@, description_bytes@));
        assert(valid_line(text@)) by {
            assert forall|k: int| 0 <= k < text@.len() implies #[trigger] line_byte(text@[k]) by {
                if k < name_bytes@.len() {
                    assert(text@[k] == name_bytes@[k]);
                    assert(crate::protocol::command::token_byte(name_bytes@[k]));
                } else if k > name_bytes@.len() {
                    assert(text@[k] == description_bytes@[k - name_bytes@.len() - 1]);
                }
            }
        }
    }
    chunk_lines(text.as_slice())
}

/// The chunks so far satisfy the greedy rules, each of them followed by
/// more text.
spec fn chunks_so_far(text: Seq<u8>, chunks: Seq<Seq<u8>>) -> bool {
    &&& forall|k: int|
        0 <= k < chunks.len() ==> 1 <= (#[trigger] chunks[k]).len() <= HELP_CHUNK_BYTES
    &&& forall|k: int|
        0 <= k < chunks.len() ==> char_start(text, (#[trigger] concat(chunks.take(k + 1))).len() as int)
    &&& forall|k: int|
        0 <= k < chunks.len() ==> (#[trigger] chunks[k]).len() + char_width(
            text,
            concat(chunks.take(k + 1)).len() as int,
        ) > HELP_CHUNK_BYTES
}

/// Appending a chunk that ends at `end` keeps the earlier chunks' prefixes.
proof fn lemma_push_chunk(chunks: Seq<Seq<u8>>, piece: Seq<u8>)
    ensures
        forall|k: int|
            0 <= k < chunks.len() ==> #[trigger] chunks.push(piece).take(k + 1) == chunks.take(k + 1),
        chunks.push(piece).take(chunks.len() + 1int) == chunks.push(piece),
        concat(chunks.push(piece)) == concat(chunks) + piece,
{
    assert forall|k: int| 0 <= k < chunks.len() implies #[trigger] chunks.push(piece).take(k + 1)
        == chunks.take(k + 1) by {
        assert(chunks.push(piece).take(k + 1) =~= chunks.take(k + 1));
    }
    assert(chunks.push(piece).take(chunks.len() + 1int) =~= chunks.push(piece));
    assert(chunks.push(piece).drop_last() =~= chunks);
}

/// Splits valid UTF-8 `text`, which holds no CR, LF or NUL, greedily into
/// comment lines.
fn chunk_lines(text: &[u8]) -> (r: Result<Vec<Vec<u8>>, HandlerError>)
    requires
        text@.len() >= 1,
        valid_utf8(text@),
        valid_line(text@),
    ensures
        r matches Ok(lines) && exists|chunks: Seq<Seq<u8>>|
            {
                &&& greedy_chunks(text@, chunks)
                &&& lines@.len() == chunks.len()
                &&& forall|k: int|
                    0 <= k < chunks.len() ==> (#[trigger] lines@[k])@ == comment_line(chunks[k])
            },
{
    proof {
        lemma_utf8_widths(text@);
    }
    let len = text.len();
    let mut lines: Vec<Vec<u8>> = Vec::new();
    let ghost mut chunks: Seq<Seq<u8>> = Seq::empty();
    let mut start: usize = 0;
    let mut pos: usize = 0;
    assert(concat(chunks) =~= Seq::<u8>::empty());
    assert(text@.take(0) =~= Seq::<u8>::empty());
    while pos < len
        invariant
            len == text@.len(),
            len >= 1,
            valid_line(text@),
            forall|i: int|
                0 <= i < text@.len() && !continuation(text@[i]) ==> continuation_run(text@, i + 1)
                    <= 3,
            !continuation(text@[0]),
            start <= pos <= len,
            pos > start || pos == 0,
            pos - start <= HELP_CHUNK_BYTES,
            char_start(text@, pos as int),
            concat(chunks) == text@.take(start as int),
            lines@.len() == chunks.len(),
            forall|k: int| 0 <= k < chunks.len() ==> (#[trigger] lines@[k])@ == comment_line(chunks[k]),
            chunks_so_far(text@, chunks),
        decreases len - pos,
    {
        let width = 1 + continuation_bytes(text, pos + 1);
        assert(width == char_width(text@, pos as int));
        assert(width <= 4);
        if pos + width - start > HELP_CHUNK_BYTES && pos > start {
            let piece = vstd::slice::slice_subrange(text, start, pos);
            proof {
                assert forall|k: int| 0 <= k < piece@.len() implies #[trigger] line_byte(piece@[k]) by {
                    assert(piece@[k] == text@[start + k]);
                }
            }
            let line = comment(piece);
            proof {
                lemma_push_chunk(chunks, piece@);
                assert(text@.take(pos as int) =~= text@.take(start as int) + piece@);
                chunks = chunks.push(piece@);
            }
            lines.push(line);
            start = pos;
        }
        proof {
            let next = pos + width;
            if next < len {
                assert(continuation_run(text@, pos + 1) == next - (pos + 1) + continuation_run(
                    text@,
                    next,
                )) by {
                    lemma_run_split(text@, pos + 1, next);
                }
            }
        }
        pos = pos + width;
    }
    let piece = vstd::slice::slice_subrange(text, start, len);
    proof {
        assert forall|k: int| 0 <= k < piece@.len() implies #[trigger] line_byte(piece@[k]) by {
            assert(piece@[k] == text@[start + k]);
        }
    }
    let line = comment(piece);
    proof {
        lemma_push_chunk(chunks, piece@);
        assert(text@ =~= text@.take(start as int) + piece@);
        chunks = chunks.push(piece@);
    }
    lines.push(line);
    assert(greedy_chunks(text@, chunks));
    Ok(lines)
}

/// A continuation run that reaches `end` continues from there.
proof fn lemma_run_split(s: Seq<u8>, k: int, end: int)
    requires
        1 <= k <= end,
        continuation_run(s, k) >= end - k,
    ensures
        continuation_run(s, k) == (end - k) + continuation_run(s, end),
    decreases end - k,
{
    if k < end {
        lemma_run_split(s, k + 1, end);
    }
}

/// The commands every session provides, with their HELP descriptions, in
/// the order HELP lists them before registered handlers.
pub fn builtin_commands() -> (list: [(&'static str, &'static str); 5])
    ensures
        list@[0].0.spec_bytes() == word_nop(),
        list@[1].0.spec_bytes() == word_bye(),
        list@[2].0.spec_bytes() == word_help(),
        list@[3].0.spec_bytes() == word_reset(),
        list@[4].0.spec_bytes() == word_option(),
        list@[0].1@ == "No operation"@,
        list@[1].1@ == "Close this connection"@,
        list@[2].1@ == "List commands"@,
        list@[3].1@ == "Reset transient session state"@,
        list@[4].1@ == "Set a session option"@,
{
    proof {
        broadcast use vstd::string::is_ascii_spec_bytes;

        reveal_strlit("NOP");
        reveal_strlit("BYE");
        reveal_strlit("HELP");
        reveal_strlit("RESET");
        reveal_strlit("OPTION");
        assert(vstd::string::is_ascii("NOP"));
        assert("NOP".spec_bytes() =~= word_nop());
        assert(vstd::string::is_ascii("BYE"));
        assert("BYE".spec_bytes() =~= word_bye());
        assert(vstd::string::is_ascii("HELP"));
        assert("HELP".spec_bytes() =~= word_help());
        assert(vstd::string::is_ascii("RESET"));
        assert("RESET".spec_bytes() =~= word_reset());
        assert(vstd::string::is_ascii("OPTION"));
        assert("OPTION".spec_bytes() =~= word_option());
    }
    [
        ("NOP", "No operation"),
        ("BYE", "Close this connection"),
        ("HELP", "List commands"),
        ("RESET", "Reset transient session state"),
        ("OPTION", "Set a session option"),
    ]
}

} // verus!
