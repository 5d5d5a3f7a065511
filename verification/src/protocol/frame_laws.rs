//! Framing does not depend on how the input is split into chunks.
use vstd::prelude::*;

use super::error::ProtocolError;
use super::frame::{
    empty_frame, frame_feed, law_feed_split, lemma_lf_index, lemma_lf_index_bound, lf_index,
    FrameView,
};
use super::wire::{CR, LF, MAX_LINE_BYTES};

verus! {

/// A buffer between lines: nothing complete, nothing failed, room for more.
pub open spec fn between_lines(v: FrameView) -> bool {
    !v.ready && !v.failed && v.pending.len() < MAX_LINE_BYTES
}

/// The line a ready buffer holds, without its terminator.
pub open spec fn ready_line(v: FrameView) -> Seq<u8> {
    v.pending.take(v.content_len as int)
}

/// Framing one chunk with a buffer in state `v`: the chunk is fed until it
/// is consumed, and each complete line is taken and the buffer cleared.
/// Yields the final state and the lines taken, or the first framing failure.
pub open spec fn frame_chunk(v: FrameView, chunk: Seq<u8>) -> Result<
    (FrameView, Seq<Seq<u8>>),
    ProtocolError,
>
    decreases chunk.len(),
{
    if chunk.len() == 0 {
        Ok((v, Seq::empty()))
    } else {
        let (fed, r) = frame_feed(v, chunk);
        match r {
            Err(e) => Err(e),
            Ok(k) => if k == 0 || k > chunk.len() {
                Ok((fed, Seq::empty()))
            } else {
                let next = if fed.ready {
                    empty_frame()
                } else {
                    fed
                };
                let taken: Seq<Seq<u8>> = if fed.ready {
                    seq![ready_line(fed)]
                } else {
                    Seq::empty()
                };
                match frame_chunk(next, chunk.skip(k as int)) {
                    Err(e) => Err(e),
                    Ok((last, more)) => Ok((last, taken + more)),
                }
            },
        }
    }
}

/// Framing a further chunk after an earlier outcome.
pub open spec fn then_chunk(
    earlier: Result<(FrameView, Seq<Seq<u8>>), ProtocolError>,
    chunk: Seq<u8>,
) -> Result<(FrameView, Seq<Seq<u8>>), ProtocolError> {
    match earlier {
        Err(e) => Err(e),
        Ok((w, lines)) => match frame_chunk(w, chunk) {
            Err(e) => Err(e),
            Ok((last, more)) => Ok((last, lines + more)),
        },
    }
}

/// Framing a sequence of chunks, one after the other.
pub open spec fn frame_chunks(v: FrameView, chunks: Seq<Seq<u8>>) -> Result<
    (FrameView, Seq<Seq<u8>>),
    ProtocolError,
>
    decreases chunks.len(),
{
    if chunks.len() == 0 {
        Ok((v, Seq::empty()))
    } else {
        match frame_chunk(v, chunks[0]) {
            Err(e) => Err(e),
            Ok((w, lines)) => match frame_chunks(w, chunks.drop_first()) {
                Err(e) => Err(e),
                Ok((last, more)) => Ok((last, lines + more)),
            },
        }
    }
}

/// Feeding nonempty input to a buffer between lines consumes at least one of
/// its bytes, and leaves the buffer ready or again between lines.
pub proof fn law_feed_progress(v: FrameView, input: Seq<u8>)
    requires
        between_lines(v),
        input.len() > 0,
    ensures
        frame_feed(v, input).1 matches Ok(k) ==> 1 <= k <= input.len() && (frame_feed(
            v,
            input,
        ).0.ready || between_lines(frame_feed(v, input).0)),
{
    lemma_lf_index_bound(input);
}

/// Framing a chunk from a buffer between lines leaves it between lines.
proof fn lemma_chunk_state(v: FrameView, chunk: Seq<u8>)
    requires
        between_lines(v),
    ensures
        frame_chunk(v, chunk) matches Ok((w, _)) ==> between_lines(w),
    decreases chunk.len(),
{
    if chunk.len() > 0 {
        law_feed_progress(v, chunk);
        let (fed, r) = frame_feed(v, chunk);
        if let Ok(k) = r {
            if 1 <= k <= chunk.len() {
                let next = if fed.ready {
                    empty_frame()
                } else {
                    fed
                };
                lemma_chunk_state(next, chunk.skip(k as int));
            }
        }
    }
}

/// Joining input after a piece without LF moves the first LF by the piece.
proof fn lemma_lf_index_append(a: Seq<u8>, b: Seq<u8>)
    requires
        lf_index(a) == a.len(),
    ensures
        lf_index(a + b) == a.len() + lf_index(b),
{
    lemma_lf_index_bound(a);
    lemma_lf_index_bound(b);
    let ab = a + b;
    let jb = lf_index(b);
    assert forall|j: int| 0 <= j < a.len() + jb implies ab[j] != 0x0au8 by {
        if j >= a.len() {
            assert(ab[j] == b[j - a.len()]);
        } else {
            assert(ab[j] == a[j]);
        }
    }
    if jb < b.len() {
        assert(ab[a.len() + jb] == b[jb]);
    }
    lemma_lf_index(ab, a.len() + jb);
}

/// Joining input after a piece that holds an LF leaves the feed unchanged.
proof fn lemma_feed_before_lf(v: FrameView, a: Seq<u8>, b: Seq<u8>)
    requires
        lf_index(a) < a.len(),
    ensures
        frame_feed(v, a + b) == frame_feed(v, a),
{
    lemma_lf_index_bound(a);
    let ab = a + b;
    let ja = lf_index(a);
    assert forall|j: int| 0 <= j < ja implies ab[j] != 0x0au8 by {
        assert(ab[j] == a[j]);
    }
    assert(ab[ja] == a[ja]);
    lemma_lf_index(ab, ja);
    assert(ab.take(ja + 1) =~= a.take(ja + 1));
}

/// The case of `lemma_chunk_append` where the first chunk completes a line.
proof fn lemma_append_after_line(v: FrameView, a: Seq<u8>, b: Seq<u8>)
    requires
        between_lines(v),
        lf_index(a) < a.len(),
    ensures
        frame_chunk(v, a + b) == then_chunk(frame_chunk(v, a), b),
    decreases a.len(), 0int,
{
    lemma_lf_index_bound(a);
    lemma_feed_before_lf(v, a, b);
    let ab = a + b;
    let (fed, r) = frame_feed(v, a);
    if let Ok(k) = r {
        let taken = seq![ready_line(fed)];
        assert(fed.ready);
        assert(ab.skip(k as int) =~= a.skip(k as int) + b);
        lemma_chunk_append(empty_frame(), a.skip(k as int), b);
        if let Ok((w, m)) = frame_chunk(empty_frame(), a.skip(k as int)) {
            if let Ok((last, more)) = frame_chunk(w, b) {
                assert(taken + (m + more) =~= (taken + m) + more);
            }
        }
    }
}

/// The case of `lemma_chunk_append` where the first chunk is buffered whole.
proof fn lemma_append_buffered(v: FrameView, a: Seq<u8>, b: Seq<u8>)
    requires
        between_lines(v),
        a.len() > 0,
        lf_index(a) == a.len(),
        v.pending.len() + a.len() < MAX_LINE_BYTES,
    ensures
        frame_chunk(v, a + b) == then_chunk(frame_chunk(v, a), b),
{
    law_feed_split(v, a, b);
    let ab = a + b;
    let v1 = FrameView { pending: v.pending + a, ..v };
    let nothing = Seq::<Seq<u8>>::empty();
    assert(a.skip(a.len() as int) =~= Seq::<u8>::empty());
    assert(frame_chunk(v1, a.skip(a.len() as int)) == Ok::<(FrameView, Seq<Seq<u8>>), ProtocolError>((v1, nothing)));
    assert(frame_chunk(v, a) == Ok::<(FrameView, Seq<Seq<u8>>), ProtocolError>((v1, nothing + nothing)));
    if b.len() == 0 {
        assert(ab =~= a);
        assert((nothing + nothing) + nothing =~= nothing + nothing);
    } else {
        lemma_lf_index_append(a, b);
        lemma_lf_index_bound(b);
        law_feed_progress(v, ab);
        law_feed_progress(v1, b);
        let (fed, r) = frame_feed(v, ab);
        if let Ok(k) = r {
            assert(k >= a.len() + 1);
            assert(ab.skip(k as int) =~= b.skip(k - a.len()));
        }
        assert(frame_chunk(v, ab) == frame_chunk(v1, b));
        if let Ok((last, more)) = frame_chunk(v1, b) {
            assert((nothing + nothing) + more =~= more);
        }
    }
}

/// The case of `lemma_chunk_append` where the first chunk overflows the line.
proof fn lemma_append_overflow(v: FrameView, a: Seq<u8>, b: Seq<u8>)
    requires
        between_lines(v),
        a.len() > 0,
        lf_index(a) == a.len(),
        v.pending.len() + a.len() >= MAX_LINE_BYTES,
    ensures
        frame_chunk(v, a + b) == then_chunk(frame_chunk(v, a), b),
{
    lemma_lf_index_append(a, b);
    lemma_lf_index_bound(b);
}

/// Framing two chunks joined is framing one and then the other.
proof fn lemma_chunk_append(v: FrameView, a: Seq<u8>, b: Seq<u8>)
    requires
        between_lines(v),
    ensures
        frame_chunk(v, a + b) == then_chunk(frame_chunk(v, a), b),
    decreases a.len(), 1int,
{
    lemma_lf_index_bound(a);
    if a.len() == 0 {
        assert(a + b =~= b);
        if let Ok((last, more)) = frame_chunk(v, b) {
            assert(Seq::<Seq<u8>>::empty() + more =~= more);
        }
    } else if lf_index(a) < a.len() {
        lemma_append_after_line(v, a, b);
    } else if v.pending.len() + a.len() < MAX_LINE_BYTES {
        lemma_append_buffered(v, a, b);
    } else {
        lemma_append_overflow(v, a, b);
    }
}

/// However input is split into chunks, framing the chunks one after another
/// takes exactly the lines, reaches exactly the final state, and meets
/// exactly the failure of framing the whole input at once.
pub proof fn law_every_split_frames_the_same_lines(v: FrameView, chunks: Seq<Seq<u8>>)
    requires
        between_lines(v),
    ensures
        frame_chunks(v, chunks) == frame_chunk(v, chunks.flatten()),
    decreases chunks.len(),
{
    if chunks.len() > 0 {
        let rest = chunks.drop_first();
        lemma_chunk_append(v, chunks[0], rest.flatten());
        lemma_chunk_state(v, chunks[0]);
        if let Ok((w, lines)) = frame_chunk(v, chunks[0]) {
            law_every_split_frames_the_same_lines(w, rest);
        }
    }
}

/// A line fed whole to an empty buffer is consumed through its LF, and the
/// line it yields is the bytes before the LF, less one CR only where a CR
/// stands right before the LF; every other byte, spaces included, is kept.
pub proof fn law_line_drops_only_its_terminator(c: Seq<u8>)
    requires
        forall|i: int| 0 <= i < c.len() ==> c[i] != LF,
        c.len() < MAX_LINE_BYTES,
    ensures
        frame_feed(empty_frame(), c.push(LF)).1 == Ok::<usize, ProtocolError>((c.len() + 1) as usize),
        frame_feed(empty_frame(), c.push(LF)).0.ready,
        ready_line(frame_feed(empty_frame(), c.push(LF)).0) == (if c.len() > 0 && c.last() == CR {
            c.drop_last()
        } else {
            c
        }),
{
    let input = c.push(LF);
    lemma_lf_index(input, c.len() as int);
    let line = empty_frame().pending + input.take(c.len() + 1int);
    assert(line =~= input);
    let fed = frame_feed(empty_frame(), input).0;
    assert(fed.pending =~= input);
    if c.len() > 0 && c.last() == CR {
        assert(input[c.len() - 1] == CR);
        assert(fed.pending.take(fed.content_len as int) =~= c.drop_last());
    } else {
        assert(fed.pending.take(fed.content_len as int) =~= c);
    }
}

} // verus!
