//! Incremental line framing in fixed, wiped storage.
use vstd::prelude::*;

use super::error::ProtocolError;
use super::protected::{
    line_bytes, line_get, line_prefix, line_prefix_mut, line_set, line_wipe, protect_line,
    ProtectedLine,
};
use super::wire::{CR, LF, MAX_LINE_BYTES};

verus! {

/// The index of the first LF, or the length when there is none.
pub open spec fn lf_index(s: Seq<u8>) -> int
    decreases s.len(),
{
    if s.len() == 0 {
        0
    } else if s[0] == LF {
        0
    } else {
        1 + lf_index(s.skip(1))
    }
}

/// `lf_index` is the position of the first LF, or the length.
pub proof fn lemma_lf_index(s: Seq<u8>, i: int)
    requires
        0 <= i <= s.len(),
        forall|j: int| 0 <= j < i ==> s[j] != LF,
        i == s.len() || s[i] == LF,
    ensures
        lf_index(s) == i,
    decreases i,
{
    if i > 0 {
        lemma_lf_index(s.skip(1), i - 1);
    }
}

/// The length of a terminated line without its LF and an optional CR before it.
pub open spec fn content_length(line: Seq<u8>) -> nat {
    let c = line.len() - 1;
    if c > 0 && line[c - 1] == CR {
        (c - 1) as nat
    } else {
        c as nat
    }
}

/// The observable state of a line buffer.
#[verifier::ext_equal]
pub struct FrameView {
    /// Bytes received for the current line, including its LF once complete.
    pub pending: Seq<u8>,
    /// A complete line is available.
    pub ready: bool,
    /// The length of the complete line without its terminator.
    pub content_len: nat,
    /// Framing failed; the buffer stays failed until cleared.
    pub failed: bool,
}

/// The state of a buffer that holds nothing.
pub open spec fn empty_frame() -> FrameView {
    FrameView { pending: Seq::empty(), ready: false, content_len: 0, failed: false }
}

/// The effect of feeding input bytes, and the feed result.
///
/// Bytes are consumed through at most the first LF. Both LF and CRLF count
/// toward the wire limit; a line that cannot fit its terminator fails the
/// buffer. A ready or failed buffer consumes nothing.
pub open spec fn frame_feed(v: FrameView, input: Seq<u8>) -> (FrameView, Result<usize, ProtocolError>) {
    let j = lf_index(input);
    if v.failed {
        (v, Err(ProtocolError::LineTooLong))
    } else if v.ready {
        (v, Ok(0))
    } else if j < input.len() && v.pending.len() + j < MAX_LINE_BYTES {
        let line = v.pending + input.take(j + 1);
        (
            FrameView { pending: line, ready: true, content_len: content_length(line), failed: false },
            Ok((j + 1) as usize),
        )
    } else if j == input.len() && v.pending.len() + input.len() < MAX_LINE_BYTES {
        (FrameView { pending: v.pending + input, ..v }, Ok(input.len() as usize))
    } else {
        (FrameView { failed: true, ..empty_frame() }, Err(ProtocolError::LineTooLong))
    }
}

/// Incrementally assembles one line in fixed storage, without heap allocation.
///
/// A complete line remains available until [`LineBuffer::clear`]. Storage is
/// wiped on clear, framing failure and drop. Debug output never includes
/// buffered bytes.
pub struct LineBuffer {
    storage: ProtectedLine,
    len: usize,
    ready: bool,
    content_len: usize,
    failed: bool,
}

impl View for LineBuffer {
    type V = FrameView;

    closed spec fn view(&self) -> FrameView {
        FrameView {
            pending: line_bytes(self.storage).take(self.len as int),
            ready: self.ready,
            content_len: self.content_len as nat,
            failed: self.failed,
        }
    }
}

impl LineBuffer {
    #[verifier::type_invariant]
    closed spec fn inv(&self) -> bool {
        &&& line_bytes(self.storage).len() == MAX_LINE_BYTES
        &&& self.len <= MAX_LINE_BYTES
        &&& self.content_len <= self.len
        &&& (!self.ready && !self.failed ==> self.len < MAX_LINE_BYTES)
        &&& (self.failed ==> self.len == 0 && !self.ready)
        &&& (!self.ready ==> self.content_len == 0)
    }

    /// Every byte of the storage is zero.
    pub closed spec fn wiped(&self) -> bool {
        forall|i: int| 0 <= i < line_bytes(self.storage).len() ==> #[trigger] line_bytes(
            self.storage,
        )[i] == 0u8
    }

    /// Creates an empty, zero-initialized line buffer.
    pub fn new() -> (b: Self)
        ensures
            b@ == empty_frame(),
            b.wiped(),
    {
        let b = Self { storage: protect_line(), len: 0, ready: false, content_len: 0, failed: false };
        assert(line_bytes(b.storage).take(0) =~= Seq::<u8>::empty());
        b
    }

    /// Consumes bytes through at most the first LF and returns the amount used.
    ///
    /// Returns zero when a line is already ready or `input` is empty. A CR not
    /// followed by LF stays in the line for the protocol parser to reject.
    /// Failure wipes the storage and stays until [`LineBuffer::clear`].
    pub fn feed(&mut self, input: &[u8]) -> (r: Result<usize, ProtocolError>)
        ensures
            final(self)@ == frame_feed(old(self)@, input@).0,
            r == frame_feed(old(self)@, input@).1,
            r is Err ==> final(self).wiped() || old(self)@.failed,
    {
        proof {
            use_type_invariant(&*self);
        }
        if self.failed {
            return Err(ProtocolError::LineTooLong);
        }
        if self.ready {
            return Ok(0);
        }
        let ghost start = self@.pending;
        let count = input.len();
        let mut index: usize = 0;
        assert(input@.take(0) =~= Seq::<u8>::empty());
        assert(start + input@.take(0) =~= start);
        while index < count
            invariant
                count == input@.len(),
                index <= count,
                !self.ready,
                !self.failed,
                self.content_len == 0,
                line_bytes(self.storage).len() == MAX_LINE_BYTES,
                self.len == start.len() + index,
                self.len < MAX_LINE_BYTES,
                self@.pending == start + input@.take(index as int),
                forall|k: int| 0 <= k < index ==> input@[k] != LF,
                old(self)@.pending == start,
                !old(self)@.ready,
                !old(self)@.failed,
            decreases count - index,
        {
            let byte = input[index];
            let ghost before = line_bytes(self.storage);
            let position = self.len;
            line_set(&mut self.storage, position, byte);
            let new_len = position + 1;
            assert(before.take(position as int) == start + input@.take(index as int));
            assert(line_bytes(self.storage).take(new_len as int) =~= before.take(position as int).push(byte));
            assert(input@.take(index + 1) =~= input@.take(index as int).push(byte));
            assert(line_bytes(self.storage).take(new_len as int) =~= start + input@.take(index + 1));
            if byte == LF {
                proof {
                    lemma_lf_index(input@, index as int);
                }
                let mut content = position;
                let ghost line = start + input@.take(index + 1);
                assert(line.len() == new_len);
                if content > 0 {
                    let previous = line_get(&self.storage, content - 1);
                    assert(previous == line[content - 1]) by {
                        assert(line_bytes(self.storage).take(new_len as int)[content - 1] == line_bytes(self.storage)[content - 1]);
                    }
                    if previous == CR {
                        content = content - 1;
                    }
                }
                self.ready = true;
                self.len = new_len;
                self.content_len = content;
                assert(self@ =~= frame_feed(old(self)@, input@).0);
                return Ok(index + 1);
            }
            if new_len == MAX_LINE_BYTES {
                proof {
                    lemma_lf_index_bound(input@);
                    assert(lf_index(input@) > index) by {
                        if lf_index(input@) <= index {
                            assert(input@[lf_index(input@)] == LF);
                        }
                    }
                }
                self.clear();
                proof {
                    use_type_invariant(&*self);
                    assert(self@.pending.len() == self.len);
                }
                self.failed = true;
                assert(self@ =~= frame_feed(old(self)@, input@).0);
                return Err(ProtocolError::LineTooLong);
            }
            self.len = new_len;
            index += 1;
        }
        proof {
            lemma_lf_index(input@, count as int);
        }
        assert(input@.take(count as int) =~= input@);
        Ok(count)
    }

    /// Borrows a complete line, excluding LF and its optional preceding CR.
    pub fn line(&self) -> (r: Option<&[u8]>)
        ensures
            r is Some <==> self@.ready,
            r matches Some(line) ==> line@ == self@.pending.take(self@.content_len as int),
    {
        proof {
            use_type_invariant(self);
        }
        if !self.ready {
            return None;
        }
        Some(line_prefix(&self.storage, self.content_len))
    }

    /// Mutably borrows a complete line for in-place decoding, excluding the
    /// terminator. Bytes written through the borrow replace the line.
    pub fn line_mut(&mut self) -> (r: Option<&mut [u8]>)
        ensures
            r is Some <==> old(self)@.ready,
            r is None ==> final(self)@ == old(self)@,
            r matches Some(line) ==> line@ == old(self)@.pending.take(old(self)@.content_len as int),
            r matches Some(line) ==> final(self)@ == (FrameView {
                pending: final(line)@ + old(self)@.pending.skip(old(self)@.content_len as int),
                ..old(self)@
            }),
    {
        proof {
            use_type_invariant(&*self);
        }
        if !self.ready {
            return None;
        }
        let len = self.content_len;
        Some(line_prefix_mut(&mut self.storage, len))
    }

    /// Wipes all storage and resets local framing state for the next line.
    pub fn clear(&mut self)
        ensures
            final(self)@ == empty_frame(),
            final(self).wiped(),
    {
        proof {
            use_type_invariant(&*self);
        }
        line_wipe(&mut self.storage);
        self.content_len = 0;
        self.len = 0;
        self.ready = false;
        self.failed = false;
        assert(line_bytes(self.storage).take(0) =~= Seq::<u8>::empty());
    }

    /// Checks whether EOF occurred on a line boundary.
    ///
    /// A complete, unconsumed line is valid here; this does not imply
    /// transaction success.
    pub fn finish_eof(&self) -> (r: Result<(), ProtocolError>)
        ensures
            r == (if self@.failed {
                Err::<(), ProtocolError>(ProtocolError::LineTooLong)
            } else if self@.pending.len() != 0 && !self@.ready {
                Err::<(), ProtocolError>(ProtocolError::UnexpectedEof)
            } else {
                Ok::<(), ProtocolError>(())
            }),
    {
        proof {
            use_type_invariant(self);
        }
        if self.failed {
            return Err(ProtocolError::LineTooLong);
        }
        if self.len != 0 && !self.ready {
            return Err(ProtocolError::UnexpectedEof);
        }
        Ok(())
    }
}

/// `lf_index` never exceeds the length.
pub proof fn lemma_lf_index_bound(s: Seq<u8>)
    ensures
        0 <= lf_index(s) <= s.len(),
        lf_index(s) < s.len() ==> s[lf_index(s)] == LF,
        forall|j: int| 0 <= j < lf_index(s) ==> s[j] != LF,
    decreases s.len(),
{
    if s.len() > 0 && s[0] != LF {
        lemma_lf_index_bound(s.skip(1));
        assert forall|j: int| 0 <= j < lf_index(s) implies s[j] != LF by {
            if j > 0 {
                assert(s[j] == s.skip(1)[j - 1]);
            }
        }
    }
}

impl Default for LineBuffer {
    fn default() -> (b: Self)
        ensures
            b@ == empty_frame(),
    {
        Self::new()
    }
}

impl core::fmt::Debug for LineBuffer {
    /// Reports framing flags and length, never buffered bytes.
    #[verifier::external_body]
    fn fmt(&self, f: &mut core::fmt::Formatter<'_>) -> core::fmt::Result {
        f.debug_struct("LineBuffer").field("len", &self.len).field("ready", &self.ready).field("failed", &self.failed).finish_non_exhaustive()
    }
}

/// Feeding input in two pieces frames what feeding it at once frames: a
/// first piece without LF is buffered whole, and the second feed then
/// reaches the state, result and consumption of the single feed.
pub proof fn law_feed_split(v: FrameView, a: Seq<u8>, b: Seq<u8>)
    requires
        !v.failed,
        !v.ready,
        lf_index(a) == a.len(),
        v.pending.len() + a.len() < MAX_LINE_BYTES,
    ensures
        frame_feed(v, a) == (FrameView { pending: v.pending + a, ..v }, Ok::<usize, ProtocolError>(
            a.len() as usize,
        )),
        frame_feed(frame_feed(v, a).0, b).0 == frame_feed(v, a + b).0,
        frame_feed(v, a + b).1 matches Ok(k) ==> frame_feed(frame_feed(v, a).0, b).1 == Ok::<
            usize,
            ProtocolError,
        >((k - a.len()) as usize),
        frame_feed(v, a + b).1 is Err ==> frame_feed(frame_feed(v, a).0, b).1 == frame_feed(
            v,
            a + b,
        ).1,
{
    lemma_lf_index_bound(a);
    lemma_lf_index_bound(b);
    let ab = a + b;
    let jb = lf_index(b);
    assert forall|j: int| 0 <= j < a.len() + jb implies ab[j] != LF by {
        if j >= a.len() {
            assert(ab[j] == b[j - a.len()]);
        }
    }
    if jb < b.len() {
        assert(ab[a.len() + jb] == b[jb]);
    }
    lemma_lf_index(ab, a.len() + jb);
    let v1 = FrameView { pending: v.pending + a, ..v };
    if jb < b.len() {
        assert(v.pending + ab.take(a.len() + jb + 1) =~= v1.pending + b.take(jb + 1));
    }
    assert(v.pending + ab =~= v1.pending + b);
}

} // verus!
