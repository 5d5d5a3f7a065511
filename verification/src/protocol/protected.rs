//! Storage that is wiped when dropped, provided by the `zeroize` crate.
//!
//! The library keeps secrets and framed lines in `zeroize::Zeroizing`
//! buffers. Every access goes through the items below, whose contracts state
//! what the `Deref`, `DerefMut` and `Zeroize` implementations of that crate
//! do to the buffer's bytes.
use vstd::prelude::*;
use zeroize::{Zeroize, Zeroizing};

use super::wire::MAX_LINE_BYTES;

verus! {

/// A fixed-length heap allocation that `zeroize` wipes when it is dropped.
#[verifier::external_body]
pub struct ProtectedHeap {
    pub(crate) bytes: Zeroizing<Box<[u8]>>,
}

/// A line-sized array that `zeroize` wipes when it is dropped.
#[verifier::external_body]
pub struct ProtectedLine {
    bytes: Zeroizing<[u8; MAX_LINE_BYTES]>,
}

/// The bytes held by a protected heap allocation.
pub uninterp spec fn heap_bytes(storage: ProtectedHeap) -> Seq<u8>;

/// The bytes held by a protected line-sized array.
pub uninterp spec fn line_bytes(storage: ProtectedLine) -> Seq<u8>;

/// Moves a vector's bytes into a protected heap allocation of the same
/// length (`Vec::into_boxed_slice`, then `Zeroizing::new`).
#[verifier::external_body]
pub fn protect_heap(bytes: Vec<u8>) -> (storage: ProtectedHeap)
    ensures
        heap_bytes(storage) == bytes@,
{
    ProtectedHeap { bytes: Zeroizing::new(bytes.into_boxed_slice()) }
}

/// The length of a protected heap allocation, read through `Deref`.
#[verifier::external_body]
pub fn heap_len(storage: &ProtectedHeap) -> (n: usize)
    ensures
        n == heap_bytes(*storage).len(),
{
    storage.bytes.len()
}

/// Writes one byte of a protected heap allocation through `DerefMut`.
#[verifier::external_body]
pub fn heap_set(storage: &mut ProtectedHeap, index: usize, value: u8)
    requires
        index < heap_bytes(*old(storage)).len(),
    ensures
        heap_bytes(*final(storage)) == heap_bytes(*old(storage)).update(index as int, value),
    no_unwind
{
    storage.bytes[index] = value;
}

/// Borrows the first `n` bytes of a protected heap allocation through `Deref`.
#[verifier::external_body]
pub fn heap_prefix(storage: &ProtectedHeap, n: usize) -> (prefix: &[u8])
    requires
        n <= heap_bytes(*storage).len(),
    ensures
        prefix@ == heap_bytes(*storage).take(n as int),
{
    &storage.bytes[..n]
}

/// Overwrites every byte of a protected heap allocation with zero, keeping
/// its length (`Zeroize::zeroize` on the `Zeroizing` wrapper).
#[verifier::external_body]
pub fn heap_wipe(storage: &mut ProtectedHeap)
    ensures
        heap_bytes(*final(storage)) == Seq::new(heap_bytes(*old(storage)).len(), |_i: int| 0u8),
    no_unwind
{
    storage.bytes.zeroize();
}

/// A zero-filled protected line array (`Zeroizing::new` of a zeroed array).
#[verifier::external_body]
pub fn protect_line() -> (storage: ProtectedLine)
    ensures
        line_bytes(storage) == Seq::new(MAX_LINE_BYTES as nat, |_i: int| 0u8),
{
    ProtectedLine { bytes: Zeroizing::new([0u8; MAX_LINE_BYTES]) }
}

/// Reads one byte of a protected line array through `Deref`.
#[verifier::external_body]
pub fn line_get(storage: &ProtectedLine, index: usize) -> (value: u8)
    requires
        index < line_bytes(*storage).len(),
    ensures
        value == line_bytes(*storage)[index as int],
{
    storage.bytes[index]
}

/// Writes one byte of a protected line array through `DerefMut`.
#[verifier::external_body]
pub fn line_set(storage: &mut ProtectedLine, index: usize, value: u8)
    requires
        index < line_bytes(*old(storage)).len(),
    ensures
        line_bytes(*final(storage)) == line_bytes(*old(storage)).update(index as int, value),
    no_unwind
{
    storage.bytes[index] = value;
}

/// Borrows the first `n` bytes of a protected line array through `Deref`.
#[verifier::external_body]
pub fn line_prefix(storage: &ProtectedLine, n: usize) -> (prefix: &[u8])
    requires
        n <= line_bytes(*storage).len(),
    ensures
        prefix@ == line_bytes(*storage).take(n as int),
{
    &storage.bytes[..n]
}

/// Mutably borrows the first `n` bytes of a protected line array through
/// `DerefMut`; bytes written through the borrow land in the array.
#[verifier::external_body]
pub fn line_prefix_mut(storage: &mut ProtectedLine, n: usize) -> (prefix: &mut [u8])
    requires
        n <= line_bytes(*old(storage)).len(),
    ensures
        prefix@ == line_bytes(*old(storage)).take(n as int),
        final(prefix)@.len() == n,
        line_bytes(*final(storage)) == final(prefix)@ + line_bytes(*old(storage)).skip(n as int),
    no_unwind
{
    &mut storage.bytes[..n]
}

/// Overwrites every byte of a protected line array with zero
/// (`Zeroize::zeroize` on the `Zeroizing` wrapper).
#[verifier::external_body]
pub fn line_wipe(storage: &mut ProtectedLine)
    ensures
        line_bytes(*final(storage)) == Seq::new(line_bytes(*old(storage)).len(), |_i: int| 0u8),
    no_unwind
{
    storage.bytes.zeroize();
}

} // verus!
