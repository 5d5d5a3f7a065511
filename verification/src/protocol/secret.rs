//! Protected secret storage, borrowed secret views and payload classification.
use vstd::prelude::*;

use super::error::LimitError;
use super::limits::{extended_length, extension};
use super::protected::{heap_bytes, heap_len, heap_prefix, heap_set, heap_wipe, protect_heap, ProtectedHeap};

verus! {

/// Reserves room for exactly `additional` more bytes (`Vec::try_reserve_exact`).
///
/// Whether the allocator grants the request is not stated; a request whose
/// total exceeds `isize::MAX` bytes always fails. The contents never change.
#[verifier::external_body]
fn try_reserve_exact(bytes: &mut Vec<u8>, additional: usize) -> (ok: bool)
    ensures
        final(bytes)@ == old(bytes)@,
        old(bytes)@.len() + additional > isize::MAX ==> !ok,
{
    bytes.try_reserve_exact(additional).is_ok()
}

/// The observable contents of a secret buffer: its initialized bytes and its
/// fixed capacity.
pub struct SecretView {
    pub bytes: Seq<u8>,
    pub capacity: nat,
}

/// Owned bytes in a fixed-capacity heap allocation that is wiped on drop.
///
/// Capacity is allocated before inserting a secret and never grows. Reading
/// requires an explicit [`SecretBytes::expose`] call, and `Debug` reports only
/// length and capacity. Dropping or clearing wipes the whole allocation.
pub struct SecretBytes {
    storage: ProtectedHeap,
    len: usize,
}

impl View for SecretBytes {
    type V = SecretView;

    closed spec fn view(&self) -> SecretView {
        SecretView {
            bytes: heap_bytes(self.storage).take(self.len as int),
            capacity: heap_bytes(self.storage).len(),
        }
    }
}

impl SecretBytes {
    /// The initialized bytes never exceed the allocation.
    #[verifier::type_invariant]
    closed spec fn inv(&self) -> bool {
        self.len <= heap_bytes(self.storage).len()
    }

    /// Every byte of the allocation, including unused capacity, is zero.
    pub closed spec fn wiped(&self) -> bool {
        forall|i: int| 0 <= i < heap_bytes(self.storage).len() ==> #[trigger] heap_bytes(
            self.storage,
        )[i] == 0u8
    }

    /// Allocates exactly `capacity` usable bytes, initially zeroed.
    ///
    /// Fails with `AllocationFailed` if the reservation fails, which always
    /// happens for requests larger than `isize::MAX` bytes.
    pub fn with_capacity(capacity: usize) -> (r: Result<Self, LimitError>)
        ensures
            r matches Ok(s) ==> s@.bytes == Seq::<u8>::empty() && s@.capacity == capacity
                && s.wiped(),
            r is Err ==> r == Err::<Self, LimitError>(LimitError::AllocationFailed),
            capacity > isize::MAX ==> r is Err,
    {
        let mut bytes: Vec<u8> = Vec::new();
        if !try_reserve_exact(&mut bytes, capacity) {
            return Err(LimitError::AllocationFailed);
        }
        let mut i: usize = 0;
        while i < capacity
            invariant
                i <= capacity,
                bytes@.len() == i,
                forall|j: int| 0 <= j < i ==> #[trigger] bytes@[j] == 0u8,
            decreases capacity - i,
        {
            bytes.push(0);
            i += 1;
        }
        let storage = protect_heap(bytes);
        let secret = Self { storage, len: 0 };
        assert(heap_bytes(secret.storage).take(0) =~= Seq::<u8>::empty());
        Ok(secret)
    }

    /// Copies bytes into the unused capacity without reallocating.
    ///
    /// An error leaves both the contents and the length unchanged.
    pub fn extend_from_slice(&mut self, bytes: &[u8]) -> (r: Result<(), LimitError>)
        ensures
            match extension(old(self)@.bytes.len() as int, bytes@.len() as int, old(self)@.capacity as int) {
                Ok(_) => r is Ok && final(self)@ == (SecretView {
                    bytes: old(self)@.bytes + bytes@,
                    capacity: old(self)@.capacity,
                }),
                Err(e) => r == Err::<(), LimitError>(e) && final(self)@ == old(self)@,
            },
    {
        proof {
            use_type_invariant(&*self);
        }
        let capacity = heap_len(&self.storage);
        let end = extended_length(self.len, bytes.len(), capacity)?;
        let start = self.len;
        let ghost initial = heap_bytes(self.storage);
        let mut i: usize = 0;
        while i < bytes.len()
            invariant
                start + bytes@.len() == end,
                end <= initial.len(),
                i <= bytes@.len(),
                self.len == start,
                heap_bytes(self.storage).len() == initial.len(),
                heap_bytes(self.storage).take(start as int) == initial.take(start as int),
                heap_bytes(self.storage).subrange(start as int, start + i) == bytes@.take(i as int),
            decreases bytes@.len() - i,
        {
            let ghost before = heap_bytes(self.storage);
            heap_set(&mut self.storage, start + i, bytes[i]);
            assert(heap_bytes(self.storage).take(start as int) =~= before.take(start as int));
            assert(heap_bytes(self.storage).subrange(start as int, start + i + 1) =~= bytes@.take(
                i + 1,
            )) by {
                assert(before.subrange(start as int, start + i) == bytes@.take(i as int));
            }
            i += 1;
        }
        self.len = end;
        assert(heap_bytes(self.storage).take(end as int) =~= initial.take(start as int) + bytes@) by {
            assert(bytes@.take(bytes@.len() as int) =~= bytes@);
            assert(heap_bytes(self.storage).subrange(start as int, end as int) == bytes@);
        }
        Ok(())
    }

    /// Explicitly exposes the initialized bytes for the duration of the borrow.
    pub fn expose(&self) -> (r: &[u8])
        ensures
            r@ == self@.bytes,
    {
        proof {
            use_type_invariant(self);
        }
        heap_prefix(&self.storage, self.len)
    }

    /// Wipes the whole allocation and resets the length, retaining capacity.
    pub fn clear(&mut self)
        ensures
            final(self)@ == (SecretView { bytes: Seq::<u8>::empty(), capacity: old(self)@.capacity }),
            final(self).wiped(),
    {
        proof {
            use_type_invariant(&*self);
        }
        heap_wipe(&mut self.storage);
        self.len = 0;
        assert(heap_bytes(self.storage).take(0) =~= Seq::<u8>::empty());
    }

    /// Returns the number of initialized bytes.
    pub fn len(&self) -> (n: usize)
        ensures
            n == self@.bytes.len(),
    {
        proof {
            use_type_invariant(self);
        }
        self.len
    }

    /// Returns whether no initialized bytes are stored.
    pub fn is_empty(&self) -> (b: bool)
        ensures
            b == (self@.bytes.len() == 0),
    {
        proof {
            use_type_invariant(self);
        }
        self.len == 0
    }

    /// Returns the fixed maximum number of bytes this allocation can store.
    pub fn capacity(&self) -> (n: usize)
        ensures
            n == self@.capacity,
    {
        heap_len(&self.storage)
    }
}

impl core::fmt::Debug for SecretBytes {
    /// Reports only length and capacity.
    #[verifier::external_body]
    fn fmt(&self, f: &mut core::fmt::Formatter<'_>) -> core::fmt::Result {
        f.debug_struct("SecretBytes").field("len", &self.len).field("capacity", &self.storage.bytes.len()).finish_non_exhaustive()
    }
}

/// A borrowed secret whose diagnostics never include its contents.
///
/// This view neither owns nor wipes the bytes; access is explicit.
pub struct SecretRef<'a> {
    bytes: &'a [u8],
}

impl<'a> View for SecretRef<'a> {
    type V = Seq<u8>;

    closed spec fn view(&self) -> Seq<u8> {
        self.bytes@
    }
}

impl<'a> SecretRef<'a> {
    /// Borrows bytes without allocating, copying, or taking ownership.
    pub fn new(bytes: &'a [u8]) -> (r: Self)
        ensures
            r@ == bytes@,
    {
        Self { bytes }
    }

    /// Explicitly exposes the bytes with the original owner's lifetime.
    pub fn expose(&self) -> (r: &'a [u8])
        ensures
            r@ == self@,
    {
        self.bytes
    }
}

impl core::fmt::Debug for SecretRef<'_> {
    /// Reports only the length.
    #[verifier::external_body]
    fn fmt(&self, f: &mut core::fmt::Formatter<'_>) -> core::fmt::Result {
        f.debug_struct("SecretRef").field("len", &self.bytes.len()).finish_non_exhaustive()
    }
}

/// How a payload should be handled by a protocol consumer.
#[derive(Debug, Clone, Copy, PartialEq, Eq, Structural)]
pub enum Sensitivity {
    /// The caller permits ordinary handling of the payload.
    Public,
    /// The payload requires protected storage and redacted diagnostics.
    Secret,
}

/// A borrowed payload with an explicit public or secret classification.
pub enum PayloadRef<'a> {
    /// Public bytes, borrowed without copying.
    Public(&'a [u8]),
    /// Sensitive bytes that require explicit exposure.
    Secret(SecretRef<'a>),
}

impl<'a> PayloadRef<'a> {
    /// Classifies borrowed bytes by sensitivity.
    pub fn classify(bytes: &'a [u8], sensitivity: Sensitivity) -> (r: Self)
        ensures
            match sensitivity {
                Sensitivity::Public => r matches PayloadRef::Public(b) && b@ == bytes@,
                Sensitivity::Secret => r matches PayloadRef::Secret(s) && s@ == bytes@,
            },
    {
        match sensitivity {
            Sensitivity::Public => PayloadRef::Public(bytes),
            Sensitivity::Secret => PayloadRef::Secret(SecretRef::new(bytes)),
        }
    }
}

impl core::fmt::Debug for PayloadRef<'_> {
    /// Reports the classification and length only.
    #[verifier::external_body]
    fn fmt(&self, f: &mut core::fmt::Formatter<'_>) -> core::fmt::Result {
        match self {
            PayloadRef::Public(bytes) => f.debug_struct("Public").field("len", &bytes.len()).finish_non_exhaustive(),
            PayloadRef::Secret(secret) => f.debug_struct("Secret").field("len", &secret.bytes.len()).finish_non_exhaustive(),
        }
    }
}

} // verus!
