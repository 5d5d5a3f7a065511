//! Conversion between wire bytes and text.
use vstd::prelude::*;
use vstd::string::StringSliceAdditionalSpecFns;
use vstd::utf8::*;

verus! {

/// A byte sequence in which every byte is ASCII.
pub open spec fn all_ascii(s: Seq<u8>) -> bool {
    forall|i: int| 0 <= i < s.len() ==> #[trigger] s[i] < 0x80
}

/// ASCII bytes always form valid UTF-8.
pub proof fn lemma_ascii_is_utf8(s: Seq<u8>)
    requires
        all_ascii(s),
    ensures
        valid_utf8(s),
{
    assert(s.subrange(0, 0) =~= Seq::<u8>::empty());
    assert(valid_utf8(Seq::<u8>::empty()));
    assert(partial_valid_utf8(s, 0));
    partial_valid_utf8_extend_ascii_block(s, 0, s.len() as int);
    assert(s.subrange(0, s.len() as int) =~= s);
}

/// Borrows bytes as text when they form valid UTF-8.
///
/// Calls `core::str::from_utf8`, which succeeds exactly on valid UTF-8 and
/// then returns a string whose byte encoding is the input itself.
#[verifier::external_body]
pub fn utf8_text<'a>(bytes: &'a [u8]) -> (r: Option<&'a str>)
    ensures
        r is Some <==> valid_utf8(bytes@),
        r matches Some(text) ==> text.spec_bytes() == bytes@,
{
    core::str::from_utf8(bytes).ok()
}

} // verus!
