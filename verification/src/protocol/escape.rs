//! Percent-escape decoding of data payloads.
use vstd::prelude::*;

use super::error::ProtocolError;
use super::wire::PERCENT;

verus! {

/// A hexadecimal digit in either case.
pub open spec fn is_hex_digit(b: u8) -> bool {
    (0x30u8 <= b <= 0x39u8) || (0x61u8 <= b <= 0x66u8) || (0x41u8 <= b <= 0x46u8)
}

/// The value of a hexadecimal digit.
pub open spec fn hex_value(b: u8) -> u8 {
    if 0x30u8 <= b <= 0x39u8 {
        (b - 0x30u8) as u8
    } else if 0x61u8 <= b <= 0x66u8 {
        (b - 0x61u8 + 10) as u8
    } else {
        (b - 0x41u8 + 10) as u8
    }
}

/// The byte denoted by the escape `%` followed by the digits `h` and `l`.
pub open spec fn escaped_byte(h: u8, l: u8) -> u8 {
    (hex_value(h) * 16 + hex_value(l)) as u8
}

/// Decodes percent escapes; `None` when an escape is incomplete or not
/// hexadecimal. Every other byte stands for itself.
pub open spec fn decode_escapes(s: Seq<u8>) -> Option<Seq<u8>>
    decreases s.len(),
{
    if s.len() == 0 {
        Some(Seq::empty())
    } else if s[0] == PERCENT {
        if s.len() >= 3 && is_hex_digit(s[1]) && is_hex_digit(s[2]) {
            match decode_escapes(s.skip(3)) {
                Some(rest) => Some(seq![escaped_byte(s[1], s[2])] + rest),
                None => None,
            }
        } else {
            None
        }
    } else {
        match decode_escapes(s.skip(1)) {
            Some(rest) => Some(seq![s[0]] + rest),
            None => None,
        }
    }
}

fn hex(byte: u8) -> (r: Option<u8>)
    ensures
        r == (if is_hex_digit(byte) { Some(hex_value(byte)) } else { None::<u8> }),
{
    if 0x30u8 <= byte && byte <= 0x39u8 {
        Some(byte - 0x30u8)
    } else if 0x61u8 <= byte && byte <= 0x66u8 {
        Some(byte - 0x61u8 + 10)
    } else if 0x41u8 <= byte && byte <= 0x46u8 {
        Some(byte - 0x41u8 + 10)
    } else {
        None
    }
}

/// Decodes percent-escaped data in place, returning the decoded byte count.
///
/// Hex digits may use either case; all other bytes are preserved. Only the
/// returned prefix holds decoded data; the remaining bytes keep their previous
/// contents. Validation happens before mutation, so an error leaves the input
/// unchanged.
pub fn decode_data_in_place(bytes: &mut [u8]) -> (r: Result<usize, ProtocolError>)
    ensures
        final(bytes)@.len() == old(bytes)@.len(),
        match decode_escapes(old(bytes)@) {
            None => r == Err::<usize, ProtocolError>(ProtocolError::InvalidEscape) && final(bytes)@
                == old(bytes)@,
            Some(d) => r == Ok::<usize, ProtocolError>(d.len() as usize) && final(bytes)@.take(
                d.len() as int,
            ) == d && final(bytes)@.skip(d.len() as int) == old(bytes)@.skip(d.len() as int),
        },
{
    let ghost orig = bytes@;
    let len = bytes.len();
    let mut read: usize = 0;
    assert(orig.skip(0) =~= orig);
    while read < len
        invariant
            len == bytes@.len(),
            bytes@ == orig,
            read <= len,
            decode_escapes(orig) is Some <==> decode_escapes(orig.skip(read as int)) is Some,
        decreases len - read,
    {
        let ghost rest = orig.skip(read as int);
        if bytes[read] == PERCENT {
            if len - read < 3 || hex(bytes[read + 1]).is_none() || hex(bytes[read + 2]).is_none() {
                return Err(ProtocolError::InvalidEscape);
            }
            assert(rest.skip(3) =~= orig.skip(read + 3));
            read += 3;
        } else {
            assert(rest.skip(1) =~= orig.skip(read + 1));
            read += 1;
        }
    }
    assert(orig.skip(len as int) =~= Seq::<u8>::empty());
    let ghost full = decode_escapes(orig).unwrap();
    assert(orig.skip(0) =~= orig);
    read = 0;
    let mut written: usize = 0;
    while read < len
        invariant
            len == bytes@.len(),
            len == orig.len(),
            written <= read <= len,
            decode_escapes(orig.skip(read as int)) is Some,
            full == bytes@.take(written as int) + decode_escapes(orig.skip(read as int)).unwrap(),
            bytes@.skip(written as int) == orig.skip(written as int),
        decreases len - read,
    {
        let ghost rest = orig.skip(read as int);
        let ghost before = bytes@;
        assert(bytes@[read as int] == orig[read as int]) by {
            assert(bytes@.skip(written as int)[read - written] == orig.skip(written as int)[read - written]);
        }
        if bytes[read] == PERCENT {
            assert(bytes@[read + 1] == orig[read + 1]) by {
                assert(bytes@.skip(written as int)[read + 1 - written] == orig.skip(written as int)[read + 1 - written]);
            }
            assert(bytes@[read + 2] == orig[read + 2]) by {
                assert(bytes@.skip(written as int)[read + 2 - written] == orig.skip(written as int)[read + 2 - written]);
            }
            let high = match hex(bytes[read + 1]) {
                Some(v) => v,
                None => 0,
            };
            let low = match hex(bytes[read + 2]) {
                Some(v) => v,
                None => 0,
            };
            assert(high < 16 && low < 16);
            bytes[written] = high * 16 + low;
            assert(rest.skip(3) =~= orig.skip(read + 3));
            read += 3;
        } else {
            let b = bytes[read];
            bytes[written] = b;
            assert(rest.skip(1) =~= orig.skip(read + 1));
            read += 1;
        }
        assert(bytes@.take(written + 1) =~= before.take(written as int).push(bytes@[written as int]));
        assert(bytes@.skip(written + 1) =~= orig.skip(written + 1)) by {
            assert(before.skip(written as int).skip(1) =~= before.skip(written + 1));
            assert(orig.skip(written as int).skip(1) =~= orig.skip(written + 1));
        }
        written += 1;
    }
    assert(orig.skip(len as int) =~= Seq::<u8>::empty());
    assert(full =~= bytes@.take(written as int));
    Ok(written)
}

} // verus!
