//! Byte values with a meaning on the wire.
use vstd::prelude::*;

verus! {

/// The NUL byte.
pub const NUL: u8 = 0x00;
/// Line feed.
pub const LF: u8 = 0x0a;
/// Carriage return.
pub const CR: u8 = 0x0d;
/// Space, the field separator.
pub const SPACE: u8 = 0x20;
/// `#`, which starts a comment.
pub const HASH: u8 = 0x23;
/// `%`, which starts an escape.
pub const PERCENT: u8 = 0x25;
/// `_`, allowed to start a keyword.
pub const UNDERSCORE: u8 = 0x5f;
/// The digit `0`.
pub const DIGIT_ZERO: u8 = 0x30;

/// Maximum Assuan line length in bytes, including its LF or CRLF terminator.
pub const MAX_LINE_BYTES: usize = 1000;

/// An ASCII decimal digit.
pub open spec fn is_digit(b: u8) -> bool {
    0x30 <= b <= 0x39
}

/// An ASCII letter.
pub open spec fn is_alpha(b: u8) -> bool {
    (0x41 <= b <= 0x5a) || (0x61 <= b <= 0x7a)
}

/// A sequence made of decimal digits only.
pub open spec fn all_digits(s: Seq<u8>) -> bool {
    forall|i: int| 0 <= i < s.len() ==> #[trigger] is_digit(s[i])
}

/// The value of a sequence of decimal digits, most significant first.
pub open spec fn digits_value(s: Seq<u8>) -> int
    decreases s.len(),
{
    if s.len() == 0 {
        0
    } else {
        digits_value(s.drop_last()) * 10 + (s.last() - DIGIT_ZERO)
    }
}

/// The canonical decimal representation of `n`, without leading zeros.
pub open spec fn decimal(n: nat) -> Seq<u8>
    decreases n,
{
    if n < 10 {
        seq![(n + DIGIT_ZERO) as u8]
    } else {
        decimal(n / 10).push(((n % 10) + DIGIT_ZERO) as u8)
    }
}

/// Appending digits never decreases the value of a digit sequence.
pub proof fn lemma_digits_value_prefix(s: Seq<u8>, k: int)
    requires
        all_digits(s),
        0 <= k <= s.len(),
    ensures
        0 <= digits_value(s.take(k)) <= digits_value(s),
    decreases s.len(),
{
    if s.len() > 0 {
        if k == s.len() {
            assert(s.take(k) =~= s);
        } else {
            assert(s.drop_last().take(k) =~= s.take(k));
            lemma_digits_value_prefix(s.drop_last(), k);
            assert(is_digit(s[s.len() - 1]));
        }
        lemma_digits_value_nonneg(s);
    }
}

/// Digit sequences have nonnegative values.
pub proof fn lemma_digits_value_nonneg(s: Seq<u8>)
    requires
        all_digits(s),
    ensures
        digits_value(s) >= 0,
    decreases s.len(),
{
    if s.len() > 0 {
        lemma_digits_value_nonneg(s.drop_last());
        assert(is_digit(s[s.len() - 1]));
    }
}

/// The decimal representation consists of digits, has no leading zero
/// unless it is `0`, and denotes `n`.
pub proof fn lemma_decimal(n: nat)
    ensures
        all_digits(decimal(n)),
        decimal(n).len() >= 1,
        digits_value(decimal(n)) == n,
        decimal(n).len() > 1 ==> decimal(n)[0] != DIGIT_ZERO,
        n < 10 ==> decimal(n).len() == 1,
        n >= 10 ==> decimal(n).len() == decimal(n / 10).len() + 1,
    decreases n,
{
    if n < 10 {
        assert(decimal(n).drop_last() =~= Seq::<u8>::empty());
        assert(digits_value(Seq::<u8>::empty()) == 0);
        assert(digits_value(decimal(n)) == n);
    } else {
        lemma_decimal(n / 10);
        let d = decimal(n);
        assert(d.drop_last() =~= decimal(n / 10));
        vstd::arithmetic::div_mod::lemma_fundamental_div_mod(n as int, 10);
        assert(d.last() - DIGIT_ZERO == n % 10);
        assert(digits_value(d) == digits_value(decimal(n / 10)) * 10 + (d.last() - DIGIT_ZERO));
        assert forall|i: int| 0 <= i < d.len() implies #[trigger] is_digit(d[i]) by {
            if i < d.len() - 1 {
                assert(d[i] == decimal(n / 10)[i]);
            }
        }
        if decimal(n / 10).len() > 1 {
            assert(d[0] == decimal(n / 10)[0]);
        } else {
            assert(n / 10 >= 1);
            assert(d[0] == decimal(n / 10)[0]);
        }
    }
}

/// Ten to the power `k`.
pub open spec fn ten_pow(k: nat) -> nat
    decreases k,
{
    if k == 0 {
        1
    } else {
        10 * ten_pow((k - 1) as nat)
    }
}

/// Numbers below `10^k` have at most `k` decimal digits.
pub proof fn lemma_decimal_len_bound(n: nat, k: nat)
    requires
        n < ten_pow(k),
        k >= 1,
    ensures
        decimal(n).len() <= k,
    decreases k,
{
    lemma_decimal(n);
    if n >= 10 {
        assert(k >= 2) by {
            if k == 1 {
                assert(ten_pow(0) == 1);
            }
        }
        assert(n / 10 < ten_pow((k - 1) as nat));
        lemma_decimal_len_bound(n / 10, (k - 1) as nat);
    }
}

/// Every 32-bit value has at most ten decimal digits.
pub proof fn lemma_decimal_len_u32(n: u32)
    ensures
        decimal(n as nat).len() <= 10,
{
    reveal_with_fuel(ten_pow, 11);
    assert(ten_pow(10) == 10_000_000_000);
    lemma_decimal_len_bound(n as nat, 10);
}

} // verus!
