//! Round-trip properties of the wire format.
use vstd::prelude::*;

use super::command::{
    after_field, field_end, first_field, lemma_field_end, line_byte, token_byte, valid_line,
    valid_token,
};
use super::encode::{
    command_text, concat, data_prefix, encode_model, escape_byte, escape_data, join_parts,
    lemma_check_parts_ok, with_optional,
};
use super::escape::{decode_escapes, escaped_byte, hex_value, is_hex_digit};
use super::message::{
    error_code, keyword_fields, parse_line, prefix_is, valid_keyword, word_data, word_end,
    word_err, word_inquire, word_ok, word_status, word_then_space, LineModel,
};
use super::wire::{decimal, is_digit, lemma_decimal, CR, HASH, LF, NUL, PERCENT, SPACE};

verus! {

/// Decoding distributes over concatenation of decodable sequences.
pub proof fn lemma_decode_append(x: Seq<u8>, y: Seq<u8>)
    requires
        decode_escapes(x) is Some,
        decode_escapes(y) is Some,
    ensures
        decode_escapes(x + y) == Some(decode_escapes(x).unwrap() + decode_escapes(y).unwrap()),
    decreases x.len(),
{
    if x.len() == 0 {
        assert(x + y =~= y);
        assert(decode_escapes(x).unwrap() + decode_escapes(y).unwrap() =~= decode_escapes(y).unwrap());
    } else if x[0] == PERCENT {
        assert((x + y).skip(3) =~= x.skip(3) + y);
        lemma_decode_append(x.skip(3), y);
        assert((x + y)[1] == x[1] && (x + y)[2] == x[2]);
        let head = seq![escaped_byte(x[1], x[2])];
        assert(head + decode_escapes(x.skip(3)).unwrap() + decode_escapes(y).unwrap() =~= head + (
        decode_escapes(x.skip(3)).unwrap() + decode_escapes(y).unwrap()));
    } else {
        assert((x + y).skip(1) =~= x.skip(1) + y);
        lemma_decode_append(x.skip(1), y);
        let head = seq![x[0]];
        assert(head + decode_escapes(x.skip(1)).unwrap() + decode_escapes(y).unwrap() =~= head + (
        decode_escapes(x.skip(1)).unwrap() + decode_escapes(y).unwrap()));
    }
}

/// Each escaped byte decodes to itself.
pub proof fn lemma_decode_escape_byte(b: u8)
    ensures
        decode_escapes(escape_byte(b)) == Some(seq![b]),
{
    let e = escape_byte(b);
    assert(decode_escapes(Seq::<u8>::empty()) == Some(Seq::<u8>::empty()));
    if b == PERCENT || b == CR || b == LF || b == NUL {
        assert(e.skip(3) =~= Seq::<u8>::empty());
        assert(is_hex_digit(e[1]) && is_hex_digit(e[2]));
        assert(escaped_byte(e[1], e[2]) == b);
        assert(seq![escaped_byte(e[1], e[2])] + Seq::<u8>::empty() =~= seq![b]);
    } else {
        assert(e.skip(1) =~= Seq::<u8>::empty());
        assert(seq![b] + Seq::<u8>::empty() =~= seq![b]);
    }
}

/// Escaped data decodes back to the raw data.
pub proof fn law_escape_roundtrip(s: Seq<u8>)
    ensures
        decode_escapes(escape_data(s)) == Some(s),
    decreases s.len(),
{
    if s.len() == 0 {
        assert(decode_escapes(Seq::<u8>::empty()) == Some(Seq::<u8>::empty()));
    } else {
        law_escape_roundtrip(s.drop_last());
        lemma_decode_escape_byte(s.last());
        lemma_decode_append(escape_data(s.drop_last()), escape_byte(s.last()));
        assert(s.drop_last() + seq![s.last()] =~= s);
    }
}

/// Escaped data contains no NUL, CR or LF.
pub proof fn lemma_escape_valid_line(s: Seq<u8>)
    ensures
        valid_line(escape_data(s)),
    decreases s.len(),
{
    if s.len() > 0 {
        lemma_escape_valid_line(s.drop_last());
        let a = escape_data(s.drop_last());
        let b = escape_byte(s.last());
        assert forall|i: int| 0 <= i < (a + b).len() implies #[trigger] line_byte((a + b)[i]) by {
            if i < a.len() {
                assert((a + b)[i] == a[i]);
            } else {
                assert((a + b)[i] == b[i - a.len()]);
            }
        }
    }
}

/// `w + rest` starts with `w`, and dropping `w` leaves `rest`.
proof fn lemma_prefix_concat(w: Seq<u8>, rest: Seq<u8>)
    ensures
        prefix_is(w + rest, w),
        (w + rest).skip(w.len() as int) == rest,
{
    assert((w + rest).take(w.len() as int) =~= w);
    assert((w + rest).skip(w.len() as int) =~= rest);
}

/// A sequence that starts with `p` has `p[0]` as its first byte.
proof fn lemma_prefix_first(s: Seq<u8>, p: Seq<u8>)
    requires
        prefix_is(s, p),
        p.len() > 0,
    ensures
        s[0] == p[0],
{
    assert(s.take(p.len() as int)[0] == s[0]);
}

/// Fields split at the separator of `a + " " + b` when `a` has no space,
/// and a sequence without spaces is a single field.
proof fn lemma_fields(a: Seq<u8>, b: Seq<u8>)
    requires
        forall|i: int| 0 <= i < a.len() ==> a[i] != SPACE,
    ensures
        first_field(a + seq![SPACE] + b) == a,
        after_field(a + seq![SPACE] + b) == b,
        first_field(a) == a,
        after_field(a) == Seq::<u8>::empty(),
{
    let s = a + seq![SPACE] + b;
    lemma_field_end(s, a.len() as int);
    assert(s.take(a.len() as int) =~= a);
    assert(s.skip(a.len() + 1int) =~= b);
    lemma_field_end(a, a.len() as int);
    assert(a.take(a.len() as int) =~= a);
}

proof fn lemma_token_no_space(t: Seq<u8>)
    requires
        valid_token(t),
    ensures
        forall|i: int| 0 <= i < t.len() ==> t[i] != SPACE,
{
    assert forall|i: int| 0 <= i < t.len() implies t[i] != SPACE by {
        assert(token_byte(t[i]));
    }
}

proof fn lemma_concat2(a: Seq<u8>, b: Seq<u8>)
    ensures
        concat(seq![a, b]) == a + b,
{
    let ps = seq![a, b];
    assert(ps.drop_last() =~= seq![a]);
    assert(seq![a].drop_last() =~= Seq::<Seq<u8>>::empty());
    assert(concat(Seq::<Seq<u8>>::empty()) =~= Seq::<u8>::empty());
    assert(concat(seq![a]) =~= a);
}

proof fn lemma_concat4(a: Seq<u8>, b: Seq<u8>, c: Seq<u8>, d: Seq<u8>)
    ensures
        concat(seq![a, b, c, d]) == a + b + c + d,
{
    let ps = seq![a, b, c, d];
    assert(ps.drop_last() =~= seq![a, b, c]);
    assert(seq![a, b, c].drop_last() =~= seq![a, b]);
    lemma_concat2(a, b);
    assert(concat(seq![a, b, c]) == concat(seq![a, b]) + c);
    assert(concat(ps) == concat(seq![a, b, c]) + d);
}

proof fn lemma_concat1(a: Seq<u8>)
    ensures
        concat(seq![a]) == a,
{
    assert(seq![a].drop_last() =~= Seq::<Seq<u8>>::empty());
    assert(concat(Seq::<Seq<u8>>::empty()) =~= Seq::<u8>::empty());
    assert(concat(seq![a]) =~= a);
}

proof fn lemma_optional(w: Seq<u8>, t: Seq<u8>)
    ensures
        concat(with_optional(w, t)) == (if t.len() == 0 {
            w
        } else {
            w + seq![SPACE] + t
        }),
{
    if t.len() == 0 {
        lemma_concat1(w);
    } else {
        let ps = with_optional(w, t);
        assert(ps.drop_last() =~= seq![w, seq![SPACE]]);
        lemma_concat2(w, seq![SPACE]);
    }
}

/// A keyword line `prefix + k [+ " " + a]` as concatenated bytes.
proof fn lemma_keyword_bytes(prefix: Seq<u8>, k: Seq<u8>, a: Seq<u8>)
    ensures
        a.len() == 0 ==> concat(seq![prefix, k]) == prefix + k,
        a.len() > 0 ==> concat(seq![prefix, k, seq![SPACE], a]) == prefix + (k + seq![SPACE] + a),
{
    lemma_concat2(prefix, k);
    lemma_concat4(prefix, k, seq![SPACE], a);
    assert(prefix + k + seq![SPACE] + a =~= prefix + (k + seq![SPACE] + a));
}

/// The bytes of a keyword line split back into its keyword and arguments.
proof fn lemma_keyword_fields(k: Seq<u8>, a: Seq<u8>)
    requires
        valid_keyword(k),
    ensures
        keyword_fields(if a.len() == 0 { k } else { k + seq![SPACE] + a }) == Ok::<
            (Seq<u8>, Seq<u8>),
            super::error::ProtocolError,
        >((k, a)),
{
    lemma_token_no_space(k);
    lemma_fields(k, a);
    if a.len() == 0 {
        assert(a =~= Seq::<u8>::empty());
    }
}

/// Decimal digits contain no space.
proof fn lemma_decimal_no_space(n: nat)
    ensures
        forall|i: int| 0 <= i < decimal(n).len() ==> decimal(n)[i] != SPACE,
{
    lemma_decimal(n);
    assert forall|i: int| 0 <= i < decimal(n).len() implies decimal(n)[i] != SPACE by {
        assert(is_digit(decimal(n)[i]));
    }
}

/// Every response that encodes successfully parses back to itself.
pub proof fn law_response_roundtrip(line: LineModel)
    requires
        encode_model(line) is Ok,
    ensures
        parse_line(encode_model(line).unwrap()) == Ok::<LineModel, super::error::ProtocolError>(line),
{
    let b = encode_model(line).unwrap();
    let ok_sp = word_ok().push(SPACE);
    let err_sp = word_err().push(SPACE);
    let d_sp = word_data().push(SPACE);
    let s_sp = word_status().push(SPACE);
    let i_sp = word_inquire().push(SPACE);
    match line {
        LineModel::Okay(t) => {
            let ps = with_optional(word_ok(), t);
            lemma_check_parts_ok(ps, 1);
            lemma_optional(word_ok(), t);
            if t.len() == 0 {
                assert(b =~= word_ok());
                assert(t =~= Seq::<u8>::empty());
            } else {
                assert(b =~= ok_sp + t);
                lemma_prefix_concat(ok_sp, t);
            }
        },
        LineModel::Error { code, text } => {
            lemma_decimal(code as nat);
            lemma_decimal_no_space(code as nat);
            let digits = decimal(code as nat);
            let ps = if text.len() == 0 {
                seq![err_sp, digits]
            } else {
                seq![err_sp, digits, seq![SPACE], text]
            };
            lemma_check_parts_ok(ps, 1);
            lemma_concat2(err_sp, digits);
            lemma_concat4(err_sp, digits, seq![SPACE], text);
            let fields = if text.len() == 0 { digits } else { digits + seq![SPACE] + text };
            assert(b =~= err_sp + fields);
            lemma_prefix_concat(err_sp, fields);
            lemma_fields(digits, text);
            assert(error_code(digits) == Some(code));
            assert(b[0] == 0x45u8);
            assert(!prefix_is(b, ok_sp)) by {
                if prefix_is(b, ok_sp) {
                    lemma_prefix_first(b, ok_sp);
                }
            }
            assert(b != word_ok());
            if text.len() == 0 {
                assert(text =~= Seq::<u8>::empty());
            }
        },
        LineModel::Data(d) => {
            let ps = seq![d_sp, d];
            lemma_check_parts_ok(ps, 1);
            lemma_concat2(d_sp, d);
            lemma_prefix_concat(d_sp, d);
            assert(b[0] == 0x44u8);
            assert(!prefix_is(b, ok_sp)) by {
                if prefix_is(b, ok_sp) {
                    lemma_prefix_first(b, ok_sp);
                }
            }
            assert(!prefix_is(b, err_sp)) by {
                if prefix_is(b, err_sp) {
                    lemma_prefix_first(b, err_sp);
                }
            }
            assert(b != word_ok());
        },
        LineModel::Status { keyword, args } => {
            lemma_keyword_bytes(s_sp, keyword, args);
            let rest = if args.len() == 0 { keyword } else { keyword + seq![SPACE] + args };
            let ps = if args.len() == 0 {
                seq![s_sp, keyword]
            } else {
                seq![s_sp, keyword, seq![SPACE], args]
            };
            lemma_check_parts_ok(ps, 1);
            assert(b =~= s_sp + rest);
            lemma_prefix_concat(s_sp, rest);
            lemma_keyword_fields(keyword, args);
            assert(b[0] == 0x53u8);
            assert(!prefix_is(b, ok_sp)) by {
                if prefix_is(b, ok_sp) {
                    lemma_prefix_first(b, ok_sp);
                }
            }
            assert(!prefix_is(b, err_sp)) by {
                if prefix_is(b, err_sp) {
                    lemma_prefix_first(b, err_sp);
                }
            }
            assert(!prefix_is(b, d_sp)) by {
                if prefix_is(b, d_sp) {
                    lemma_prefix_first(b, d_sp);
                }
            }
            assert(b != word_ok());
        },
        LineModel::Inquire { keyword, args } => {
            lemma_keyword_bytes(i_sp, keyword, args);
            let rest = if args.len() == 0 { keyword } else { keyword + seq![SPACE] + args };
            let ps = if args.len() == 0 {
                seq![i_sp, keyword]
            } else {
                seq![i_sp, keyword, seq![SPACE], args]
            };
            lemma_check_parts_ok(ps, 1);
            assert(b =~= i_sp + rest);
            lemma_prefix_concat(i_sp, rest);
            lemma_keyword_fields(keyword, args);
            assert(b[0] == 0x49u8);
            assert(!prefix_is(b, ok_sp)) by {
                if prefix_is(b, ok_sp) {
                    lemma_prefix_first(b, ok_sp);
                }
            }
            assert(!prefix_is(b, err_sp)) by {
                if prefix_is(b, err_sp) {
                    lemma_prefix_first(b, err_sp);
                }
            }
            assert(!prefix_is(b, d_sp)) by {
                if prefix_is(b, d_sp) {
                    lemma_prefix_first(b, d_sp);
                }
            }
            assert(!prefix_is(b, s_sp)) by {
                if prefix_is(b, s_sp) {
                    lemma_prefix_first(b, s_sp);
                }
            }
            assert(b != word_ok());
        },
        LineModel::End => {
            lemma_check_parts_ok(seq![word_end()], 1);
            lemma_concat1(word_end());
            assert(b =~= word_end());
            assert(b != word_ok());
            assert(b[0] == 0x45u8);
            assert(!prefix_is(b, ok_sp)) by {
                if prefix_is(b, ok_sp) {
                    lemma_prefix_first(b, ok_sp);
                }
            }
            assert(!prefix_is(b, err_sp));
            assert(!prefix_is(b, d_sp)) by {
                if prefix_is(b, d_sp) {
                    lemma_prefix_first(b, d_sp);
                }
            }
            assert(!prefix_is(b, s_sp)) by {
                if prefix_is(b, s_sp) {
                    lemma_prefix_first(b, s_sp);
                }
            }
            assert(!prefix_is(b, i_sp));
        },
        LineModel::Comment(t) => {
            lemma_check_parts_ok(seq![seq![HASH], t], 1);
            lemma_concat2(seq![HASH], t);
            assert(b =~= seq![HASH] + t);
            lemma_prefix_concat(seq![HASH], t);
        },
        LineModel::Empty => {
            assert(concat(Seq::<Seq<u8>>::empty()) =~= Seq::<u8>::empty());
            assert(b =~= Seq::<u8>::empty());
        },
    }
}

/// A chunk line produced by the data encoder parses as data whose decoding
/// is exactly the consumed input.
pub proof fn law_data_line_roundtrip(s: Seq<u8>)
    ensures
        parse_line(data_prefix() + escape_data(s)) == Ok::<LineModel, super::error::ProtocolError>(
            LineModel::Data(escape_data(s)),
        ),
        decode_escapes(escape_data(s)) == Some(s),
{
    law_escape_roundtrip(s);
    lemma_escape_valid_line(s);
    let e = escape_data(s);
    let b = data_prefix() + e;
    lemma_prefix_concat(data_prefix(), e);
    assert forall|i: int| 0 <= i < b.len() implies #[trigger] line_byte(b[i]) by {
        if i >= 2 {
            assert(b[i] == e[i - 2]);
        }
    }
    let ok_sp = word_ok().push(SPACE);
    let err_sp = word_err().push(SPACE);
    assert(b[0] == 0x44u8);
    assert(!prefix_is(b, ok_sp)) by {
        if prefix_is(b, ok_sp) {
            lemma_prefix_first(b, ok_sp);
        }
    }
    assert(!prefix_is(b, err_sp)) by {
        if prefix_is(b, err_sp) {
            lemma_prefix_first(b, err_sp);
        }
    }
    assert(b != word_ok());
}

/// A command's wire text splits back into its name and arguments.
pub proof fn law_command_roundtrip(name: Seq<u8>, args: Seq<u8>)
    requires
        valid_token(name),
        valid_line(args),
    ensures
        valid_line(command_text(name, args)),
        first_field(command_text(name, args)) == name,
        after_field(command_text(name, args)) == args,
{
    lemma_token_no_space(name);
    lemma_fields(name, args);
    lemma_optional(name, args);
    let t = command_text(name, args);
    if args.len() == 0 {
        assert(args =~= Seq::<u8>::empty());
        assert forall|i: int| 0 <= i < t.len() implies #[trigger] line_byte(t[i]) by {
            assert(token_byte(name[i]));
        }
    } else {
        assert forall|i: int| 0 <= i < t.len() implies #[trigger] line_byte(t[i]) by {
            if i < name.len() {
                assert(t[i] == name[i]);
                assert(token_byte(name[i]));
            } else if i > name.len() {
                assert(t[i] == args[i - name.len() - 1]);
            }
        }
    }
}

/// Decoding keeps every byte outside an escape: bytes without `%` before a
/// decodable rest come out unchanged in front of the decoded rest, and the
/// whole fails exactly when the rest fails.
pub proof fn law_decode_keeps_plain_bytes(p: Seq<u8>, t: Seq<u8>)
    requires
        forall|i: int| 0 <= i < p.len() ==> p[i] != PERCENT,
    ensures
        decode_escapes(p + t) == (match decode_escapes(t) {
            Some(d) => Some(p + d),
            None => None::<Seq<u8>>,
        }),
    decreases p.len(),
{
    if p.len() == 0 {
        assert(p + t =~= t);
        if let Some(d) = decode_escapes(t) {
            assert(p + d =~= d);
        }
    } else {
        let pt = p + t;
        assert(pt[0] == p[0]);
        assert(pt.skip(1) =~= p.skip(1) + t);
        law_decode_keeps_plain_bytes(p.skip(1), t);
        if let Some(d) = decode_escapes(t) {
            assert(seq![p[0]] + (p.skip(1) + d) =~= p + d);
        }
    }
}

/// Text without `%` decodes to itself.
pub proof fn law_decode_without_percent(s: Seq<u8>)
    requires
        forall|i: int| 0 <= i < s.len() ==> s[i] != PERCENT,
    ensures
        decode_escapes(s) == Some(s),
{
    law_decode_keeps_plain_bytes(s, Seq::empty());
    assert(s + Seq::<u8>::empty() =~= s);
    assert(decode_escapes(Seq::<u8>::empty()) == Some(Seq::<u8>::empty()));
}

/// Escaping changes only `%`, CR, LF and NUL: data without them is sent as
/// it stands.
pub proof fn law_escape_keeps_plain_bytes(s: Seq<u8>)
    requires
        forall|i: int|
            0 <= i < s.len() ==> s[i] != PERCENT && s[i] != CR && s[i] != LF && s[i] != NUL,
    ensures
        escape_data(s) == s,
    decreases s.len(),
{
    if s.len() > 0 {
        law_escape_keeps_plain_bytes(s.drop_last());
        assert(s.drop_last() + seq![s.last()] =~= s);
    }
}

/// Hex digits of an escape may use either case: a lowercase letter digit
/// decodes as its uppercase form, in either position.
pub proof fn law_decode_hex_case_insensitive(h: u8, l: u8, t: Seq<u8>)
    requires
        is_hex_digit(h),
        is_hex_digit(l),
    ensures
        0x61u8 <= h <= 0x66u8 ==> decode_escapes(seq![PERCENT, h, l] + t) == decode_escapes(
            seq![PERCENT, (h - 0x20) as u8, l] + t,
        ),
        0x61u8 <= l <= 0x66u8 ==> decode_escapes(seq![PERCENT, h, l] + t) == decode_escapes(
            seq![PERCENT, h, (l - 0x20) as u8] + t,
        ),
{
    let a = seq![PERCENT, h, l] + t;
    assert(a.skip(3) =~= t);
    if 0x61u8 <= h <= 0x66u8 {
        let b = seq![PERCENT, (h - 0x20) as u8, l] + t;
        assert(b.skip(3) =~= t);
        assert(b[1] == (h - 0x20) as u8);
    }
    if 0x61u8 <= l <= 0x66u8 {
        let b = seq![PERCENT, h, (l - 0x20) as u8] + t;
        assert(b.skip(3) =~= t);
        assert(b[2] == (l - 0x20) as u8);
    }
}

} // verus!
