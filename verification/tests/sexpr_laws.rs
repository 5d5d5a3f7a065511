//! Round trips, diagnostics and error texts of canonical S-expressions.

use assuan::{
    EncodeError, OwnedSexpr, ParseErrorKind, ParseLimits, Sexpr, parse_complete, parse_prefix,
};

fn pseudo_random_bytes(seed: u32, len: usize) -> Vec<u8> {
    let mut state = seed.wrapping_mul(2_654_435_761).wrapping_add(1);
    let mut bytes = Vec::with_capacity(len);
    for _ in 0..len {
        state ^= state << 13;
        state ^= state >> 17;
        state ^= state << 5;
        bytes.push((state >> 24) as u8);
    }
    bytes
}

#[test]
fn binary_atoms_roundtrip_through_the_writer_and_parser() {
    for (seed, len) in [(1, 0), (2, 1), (3, 9), (4, 10), (5, 255), (6, 4095)] {
        let bytes = pseudo_random_bytes(seed, len);
        let wire = Sexpr::Atom(&bytes).to_canonical().unwrap();
        let decoded = parse_complete(&wire, ParseLimits::default()).unwrap();
        assert_eq!(decoded, Sexpr::Atom(&bytes));
    }
}

#[test]
fn parsed_canonical_trees_reencode_exactly() {
    for wire in [
        b"0:".as_slice(),
        b"()",
        b"(3:foo0:)",
        b"((1:a)(1:b))",
        b"(((()))4:\x00()\xff)",
        b"(10:0123456789(2:ab()))",
    ] {
        let value = parse_complete(wire, ParseLimits::default()).unwrap();
        assert_eq!(value.to_canonical().unwrap(), wire);
    }
}

#[test]
fn prefix_and_complete_examples() {
    let (value, consumed) = parse_prefix(b"1:a1:b", ParseLimits::default()).unwrap();
    assert_eq!(value, Sexpr::Atom(b"a"));
    assert_eq!(consumed, 3);
    let value = parse_complete(b"(3:foo0:)", ParseLimits::default()).unwrap();
    assert_eq!(value, Sexpr::List(vec![Sexpr::Atom(b"foo"), Sexpr::Atom(b"")]));
}

#[test]
fn parse_errors_display_their_kind_and_offset() {
    let limits = ParseLimits::new(32, 3, 8, 8).unwrap();
    let error = parse_complete(b"4:", limits).unwrap_err();
    assert_eq!(error.to_string(), "atom byte limit exceeded at byte 0");
    let error = parse_complete(b"(1:a", ParseLimits::default()).unwrap_err();
    assert_eq!(error.to_string(), "incomplete S-expression at byte 4");
    let error = parse_complete(b"()x", ParseLimits::default()).unwrap_err();
    assert_eq!(error.kind(), ParseErrorKind::TrailingData);
    assert_eq!(error.to_string(), "data after complete S-expression at byte 2");
    let error = ParseLimits::new(0, 0, 1, 1).unwrap_err();
    assert_eq!(error.to_string(), "invalid S-expression limits");
}

#[test]
fn encode_errors_display_fixed_texts() {
    assert_eq!(EncodeError::SizeLimit.to_string(), "canonical output byte limit exceeded");
    assert_eq!(EncodeError::AtomLimit.to_string(), "atom byte limit exceeded");
    assert_eq!(EncodeError::NodeLimit.to_string(), "expression node limit exceeded");
    assert_eq!(EncodeError::DepthLimit.to_string(), "list nesting limit exceeded");
    assert_eq!(EncodeError::LengthOverflow.to_string(), "canonical output length overflow");
    assert_eq!(
        EncodeError::AllocationFailed.to_string(),
        "could not reserve encoding storage"
    );
}

#[test]
fn limits_report_their_configuration() {
    let limits = ParseLimits::new(10, 4, 3, 2).unwrap();
    assert_eq!(limits.max_input(), 10);
    assert_eq!(limits.max_atom(), 4);
    assert_eq!(limits.max_nodes(), 3);
    assert_eq!(limits.max_depth(), 2);
    let defaults = ParseLimits::default();
    assert_eq!(defaults.max_input(), 16 * 1024 * 1024);
    assert_eq!(defaults.max_atom(), 16 * 1024 * 1024);
    assert_eq!(defaults.max_nodes(), 65_536);
    assert_eq!(defaults.max_depth(), 64);
}

#[test]
fn each_parse_error_kind_has_an_input() {
    let cases: [(&[u8], ParseErrorKind, usize); 7] = [
        (b"01:a", ParseErrorKind::InvalidLength, 1),
        (b"1;a", ParseErrorKind::ExpectedColon, 1),
        (b")", ParseErrorKind::UnexpectedToken, 0),
        (b"5:ab", ParseErrorKind::UnexpectedEof, 4),
        (b"0:x", ParseErrorKind::TrailingData, 2),
        (b"99999999999999999999999:", ParseErrorKind::LengthOverflow, 19),
        (b"(0:0:)", ParseErrorKind::NodeLimit, 3),
    ];
    let limits = ParseLimits::new(64, 64, 2, 8).unwrap();
    for (input, kind, offset) in cases {
        let error = parse_complete(input, limits).unwrap_err();
        assert_eq!(error.kind(), kind, "{input:?}");
        if kind != ParseErrorKind::LengthOverflow {
            assert_eq!(error.offset(), Some(offset), "{input:?}");
        }
    }
    let error = parse_prefix(&[b'0'; 65], limits).unwrap_err();
    assert_eq!(error.kind(), ParseErrorKind::InputLimit);
    assert_eq!(error.offset(), Some(64));
}

#[test]
fn owned_atoms_copy_their_payload() {
    let owned = Sexpr::List(vec![Sexpr::Atom(b"ab"), Sexpr::List(vec![])]).to_owned();
    assert_eq!(
        owned,
        OwnedSexpr::List(vec![
            OwnedSexpr::Atom(Box::from(&b"ab"[..])),
            OwnedSexpr::List(vec![]),
        ])
    );
    assert_ne!(Sexpr::Atom(b"a").to_owned(), OwnedSexpr::Atom(Box::from(&b"b"[..])));
}
