//! Laws relating canonical encoding and parsing.
use vstd::prelude::*;

use super::error::{lemma_error_at, ParseError};
use super::limits::ParseLimits;
use super::parser::{add_to_top, atom_at, parse_complete_spec, parse_from, parse_prefix_spec, scan_length};
use super::writer::encodable;
use super::value::{
    atoms_all_within, atoms_within, canonical, canonical_all, depth, depth_all, lemma_all_concat,
    lemma_all_single, node_count, node_count_all, Tree, CLOSE, COLON, OPEN,
};
use crate::protocol::wire::{
    all_digits, decimal, digits_value, is_digit, lemma_decimal, lemma_digits_value_prefix,
    DIGIT_ZERO,
};

verus! {

broadcast use lemma_error_at;

/// How parsing continues once `value` is complete at `end`.
pub open spec fn resume(
    input: Seq<u8>,
    limits: ParseLimits,
    end: int,
    stack: Seq<Seq<Tree>>,
    nodes: int,
    value: Tree,
) -> Result<(Tree, int), ParseError> {
    if stack.len() == 0 {
        Ok((value, end))
    } else {
        parse_from(input, limits, end, add_to_top(stack, value), nodes)
    }
}

/// A tree respects `limits` when it is parsed as a whole.
pub open spec fn within_limits(t: Tree, limits: ParseLimits) -> bool {
    &&& node_count(t) <= limits.spec_max_nodes()
    &&& depth(t) <= limits.spec_max_depth()
    &&& atoms_within(t, limits.spec_max_atom() as nat)
}

/// Reading a canonical run of digits yields its value.
proof fn lemma_scan_digits(input: Seq<u8>, start: int, pos: int, k: int)
    requires
        k >= 1,
        0 <= start <= pos <= start + k <= input.len(),
        all_digits(input.subrange(start, start + k)),
        start + k == input.len() || !is_digit(input[start + k]),
        k == 1 || input[start] != DIGIT_ZERO,
        digits_value(input.subrange(start, start + k)) <= usize::MAX,
    ensures
        scan_length(input, start, pos, digits_value(input.subrange(start, pos))) == Ok::<
            (int, int),
            ParseError,
        >((digits_value(input.subrange(start, start + k)), start + k)),
    decreases start + k - pos,
{
    let whole = input.subrange(start, start + k);
    if pos < start + k {
        assert(whole[pos - start] == input[pos]);
        assert(is_digit(input[pos]));
        let next = input.subrange(start, pos + 1);
        assert(next.drop_last() =~= input.subrange(start, pos));
        assert(whole.take(pos + 1 - start) =~= next);
        lemma_digits_value_prefix(whole, pos + 1 - start);
        lemma_scan_digits(input, start, pos + 1, k);
    } else {
        assert(input.subrange(start, pos) =~= whole);
    }
}

/// An atom's canonical encoding reads back as that atom.
proof fn lemma_atom_canonical(input: Seq<u8>, pos: int, bytes: Seq<u8>, max_atom: int)
    requires
        0 <= pos,
        pos + canonical(Tree::Atom(bytes)).len() <= input.len(),
        input.len() <= usize::MAX,
        input.subrange(pos, pos + canonical(Tree::Atom(bytes)).len()) == canonical(
            Tree::Atom(bytes),
        ),
        bytes.len() <= max_atom,
    ensures
        atom_at(input, pos, max_atom) == Ok::<(Seq<u8>, int), ParseError>(
            (bytes, pos + canonical(Tree::Atom(bytes)).len()),
        ),
{
    let digits = decimal(bytes.len());
    let k = digits.len() as int;
    let enc = canonical(Tree::Atom(bytes));
    lemma_decimal(bytes.len());
    assert(enc == digits + seq![COLON] + bytes);
    assert(input.subrange(pos, pos + k) =~= digits) by {
        assert forall|i: int| 0 <= i < k implies input.subrange(pos, pos + k)[i] == digits[i] by {
            assert(input[pos + i] == enc[i]);
        }
    }
    assert(input[pos + k] == enc[k]);
    assert(input[pos + k] == COLON);
    assert(digits[0] == input[pos]);
    assert(input.subrange(pos, pos) =~= Seq::<u8>::empty());
    lemma_scan_digits(input, pos, pos, k);
    assert(input.subrange(pos + k + 1, pos + k + 1 + bytes.len()) =~= bytes) by {
        assert forall|i: int| 0 <= i < bytes.len() implies input.subrange(
            pos + k + 1,
            pos + k + 1 + bytes.len(),
        )[i] == bytes[i] by {
            assert(input[pos + k + 1 + i] == enc[k + 1 + i]);
        }
    }
}

/// Parsing a tree's canonical encoding completes that tree and resumes after it.
proof fn lemma_parse_tree(
    input: Seq<u8>,
    limits: ParseLimits,
    pos: int,
    stack: Seq<Seq<Tree>>,
    nodes: int,
    t: Tree,
)
    requires
        0 <= pos,
        pos + canonical(t).len() <= input.len(),
        input.len() <= usize::MAX,
        input.subrange(pos, pos + canonical(t).len()) == canonical(t),
        0 <= nodes,
        nodes + node_count(t) <= limits.spec_max_nodes(),
        stack.len() + depth(t) <= limits.spec_max_depth(),
        atoms_within(t, limits.spec_max_atom() as nat),
    ensures
        parse_from(input, limits, pos, stack, nodes) == resume(
            input,
            limits,
            pos + canonical(t).len(),
            stack,
            nodes + node_count(t),
            t,
        ),
    decreases t,
{
    let enc = canonical(t);
    assert(input[pos] == enc[0]);
    match t {
        Tree::Atom(bytes) => {
            lemma_decimal(bytes.len());
            assert(enc[0] == decimal(bytes.len())[0]);
            assert(is_digit(decimal(bytes.len())[0]));
            lemma_atom_canonical(input, pos, bytes, limits.spec_max_atom() as int);
        },
        Tree::List(children) => {
            let inner = canonical_all(children);
            let close = pos + 1 + inner.len();
            assert(enc == seq![OPEN] + inner + seq![CLOSE]);
            assert(input.subrange(pos + 1, close) =~= inner) by {
                assert forall|i: int| 0 <= i < inner.len() implies input.subrange(pos + 1, close)[i]
                    == inner[i] by {
                    assert(input[pos + 1 + i] == enc[1 + i]);
                }
            }
            assert(input[close] == enc[1 + inner.len() as int]);
            let opened = stack.push(Seq::<Tree>::empty());
            assert(parse_from(input, limits, pos, stack, nodes) == parse_from(
                input,
                limits,
                pos + 1,
                opened,
                nodes + 1,
            ));
            lemma_parse_all(input, limits, pos + 1, opened, nodes + 1, children);
            let filled = opened.drop_last().push(opened.last() + children);
            assert(opened.last() + children =~= children);
            assert(filled =~= stack.push(children));
            assert(filled.last() == children);
            assert(filled.drop_last() =~= stack);
        },
    }
}

/// Parsing the concatenated encodings of trees adds them to the innermost
/// open list.
proof fn lemma_parse_all(
    input: Seq<u8>,
    limits: ParseLimits,
    pos: int,
    stack: Seq<Seq<Tree>>,
    nodes: int,
    ts: Seq<Tree>,
)
    requires
        stack.len() >= 1,
        0 <= pos,
        pos + canonical_all(ts).len() <= input.len(),
        input.len() <= usize::MAX,
        input.subrange(pos, pos + canonical_all(ts).len()) == canonical_all(ts),
        0 <= nodes,
        nodes + node_count_all(ts) <= limits.spec_max_nodes(),
        stack.len() + depth_all(ts) <= limits.spec_max_depth(),
        atoms_all_within(ts, limits.spec_max_atom() as nat),
    ensures
        parse_from(input, limits, pos, stack, nodes) == parse_from(
            input,
            limits,
            pos + canonical_all(ts).len(),
            stack.drop_last().push(stack.last() + ts),
            nodes + node_count_all(ts),
        ),
    decreases ts,
{
    if ts.len() == 0 {
        assert(stack.last() + ts =~= stack.last());
        assert(stack.drop_last().push(stack.last()) =~= stack);
    } else {
        let first = ts[0];
        let rest = ts.subrange(1, ts.len() as int);
        let all = canonical_all(ts);
        let head = canonical(first);
        assert(all == head + canonical_all(rest));
        assert(input.subrange(pos, pos + head.len()) =~= head) by {
            assert forall|i: int| 0 <= i < head.len() implies input.subrange(pos, pos + head.len())[i]
                == head[i] by {
                assert(input[pos + i] == all[i]);
            }
        }
        let tail = canonical_all(rest);
        assert(input.subrange(pos + head.len(), pos + head.len() + tail.len()) =~= tail) by {
            assert forall|i: int| 0 <= i < tail.len() implies input.subrange(
                pos + head.len(),
                pos + head.len() + tail.len(),
            )[i] == tail[i] by {
                assert(input[pos + head.len() + i] == all[head.len() + i]);
            }
        }
        lemma_parse_tree(input, limits, pos, stack, nodes, first);
        let next = add_to_top(stack, first);
        lemma_parse_all(input, limits, pos + head.len(), next, nodes + node_count(first), rest);
        assert(next.last() + rest =~= stack.last() + ts);
        assert(next.drop_last().push(next.last() + rest) =~= stack.drop_last().push(
            stack.last() + ts,
        ));
    }
}

/// Parsing the canonical encoding of a tree that respects the limits gives
/// the tree back and consumes exactly its encoding, whatever follows it.
pub proof fn law_parse_canonical_prefix(t: Tree, rest: Seq<u8>, limits: ParseLimits)
    requires
        within_limits(t, limits),
        canonical(t).len() + rest.len() <= limits.spec_max_input(),
    ensures
        parse_prefix_spec(canonical(t) + rest, limits) == Ok::<(Tree, int), ParseError>(
            (t, canonical(t).len() as int),
        ),
{
    let input = canonical(t) + rest;
    assert(input.subrange(0, canonical(t).len() as int) =~= canonical(t));
    lemma_parse_tree(input, limits, 0, Seq::empty(), 0, t);
}

/// Parsing exactly the canonical encoding of a tree that respects the limits
/// gives the tree back.
pub proof fn law_parse_canonical(t: Tree, limits: ParseLimits)
    requires
        within_limits(t, limits),
        canonical(t).len() <= limits.spec_max_input(),
    ensures
        parse_complete_spec(canonical(t), limits) == Ok::<Tree, ParseError>(t),
{
    law_parse_canonical_prefix(t, Seq::empty(), limits);
    assert(canonical(t) + Seq::<u8>::empty() =~= canonical(t));
}

/// The bytes that open the lists of a parsing stack, each followed by the
/// encodings of its children so far.
pub open spec fn open_bytes(stack: Seq<Seq<Tree>>) -> Seq<u8>
    decreases stack.len(),
{
    if stack.len() == 0 {
        Seq::empty()
    } else {
        open_bytes(stack.drop_last()) + seq![OPEN] + canonical_all(stack.last())
    }
}

/// The atoms and lists held by a parsing stack, each open list included.
pub open spec fn stack_nodes(stack: Seq<Seq<Tree>>) -> int
    decreases stack.len(),
{
    if stack.len() == 0 {
        0
    } else {
        stack_nodes(stack.drop_last()) + 1 + node_count_all(stack.last())
    }
}

/// The open lists of a parsing stack respect the limits.
pub open spec fn stack_within(stack: Seq<Seq<Tree>>, limits: ParseLimits) -> bool {
    &&& stack.len() <= limits.spec_max_depth()
    &&& forall|i: int|
        0 <= i < stack.len() ==> i + 1 + depth_all(#[trigger] stack[i])
            <= limits.spec_max_depth()
    &&& forall|i: int|
        0 <= i < stack.len() ==> atoms_all_within(
            #[trigger] stack[i],
            limits.spec_max_atom() as nat,
        )
}

/// A canonical digit run is the decimal representation of its value.
proof fn lemma_digits_canonical(s: Seq<u8>)
    requires
        s.len() >= 1,
        all_digits(s),
        s.len() == 1 || s[0] != DIGIT_ZERO,
    ensures
        decimal(digits_value(s) as nat) == s,
        digits_value(s) >= 0,
    decreases s.len(),
{
    crate::protocol::wire::lemma_digits_value_nonneg(s);
    let d = s.last() - DIGIT_ZERO;
    assert(is_digit(s[s.len() - 1]));
    if s.len() == 1 {
        assert(s.drop_last() =~= Seq::<u8>::empty());
        assert(digits_value(Seq::<u8>::empty()) == 0);
        assert(digits_value(s) == digits_value(s.drop_last()) * 10 + d);
        assert(digits_value(s) == d);
        assert(decimal(d as nat) =~= s);
    } else {
        let front = s.drop_last();
        assert(all_digits(front)) by {
            assert forall|i: int| 0 <= i < front.len() implies #[trigger] is_digit(front[i]) by {
                assert(is_digit(s[i]));
            }
        }
        assert(front[0] == s[0]);
        lemma_digits_canonical(front);
        let v = digits_value(front);
        assert(front.take(1) =~= seq![front[0]]);
        assert(seq![front[0]].drop_last() =~= Seq::<u8>::empty());
        assert(is_digit(front[0]));
        lemma_digits_value_prefix(front, 1);
        assert(v >= 1);
        let n = digits_value(s);
        assert(n == v * 10 + d);
        vstd::arithmetic::div_mod::lemma_fundamental_div_mod_converse(n, 10, v, d as int);
        assert(decimal(n as nat) == decimal(v as nat).push(((n % 10) + DIGIT_ZERO) as u8));
        assert(decimal(n as nat) =~= s);
    }
}

/// What reading the digits of a length establishes.
proof fn lemma_scan_sound(input: Seq<u8>, start: int, pos: int, value: int)
    requires
        0 <= start <= pos <= input.len(),
        all_digits(input.subrange(start, pos)),
        value == digits_value(input.subrange(start, pos)),
        pos <= start + 1 || input[start] != DIGIT_ZERO,
    ensures
        scan_length(input, start, pos, value) matches Ok((length, end)) ==> {
            &&& pos <= end <= input.len()
            &&& all_digits(input.subrange(start, end))
            &&& length == digits_value(input.subrange(start, end))
            &&& (end <= start + 1 || input[start] != DIGIT_ZERO)
            &&& (end == input.len() || !is_digit(input[end]))
        },
    decreases input.len() - pos,
{
    if 0 <= pos < input.len() && is_digit(input[pos]) {
        if !(pos > start && input[start] == DIGIT_ZERO) {
            let next = input.subrange(start, pos + 1);
            assert(next.drop_last() =~= input.subrange(start, pos));
            assert(all_digits(next)) by {
                assert forall|i: int| 0 <= i < next.len() implies #[trigger] is_digit(next[i]) by {
                    if i < next.len() - 1 {
                        assert(next[i] == input.subrange(start, pos)[i]);
                    }
                }
            }
            lemma_scan_sound(input, start, pos + 1, value * 10 + (input[pos] - DIGIT_ZERO));
        }
    }
}

/// An atom read from the input is the canonical encoding of its payload,
/// within the atom limit.
proof fn lemma_atom_sound(input: Seq<u8>, start: int, max_atom: int)
    requires
        0 <= start < input.len(),
        is_digit(input[start]),
    ensures
        atom_at(input, start, max_atom) matches Ok((payload, end)) ==> {
            &&& start < end <= input.len()
            &&& input.subrange(start, end) == canonical(Tree::Atom(payload))
            &&& payload.len() <= max_atom
        },
{
    assert(input.subrange(start, start) =~= Seq::<u8>::empty());
    lemma_scan_sound(input, start, start, 0);
    if let Ok((length, pos)) = scan_length(input, start, start, 0) {
        if let Ok((payload, end)) = atom_at(input, start, max_atom) {
            let digits = input.subrange(start, pos);
            assert(pos > start) by {
                let next = 0 * 10 + (input[start] - DIGIT_ZERO);
                assert(scan_length(input, start, start, 0) == scan_length(
                    input,
                    start,
                    start + 1,
                    next,
                ));
                super::parser::lemma_scan_length_advances(input, start, start + 1, next);
            }
            lemma_digits_canonical(digits);
            assert(payload.len() == length);
            assert(input.subrange(start, end) =~= digits + seq![COLON] + payload);
        }
    }
}

/// Whatever parsing completes is the canonical encoding of the input it
/// consumed, and respects the limits.
proof fn lemma_parse_sound(
    input: Seq<u8>,
    limits: ParseLimits,
    pos: int,
    stack: Seq<Seq<Tree>>,
    nodes: int,
)
    requires
        0 <= pos <= input.len(),
        input.take(pos) == open_bytes(stack),
        nodes == stack_nodes(stack),
        nodes <= limits.spec_max_nodes(),
        stack_within(stack, limits),
    ensures
        parse_from(input, limits, pos, stack, nodes) matches Ok((t, end)) ==> {
            &&& 0 <= end <= input.len()
            &&& input.take(end) == canonical(t)
            &&& within_limits(t, limits)
        },
    decreases input.len() - pos, 0int,
{
    if 0 <= pos < input.len() {
        let byte = input[pos];
        let max_atom = limits.spec_max_atom() as nat;
        if byte == OPEN {
            if stack.len() < limits.spec_max_depth() && nodes < limits.spec_max_nodes() {
                let opened = stack.push(Seq::<Tree>::empty());
                assert(opened.drop_last() =~= stack);
                assert(canonical_all(Seq::<Tree>::empty()) =~= Seq::<u8>::empty());
                assert(input.take(pos + 1) =~= open_bytes(opened));
                assert(depth_all(Seq::<Tree>::empty()) == 0);
                assert(atoms_all_within(Seq::<Tree>::empty(), max_atom));
                assert(stack_within(opened, limits)) by {
                    assert forall|i: int| 0 <= i < opened.len() implies i + 1 + depth_all(
                        #[trigger] opened[i],
                    ) <= limits.spec_max_depth() by {
                        if i < stack.len() {
                            assert(opened[i] == stack[i]);
                        }
                    }
                    assert forall|i: int| 0 <= i < opened.len() implies atoms_all_within(
                        #[trigger] opened[i],
                        max_atom,
                    ) by {
                        if i < stack.len() {
                            assert(opened[i] == stack[i]);
                        }
                    }
                }
                lemma_parse_sound(input, limits, pos + 1, opened, nodes + 1);
            }
        } else if byte == CLOSE {
            if stack.len() > 0 {
                let last = stack.last();
                let value = Tree::List(last);
                let rest = stack.drop_last();
                assert(input.take(pos + 1) =~= input.take(pos).push(CLOSE));
                assert(open_bytes(stack) == open_bytes(rest) + seq![OPEN] + canonical_all(last));
                assert(canonical(value) == seq![OPEN] + canonical_all(last) + seq![CLOSE]);
                assert(input.take(pos + 1) =~= open_bytes(rest) + canonical(value));
                assert(stack[stack.len() - 1] == last);
                assert(stack_nodes(stack) == stack_nodes(rest) + node_count(value));
                if rest.len() == 0 {
                    assert(open_bytes(rest) =~= Seq::<u8>::empty());
                    assert(input.take(pos + 1) =~= canonical(value));
                    assert(stack_nodes(rest) == 0);
                    assert(stack[0] == last);
                    assert(0 + 1 + depth_all(stack[0]) <= limits.spec_max_depth());
                    assert(atoms_all_within(stack[0], max_atom));
                    assert(within_limits(value, limits));
                } else {
                    assert(stack_within(rest, limits)) by {
                        assert forall|i: int| 0 <= i < rest.len() implies i + 1 + depth_all(
                            #[trigger] rest[i],
                        ) <= limits.spec_max_depth() by {
                            assert(rest[i] == stack[i]);
                        }
                        assert forall|i: int| 0 <= i < rest.len() implies atoms_all_within(
                            #[trigger] rest[i],
                            max_atom,
                        ) by {
                            assert(rest[i] == stack[i]);
                        }
                    }
                    assert(rest.len() + depth(value) <= limits.spec_max_depth()) by {
                        assert(stack[rest.len() as int] == last);
                    }
                    assert(atoms_within(value, max_atom)) by {
                        assert(stack[rest.len() as int] == last);
                    }
                    lemma_resume_sound(input, limits, pos + 1, rest, nodes, value);
                }
            }
        } else if is_digit(byte) {
            if nodes < limits.spec_max_nodes() {
                lemma_atom_sound(input, pos, limits.spec_max_atom() as int);
                if let Ok((payload, end)) = atom_at(input, pos, limits.spec_max_atom() as int) {
                    let value = Tree::Atom(payload);
                    assert(input.take(end) =~= input.take(pos) + input.subrange(pos, end));
                    if stack.len() == 0 {
                        assert(open_bytes(stack) =~= Seq::<u8>::empty());
                        assert(input.take(end) =~= canonical(value));
                        assert(within_limits(value, limits));
                    } else {
                        lemma_resume_sound(input, limits, end, stack, nodes + 1, value);
                    }
                }
            }
        }
    }
}

/// Completing `value` into a nonempty stack keeps the parsing invariant.
proof fn lemma_resume_sound(
    input: Seq<u8>,
    limits: ParseLimits,
    end: int,
    stack: Seq<Seq<Tree>>,
    nodes: int,
    value: Tree,
)
    requires
        stack.len() >= 1,
        0 < end <= input.len(),
        input.take(end) == open_bytes(stack) + canonical(value),
        nodes == stack_nodes(stack) + node_count(value),
        nodes <= limits.spec_max_nodes(),
        stack_within(stack, limits),
        stack.len() + depth(value) <= limits.spec_max_depth(),
        atoms_within(value, limits.spec_max_atom() as nat),
    ensures
        parse_from(input, limits, end, add_to_top(stack, value), nodes) matches Ok((t, stop)) ==> {
            &&& 0 <= stop <= input.len()
            &&& input.take(stop) == canonical(t)
            &&& within_limits(t, limits)
        },
    decreases input.len() - end, 1int,
{
    let max_atom = limits.spec_max_atom() as nat;
    let next = add_to_top(stack, value);
    let top = stack.len() - 1;
    super::value::lemma_all_push(stack.last(), value, max_atom);
    assert(next.drop_last() =~= stack.drop_last());
    assert(next.last() == stack.last().push(value));
    assert(open_bytes(next) =~= open_bytes(stack) + canonical(value));
    assert(stack_nodes(next) == stack_nodes(stack) + node_count(value));
    assert(stack_within(next, limits)) by {
        assert(stack[top] == stack.last());
        assert forall|i: int| 0 <= i < next.len() implies i + 1 + depth_all(#[trigger] next[i])
            <= limits.spec_max_depth() by {
            if i < top {
                assert(next[i] == stack[i]);
            }
        }
        assert forall|i: int| 0 <= i < next.len() implies atoms_all_within(
            #[trigger] next[i],
            max_atom,
        ) by {
            if i < top {
                assert(next[i] == stack[i]);
            }
        }
    }
    lemma_parse_sound(input, limits, end, next, nodes);
}

/// Whatever the parser accepts as a first expression is the canonical
/// encoding of the value it returns, which respects the limits.
pub proof fn law_parsed_prefix_is_canonical(input: Seq<u8>, limits: ParseLimits)
    ensures
        parse_prefix_spec(input, limits) matches Ok((t, consumed)) ==> {
            &&& 0 <= consumed <= input.len()
            &&& input.take(consumed) == canonical(t)
            &&& within_limits(t, limits)
        },
{
    if input.len() <= limits.spec_max_input() {
        assert(input.take(0) =~= Seq::<u8>::empty());
        lemma_parse_sound(input, limits, 0, Seq::empty(), 0);
    }
}

/// Whatever the parser accepts as a complete expression is exactly the
/// canonical encoding of the value it returns.
pub proof fn law_parsed_is_canonical(input: Seq<u8>, limits: ParseLimits)
    ensures
        parse_complete_spec(input, limits) matches Ok(t) ==> canonical(t) == input && within_limits(
            t,
            limits,
        ),
{
    law_parsed_prefix_is_canonical(input, limits);
    if let Ok((t, consumed)) = parse_prefix_spec(input, limits) {
        if consumed == input.len() {
            assert(input.take(consumed) =~= input);
        }
    }
}

/// What the writer accepts, the parser reads back under the default limits.
pub proof fn law_encoded_parses_back(t: Tree)
    requires
        encodable(t, 0),
    ensures
        parse_complete_spec(canonical(t), ParseLimits::spec_default()) == Ok::<Tree, ParseError>(t),
{
    broadcast use ParseLimits::lemma_default;

    law_parse_canonical(t, ParseLimits::spec_default());
}

/// What the parser accepts under the default limits, the writer encodes
/// again, into exactly the bytes that were parsed.
pub proof fn law_parsed_reencodes_exactly(input: Seq<u8>)
    ensures
        parse_complete_spec(input, ParseLimits::spec_default()) matches Ok(t) ==> encodable(t, 0)
            && canonical(t) == input,
{
    broadcast use ParseLimits::lemma_default;

    law_parsed_is_canonical(input, ParseLimits::spec_default());
}

/// The parser never examines bytes after the first complete expression:
/// replacing them gives the same result, as long as the input still fits the
/// input limit.
pub proof fn law_suffix_not_examined(input: Seq<u8>, rest: Seq<u8>, limits: ParseLimits)
    requires
        parse_prefix_spec(input, limits) is Ok,
        parse_prefix_spec(input, limits)->Ok_0.1 + rest.len() <= limits.spec_max_input(),
    ensures
        parse_prefix_spec(input.take(parse_prefix_spec(input, limits)->Ok_0.1) + rest, limits)
            == parse_prefix_spec(input, limits),
{
    law_parsed_prefix_is_canonical(input, limits);
    let (t, consumed) = parse_prefix_spec(input, limits)->Ok_0;
    assert(input.take(consumed).len() == consumed);
    law_parse_canonical_prefix(t, rest, limits);
}

} // verus!
