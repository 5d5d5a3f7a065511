//! Parsing of canonical S-expressions with an explicit stack.
use vstd::prelude::*;

use super::error::{error_at, lemma_error_at, ParseError, ParseErrorKind};
use super::limits::ParseLimits;
use super::value::{lemma_list_tree, trees, Sexpr, Tree, CLOSE, COLON, OPEN};
use crate::protocol::wire::{is_digit, DIGIT_ZERO};

verus! {

broadcast use lemma_error_at;

/// Reads the decimal length of an atom that starts at `start`, with the
/// digits before `pos` already read as `value`: each digit must not follow a
/// leading zero and must keep the value within `usize`. Yields the length and
/// the position of the first byte after the digits.
pub open spec fn scan_length(input: Seq<u8>, start: int, pos: int, value: int) -> Result<
    (int, int),
    ParseError,
>
    decreases input.len() - pos,
{
    if 0 <= pos < input.len() && is_digit(input[pos]) {
        if pos > start && input[start] == DIGIT_ZERO {
            Err(error_at(ParseErrorKind::InvalidLength, pos))
        } else {
            let next = value * 10 + (input[pos] - DIGIT_ZERO);
            if next > usize::MAX {
                Err(error_at(ParseErrorKind::LengthOverflow, pos))
            } else {
                scan_length(input, start, pos + 1, next)
            }
        }
    } else {
        Ok((value, pos))
    }
}

/// The atom that starts at `start`: its payload and the position after it.
pub open spec fn atom_at(input: Seq<u8>, start: int, max_atom: int) -> Result<(Seq<u8>, int), ParseError> {
    match scan_length(input, start, start, 0) {
        Err(e) => Err(e),
        Ok((length, pos)) => if pos >= input.len() {
            Err(error_at(ParseErrorKind::UnexpectedEof, pos))
        } else if input[pos] != COLON {
            Err(error_at(ParseErrorKind::ExpectedColon, pos))
        } else if length > max_atom {
            Err(error_at(ParseErrorKind::AtomLimit, start))
        } else if pos + 1 + length > usize::MAX {
            Err(error_at(ParseErrorKind::LengthOverflow, start))
        } else if pos + 1 + length > input.len() {
            Err(error_at(ParseErrorKind::UnexpectedEof, input.len() as int))
        } else {
            Ok((input.subrange(pos + 1, pos + 1 + length), pos + 1 + length))
        },
    }
}

/// Scanning never moves backwards.
pub proof fn lemma_scan_length_advances(input: Seq<u8>, start: int, pos: int, value: int)
    requires
        value >= 0,
    ensures
        scan_length(input, start, pos, value) matches Ok((length, end)) ==> end >= pos && length
            >= 0,
    decreases input.len() - pos,
{
    if 0 <= pos < input.len() && is_digit(input[pos]) {
        let next = value * 10 + (input[pos] - DIGIT_ZERO);
        lemma_scan_length_advances(input, start, pos + 1, next);
    }
}

/// An atom that starts with a digit ends after its start.
pub proof fn lemma_atom_at_advances(input: Seq<u8>, start: int, max_atom: int)
    requires
        0 <= start < input.len(),
        is_digit(input[start]),
    ensures
        atom_at(input, start, max_atom) matches Ok((_, end)) ==> start < end <= input.len(),
{
    let next = 0 * 10 + (input[start] - DIGIT_ZERO);
    assert(next <= 9);
    assert(scan_length(input, start, start, 0) == scan_length(input, start, start + 1, next));
    lemma_scan_length_advances(input, start, start + 1, next);
}

/// Reading a length fails only for a leading zero or an overflow.
proof fn lemma_scan_length_kinds(input: Seq<u8>, start: int, pos: int, value: int)
    ensures
        scan_length(input, start, pos, value) matches Err(e) ==> e.spec_kind()
            == ParseErrorKind::InvalidLength || e.spec_kind() == ParseErrorKind::LengthOverflow,
    decreases input.len() - pos,
{
    if 0 <= pos < input.len() && is_digit(input[pos]) {
        let next = value * 10 + (input[pos] - DIGIT_ZERO);
        lemma_scan_length_kinds(input, start, pos + 1, next);
    }
}

/// Reading an atom never fails for want of storage.
proof fn lemma_atom_at_kinds(input: Seq<u8>, start: int, max_atom: int)
    ensures
        atom_at(input, start, max_atom) matches Err(e) ==> e.spec_kind()
            != ParseErrorKind::AllocationFailed,
{
    lemma_scan_length_kinds(input, start, start, 0);
}

/// The stack after a complete value is added to the innermost open list.
pub open spec fn add_to_top(stack: Seq<Seq<Tree>>, value: Tree) -> Seq<Seq<Tree>> {
    stack.drop_last().push(stack.last().push(value))
}

/// Parsing from `pos` with the open lists of `stack` (innermost last) and
/// `nodes` atoms and lists counted: the first complete top-level value and
/// the position after it, or the first error.
pub open spec fn parse_from(
    input: Seq<u8>,
    limits: ParseLimits,
    pos: int,
    stack: Seq<Seq<Tree>>,
    nodes: int,
) -> Result<(Tree, int), ParseError>
    decreases input.len() - pos,
{
    if !(0 <= pos < input.len()) {
        Err(error_at(ParseErrorKind::UnexpectedEof, pos))
    } else {
        let byte = input[pos];
        if byte == OPEN {
            if stack.len() >= limits.spec_max_depth() {
                Err(error_at(ParseErrorKind::DepthLimit, pos))
            } else if nodes >= limits.spec_max_nodes() {
                Err(error_at(ParseErrorKind::NodeLimit, pos))
            } else {
                parse_from(input, limits, pos + 1, stack.push(Seq::empty()), nodes + 1)
            }
        } else if byte == CLOSE {
            if stack.len() == 0 {
                Err(error_at(ParseErrorKind::UnexpectedToken, pos))
            } else {
                let value = Tree::List(stack.last());
                let rest = stack.drop_last();
                if rest.len() == 0 {
                    Ok((value, pos + 1))
                } else {
                    parse_from(input, limits, pos + 1, add_to_top(rest, value), nodes)
                }
            }
        } else if is_digit(byte) {
            if nodes >= limits.spec_max_nodes() {
                Err(error_at(ParseErrorKind::NodeLimit, pos))
            } else {
                match atom_at(input, pos, limits.spec_max_atom() as int) {
                    Err(e) => Err(e),
                    Ok((payload, end)) => {
                        proof {
                            lemma_atom_at_advances(input, pos, limits.spec_max_atom() as int);
                        }
                        if stack.len() == 0 {
                            Ok((Tree::Atom(payload), end))
                        } else {
                            parse_from(
                                input,
                                limits,
                                end,
                                add_to_top(stack, Tree::Atom(payload)),
                                nodes + 1,
                            )
                        }
                    },
                }
            }
        } else {
            Err(error_at(ParseErrorKind::UnexpectedToken, pos))
        }
    }
}

/// The result of parsing the first expression of `input`.
pub open spec fn parse_prefix_spec(input: Seq<u8>, limits: ParseLimits) -> Result<
    (Tree, int),
    ParseError,
> {
    if input.len() > limits.spec_max_input() {
        Err(error_at(ParseErrorKind::InputLimit, limits.spec_max_input() as int))
    } else {
        parse_from(input, limits, 0, Seq::empty(), 0)
    }
}

/// The result of parsing `input` as exactly one expression.
pub open spec fn parse_complete_spec(input: Seq<u8>, limits: ParseLimits) -> Result<Tree, ParseError> {
    match parse_prefix_spec(input, limits) {
        Err(e) => Err(e),
        Ok((t, consumed)) => if consumed != input.len() {
            Err(error_at(ParseErrorKind::TrailingData, consumed))
        } else {
            Ok(t)
        },
    }
}

/// The trees of each open list of a parsing stack.
pub open spec fn stack_trees<'a>(lists: Seq<Vec<Sexpr<'a>>>) -> Seq<Seq<Tree>> {
    Seq::new(lists.len(), |i: int| trees(lists[i]@))
}

/// Reads the atom at `start`, which begins with a digit.
fn parse_atom<'a>(input: &'a [u8], start: usize, max_atom: usize) -> (r: Result<
    (&'a [u8], usize),
    ParseError,
>)
    requires
        start < input@.len(),
        is_digit(input@[start as int]),
    ensures
        match r {
            Ok((payload, end)) => atom_at(input@, start as int, max_atom as int) == Ok::<
                (Seq<u8>, int),
                ParseError,
            >((payload@, end as int)),
            Err(e) => atom_at(input@, start as int, max_atom as int) == Err::<
                (Seq<u8>, int),
                ParseError,
            >(e),
        },
{
    let mut position = start;
    let mut length: usize = 0;
    while position < input.len() && DIGIT_ZERO <= input[position] && input[position] <= 0x39
        invariant
            start <= position <= input@.len(),
            scan_length(input@, start as int, start as int, 0) == scan_length(
                input@,
                start as int,
                position as int,
                length as int,
            ),
        decreases input@.len() - position,
    {
        if position > start && input[start] == DIGIT_ZERO {
            return Err(ParseError::at(ParseErrorKind::InvalidLength, position));
        }
        let digit = (input[position] - DIGIT_ZERO) as usize;
        let next = match length.checked_mul(10) {
            Some(scaled) => scaled.checked_add(digit),
            None => None,
        };
        match next {
            Some(value) => {
                length = value;
            },
            None => {
                return Err(ParseError::at(ParseErrorKind::LengthOverflow, position));
            },
        }
        position = position + 1;
    }
    if position >= input.len() {
        return Err(ParseError::at(ParseErrorKind::UnexpectedEof, position));
    }
    if input[position] != COLON {
        return Err(ParseError::at(ParseErrorKind::ExpectedColon, position));
    }
    position = position + 1;
    if length > max_atom {
        return Err(ParseError::at(ParseErrorKind::AtomLimit, start));
    }
    let end = match position.checked_add(length) {
        Some(end) => end,
        None => {
            return Err(ParseError::at(ParseErrorKind::LengthOverflow, start));
        },
    };
    if end > input.len() {
        return Err(ParseError::at(ParseErrorKind::UnexpectedEof, input.len()));
    }
    let payload = vstd::slice::slice_subrange(input, position, end);
    Ok((payload, end))
}

/// What a parse result denotes.
pub open spec fn prefix_outcome<'a>(r: Result<(Sexpr<'a>, usize), ParseError>) -> Result<
    (Tree, int),
    ParseError,
> {
    match r {
        Ok((value, consumed)) => Ok((value.tree(), consumed as int)),
        Err(e) => Err(e),
    }
}

/// Whether parsing `input` opens a list, the only step that reserves
/// storage: the input fits its limit and starts with `(`, which the depth
/// and node limits admit.
pub open spec fn opens_list(input: Seq<u8>, limits: ParseLimits) -> bool {
    &&& input.len() <= limits.spec_max_input()
    &&& input.len() > 0
    &&& input[0] == OPEN
    &&& limits.spec_max_depth() > 0
    &&& limits.spec_max_nodes() > 0
}

/// Whether parsing from `pos`, with the open lists of `stack` and `nodes`
/// atoms and lists counted, reaches a step at offset `o` that reserves list
/// storage: opening a list at its `(`, or adding a complete value to an open
/// list at the byte after that value.
pub open spec fn reserves_from(
    input: Seq<u8>,
    limits: ParseLimits,
    pos: int,
    stack: Seq<Seq<Tree>>,
    nodes: int,
    o: int,
) -> bool
    decreases input.len() - pos,
{
    if !(0 <= pos < input.len()) {
        false
    } else {
        let byte = input[pos];
        if byte == OPEN {
            if stack.len() >= limits.spec_max_depth() || nodes >= limits.spec_max_nodes() {
                false
            } else {
                o == pos || reserves_from(input, limits, pos + 1, stack.push(Seq::empty()), nodes + 1, o)
            }
        } else if byte == CLOSE {
            if stack.len() <= 1 {
                false
            } else {
                let value = Tree::List(stack.last());
                o == pos + 1 || reserves_from(
                    input,
                    limits,
                    pos + 1,
                    add_to_top(stack.drop_last(), value),
                    nodes,
                    o,
                )
            }
        } else if is_digit(byte) && nodes < limits.spec_max_nodes() && stack.len() > 0 {
            match atom_at(input, pos, limits.spec_max_atom() as int) {
                Err(_) => false,
                Ok((payload, end)) => {
                    proof {
                        lemma_atom_at_advances(input, pos, limits.spec_max_atom() as int);
                    }
                    o == end || reserves_from(
                        input,
                        limits,
                        end,
                        add_to_top(stack, Tree::Atom(payload)),
                        nodes + 1,
                        o,
                    )
                },
            }
        } else {
            false
        }
    }
}

/// Whether parsing `input` reserves list storage at offset `o`.
pub open spec fn reserves_at(input: Seq<u8>, limits: ParseLimits, o: int) -> bool {
    input.len() <= limits.spec_max_input() && reserves_from(input, limits, 0, Seq::empty(), 0, o)
}

/// A failure to reserve storage, which no input determines.
pub open spec fn allocation_failed(e: ParseError) -> bool {
    e.spec_kind() == ParseErrorKind::AllocationFailed
}

/// Parses the first canonical expression and returns the number of bytes read.
///
/// Atoms borrow `input`; list nodes allocate child storage. The input-byte
/// limit applies to the entire supplied slice, even when only its first
/// expression is parsed. Whitespace outside an atom is not skipped, and bytes
/// after the first complete expression are left unexamined.
///
/// The result is that of [`parse_prefix_spec`], except that a failed
/// reservation of list storage may end parsing with an `AllocationFailed`
/// error instead, at an offset where the parse reserves storage
/// ([`reserves_at`]). Only an input that opens a list reserves storage;
/// every other input gets exactly the specified result.
pub fn parse_prefix<'a>(input: &'a [u8], limits: ParseLimits) -> (r: Result<
    (Sexpr<'a>, usize),
    ParseError,
>)
    ensures
        prefix_outcome(r) == parse_prefix_spec(input@, limits) || (r matches Err(e)
            && allocation_failed(e)),
        r matches Err(e) ==> (allocation_failed(e) ==> opens_list(input@, limits) && (
        e.spec_offset() matches Some(o) && o <= input@.len() && reserves_at(input@, limits, o as int))),
        !opens_list(input@, limits) ==> prefix_outcome(r) == parse_prefix_spec(input@, limits),
{
    if input.len() > limits.max_input() {
        return Err(ParseError::at(ParseErrorKind::InputLimit, limits.max_input()));
    }
    let mut lists: Vec<Vec<Sexpr<'a>>> = Vec::new();
    let mut position: usize = 0;
    let mut nodes: usize = 0;
    proof {
        assert(stack_trees(lists@) =~= Seq::<Seq<Tree>>::empty());
    }
    loop
        invariant
            position <= input@.len(),
            input@.len() <= limits.spec_max_input(),
            lists@.len() == 0 ==> position == 0,
            lists@.len() > 0 ==> opens_list(input@, limits) && position > 0,
            parse_prefix_spec(input@, limits) == parse_from(
                input@,
                limits,
                position as int,
                stack_trees(lists@),
                nodes as int,
            ),
            forall|o: int|
                reserves_from(
                    input@,
                    limits,
                    position as int,
                    stack_trees(lists@),
                    nodes as int,
                    o,
                ) ==> #[trigger] reserves_at(input@, limits, o),
        decreases input@.len() - position,
    {
        let ghost stack = stack_trees(lists@);
        let ghost nodes_at_start = nodes as int;
        let ghost position_at_start = position as int;
        let ghost depth_at_start = lists@.len();
        if position >= input.len() {
            return Err(ParseError::at(ParseErrorKind::UnexpectedEof, position));
        }
        let byte = input[position];
        if byte == OPEN {
            if lists.len() >= limits.max_depth() {
                return Err(ParseError::at(ParseErrorKind::DepthLimit, position));
            }
            if nodes >= limits.max_nodes() {
                return Err(ParseError::at(ParseErrorKind::NodeLimit, position));
            }
            nodes = nodes + 1;
            match lists.try_reserve(1) {
                Err(_) => {
                    proof {
                        assert(reserves_from(input@, limits, position as int, stack, nodes_at_start, position as int));
                    }
                    return Err(ParseError::at(ParseErrorKind::AllocationFailed, position));
                },
                Ok(()) => {},
            }
            lists.push(Vec::new());
            position = position + 1;
            proof {
                assert(trees(lists@.last()@) =~= Seq::<Tree>::empty());
                assert(stack_trees(lists@) =~= stack.push(Seq::empty()));
                assert forall|o: int|
                    reserves_from(
                        input@,
                        limits,
                        position as int,
                        stack_trees(lists@),
                        nodes as int,
                        o,
                    ) implies #[trigger] reserves_at(input@, limits, o) by {
                    assert(reserves_from(input@, limits, position_at_start, stack, nodes_at_start, o));
                }
            }
        } else {
            let value: Sexpr<'a> = if byte == CLOSE {
                match lists.pop() {
                    None => {
                        return Err(ParseError::at(ParseErrorKind::UnexpectedToken, position));
                    },
                    Some(children) => {
                        proof {
                            lemma_list_tree(children);
                            assert(stack_trees(lists@) =~= stack.drop_last());
                        }
                        position = position + 1;
                        Sexpr::List(children)
                    },
                }
            } else if DIGIT_ZERO <= byte && byte <= 0x39 {
                if nodes >= limits.max_nodes() {
                    return Err(ParseError::at(ParseErrorKind::NodeLimit, position));
                }
                nodes = nodes + 1;
                match parse_atom(input, position, limits.max_atom()) {
                    Err(e) => {
                        proof {
                            lemma_atom_at_kinds(input@, position as int, limits.spec_max_atom() as int);
                        }
                        return Err(e);
                    },
                    Ok((payload, end)) => {
                        proof {
                            lemma_atom_at_advances(
                                input@,
                                position as int,
                                limits.spec_max_atom() as int,
                            );
                        }
                        position = end;
                        Sexpr::Atom(payload)
                    },
                }
            } else {
                return Err(ParseError::at(ParseErrorKind::UnexpectedToken, position));
            };
            let ghost open_lists = stack_trees(lists@);
            match lists.pop() {
                None => {
                    return Ok((value, position));
                },
                Some(mut parent) => {
                    assert(depth_at_start > 0);
                    match parent.try_reserve(1) {
                        Err(_) => {
                            proof {
                                assert(reserves_from(input@, limits, position_at_start, stack, nodes_at_start, position as int));
                            }
                            return Err(ParseError::at(ParseErrorKind::AllocationFailed, position));
                        },
                        Ok(()) => {},
                    }
                    let ghost tree = value.tree();
                    parent.push(value);
                    lists.push(parent);
                    proof {
                        assert(trees(parent@) =~= open_lists.last().push(tree));
                        assert(stack_trees(lists@) =~= add_to_top(open_lists, tree));
                        assert forall|o: int|
                            reserves_from(
                                input@,
                                limits,
                                position as int,
                                stack_trees(lists@),
                                nodes as int,
                                o,
                            ) implies #[trigger] reserves_at(input@, limits, o) by {
                            assert(reserves_from(input@, limits, position_at_start, stack, nodes_at_start, o));
                        }
                    }
                },
            }
        }
    }
}

/// Parses exactly one canonical S-expression, borrowing atom payloads.
///
/// This applies the same syntax and limits as [`parse_prefix`], and
/// additionally requires that every input byte belongs to the expression,
/// reporting `TrailingData` at the first byte after it otherwise.
pub fn parse_complete<'a>(input: &'a [u8], limits: ParseLimits) -> (r: Result<Sexpr<'a>, ParseError>)
    ensures
        match r {
            Ok(value) => parse_complete_spec(input@, limits) == Ok::<Tree, ParseError>(value.tree()),
            Err(e) => parse_complete_spec(input@, limits) == Err::<Tree, ParseError>(e)
                || allocation_failed(e),
        },
        r matches Err(e) ==> (allocation_failed(e) ==> opens_list(input@, limits) && (
        e.spec_offset() matches Some(o) && o <= input@.len() && reserves_at(input@, limits, o as int))),
        !opens_list(input@, limits) ==> match r {
            Ok(value) => parse_complete_spec(input@, limits) == Ok::<Tree, ParseError>(value.tree()),
            Err(e) => parse_complete_spec(input@, limits) == Err::<Tree, ParseError>(e),
        },
{
    let (value, consumed) = match parse_prefix(input, limits) {
        Ok(parsed) => parsed,
        Err(e) => {
            return Err(e);
        },
    };
    if consumed != input.len() {
        return Err(ParseError::at(ParseErrorKind::TrailingData, consumed));
    }
    Ok(value)
}

} // verus!
