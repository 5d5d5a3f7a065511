//! Canonical encoding of S-expression values under the default limits.
use vstd::prelude::*;

use super::error::EncodeError;
use super::limits::{DEFAULT_MAX_BYTES, DEFAULT_MAX_DEPTH, DEFAULT_MAX_NODES};
use super::value::{
    atoms_all_within, atoms_within, canonical, canonical_all, depth, depth_all, lemma_all_element,
    lemma_all_push, lemma_list_tree, node_count, node_count_all, trees, Sexpr, Tree, CLOSE, COLON,
    OPEN,
};
use crate::protocol::wire::{decimal, lemma_decimal, DIGIT_ZERO};

verus! {

/// Whether `t` can be encoded under the default limits after `prefix` bytes
/// already held by the output.
pub open spec fn encodable(t: Tree, prefix: nat) -> bool {
    &&& node_count(t) <= DEFAULT_MAX_NODES
    &&& depth(t) <= DEFAULT_MAX_DEPTH
    &&& atoms_within(t, DEFAULT_MAX_BYTES as nat)
    &&& prefix + canonical(t).len() <= DEFAULT_MAX_BYTES
}

/// What an encoding error reveals about the tree and the existing output:
/// each limit error names a limit that the encoding would exceed.
pub open spec fn encode_error_holds(e: EncodeError, t: Tree, prefix: nat) -> bool {
    match e {
        EncodeError::SizeLimit => prefix + canonical(t).len() > DEFAULT_MAX_BYTES,
        EncodeError::AtomLimit => !atoms_within(t, DEFAULT_MAX_BYTES as nat),
        EncodeError::NodeLimit => node_count(t) > DEFAULT_MAX_NODES,
        EncodeError::DepthLimit => depth(t) > DEFAULT_MAX_DEPTH,
        EncodeError::LengthOverflow => node_count(t) > DEFAULT_MAX_NODES || prefix + canonical(
            t,
        ).len() > usize::MAX,
        EncodeError::AllocationFailed => true,
    }
}

/// What a measuring error reveals about a subtree visited at `level` nested
/// lists, with `bytes` and `nodes` already counted and `pending` later
/// siblings of enclosing lists still to visit.
spec fn measure_error_holds(
    e: EncodeError,
    t: Tree,
    bytes: nat,
    nodes: nat,
    level: nat,
    pending: nat,
) -> bool {
    match e {
        EncodeError::SizeLimit => bytes + canonical(t).len() > DEFAULT_MAX_BYTES,
        EncodeError::AtomLimit => !atoms_within(t, DEFAULT_MAX_BYTES as nat),
        EncodeError::NodeLimit => nodes + node_count(t) + pending > DEFAULT_MAX_NODES,
        EncodeError::DepthLimit => level + depth(t) > DEFAULT_MAX_DEPTH,
        EncodeError::LengthOverflow => nodes + node_count(t) + pending > DEFAULT_MAX_NODES,
        EncodeError::AllocationFailed => false,
    }
}

/// Measuring a subtree visited at `level` nested lists, with `bytes` and
/// `nodes` already counted and `pending` later siblings of enclosing lists
/// still to visit: the new counts, or the first exceeded limit in pre-order.
///
/// Each node is first counted against the node limit. An atom is then held
/// to the atom limit and its encoding to the size limit. A list is held to
/// the nesting limit, then its children together with every pending node to
/// the node limit (or to `usize` when that count overflows), then its two
/// parentheses to the size limit, before its children are measured in order.
pub open spec fn measure_tree(t: Tree, level: nat, pending: nat, bytes: nat, nodes: nat) -> Result<
    (nat, nat),
    EncodeError,
>
    decreases t,
{
    if nodes >= DEFAULT_MAX_NODES {
        Err(EncodeError::NodeLimit)
    } else {
        match t {
            Tree::Atom(payload) => if payload.len() > DEFAULT_MAX_BYTES {
                Err(EncodeError::AtomLimit)
            } else if bytes + canonical(t).len() > DEFAULT_MAX_BYTES {
                Err(EncodeError::SizeLimit)
            } else {
                Ok((bytes + canonical(t).len(), nodes + 1))
            },
            Tree::List(children) => if level >= DEFAULT_MAX_DEPTH {
                Err(EncodeError::DepthLimit)
            } else if nodes + 1 + pending + children.len() > usize::MAX {
                Err(EncodeError::LengthOverflow)
            } else if nodes + 1 + pending + children.len() > DEFAULT_MAX_NODES {
                Err(EncodeError::NodeLimit)
            } else if bytes + 2 > DEFAULT_MAX_BYTES {
                Err(EncodeError::SizeLimit)
            } else {
                measure_trees(children, level + 1, pending, bytes + 2, nodes + 1)
            },
        }
    }
}

/// Measuring a sequence of siblings in order.
pub open spec fn measure_trees(
    trees: Seq<Tree>,
    level: nat,
    pending: nat,
    bytes: nat,
    nodes: nat,
) -> Result<(nat, nat), EncodeError>
    decreases trees,
{
    if trees.len() == 0 {
        Ok((bytes, nodes))
    } else {
        match measure_tree(trees[0], level, (pending + trees.len() - 1) as nat, bytes, nodes) {
            Err(e) => Err(e),
            Ok((b, n)) => measure_trees(trees.subrange(1, trees.len() as int), level, pending, b, n),
        }
    }
}

/// The outcome of appending the encoding of `t` to `prefix` bytes under the
/// default limits: the first exceeded limit while measuring, then an
/// overflowing or oversized total.
pub open spec fn encode_outcome(t: Tree, prefix: nat) -> Result<(), EncodeError> {
    match measure_tree(t, 0, 0, 0, 0) {
        Err(e) => Err(e),
        Ok((bytes, _)) => if prefix + bytes > usize::MAX {
            Err(EncodeError::LengthOverflow)
        } else if prefix + bytes > DEFAULT_MAX_BYTES {
            Err(EncodeError::SizeLimit)
        } else {
            Ok(())
        },
    }
}

/// Bytes and nodes counted so far.
struct Layout {
    bytes: usize,
    nodes: usize,
}

/// The number of decimal digits of `n`.
fn decimal_len(n: usize) -> (r: usize)
    ensures
        r == decimal(n as nat).len(),
        r <= n + 1,
    decreases n,
{
    proof {
        lemma_decimal(n as nat);
    }
    if n < 10 {
        1
    } else {
        decimal_len(n / 10) + 1
    }
}

/// Appends the decimal digits of `n`.
fn write_decimal(n: usize, output: &mut Vec<u8>)
    ensures
        final(output)@ == old(output)@ + decimal(n as nat),
    decreases n,
{
    if n >= 10 {
        write_decimal(n / 10, output);
    }
    let digit = (n % 10) as u8 + DIGIT_ZERO;
    output.push(digit);
    proof {
        if n >= 10 {
            assert(decimal(n as nat) == decimal((n / 10) as nat).push(digit));
        } else {
            assert(decimal(n as nat) =~= seq![digit]);
        }
        assert(final(output)@ =~= old(output)@ + decimal(n as nat));
    }
}

/// Counts the bytes and nodes of `value` into `layout`, failing on the first
/// exceeded default limit in pre-order.
fn measure_node(value: &Sexpr<'_>, level: usize, pending: usize, layout: &mut Layout) -> (r: Result<
    (),
    EncodeError,
>)
    requires
        old(layout).bytes <= DEFAULT_MAX_BYTES,
        old(layout).nodes <= DEFAULT_MAX_NODES,
        level <= DEFAULT_MAX_DEPTH,
    ensures
        r is Ok ==> {
            &&& final(layout).bytes == old(layout).bytes + canonical(value.tree()).len()
            &&& final(layout).bytes <= DEFAULT_MAX_BYTES
            &&& final(layout).nodes == old(layout).nodes + node_count(value.tree())
            &&& final(layout).nodes <= DEFAULT_MAX_NODES
            &&& level + depth(value.tree()) <= DEFAULT_MAX_DEPTH
            &&& atoms_within(value.tree(), DEFAULT_MAX_BYTES as nat)
        },
        r matches Err(e) ==> measure_error_holds(
            e,
            value.tree(),
            old(layout).bytes as nat,
            old(layout).nodes as nat,
            level as nat,
            pending as nat,
        ),
        match measure_tree(
            value.tree(),
            level as nat,
            pending as nat,
            old(layout).bytes as nat,
            old(layout).nodes as nat,
        ) {
            Ok((bytes, nodes)) => r is Ok && final(layout).bytes == bytes && final(layout).nodes
                == nodes,
            Err(e) => r == Err::<(), EncodeError>(e),
        },
    decreases value,
{
    if layout.nodes >= DEFAULT_MAX_NODES {
        return Err(EncodeError::NodeLimit);
    }
    layout.nodes = layout.nodes + 1;
    match value {
        Sexpr::Atom(bytes) => {
            if bytes.len() > DEFAULT_MAX_BYTES {
                return Err(EncodeError::AtomLimit);
            }
            let added = decimal_len(bytes.len()) + 1 + bytes.len();
            let total = layout.bytes + added;
            if total > DEFAULT_MAX_BYTES {
                return Err(EncodeError::SizeLimit);
            }
            layout.bytes = total;
            Ok(())
        },
        Sexpr::List(children) => {
            let ghost t = value.tree();
            let ghost ts = trees(children@);
            proof {
                lemma_list_tree(*children);
                vstd::std_specs::vec::axiom_vec_decreases_to_view(*children);
            }
            if level >= DEFAULT_MAX_DEPTH {
                return Err(EncodeError::DepthLimit);
            }
            let n = children.len();
            let minimum = match layout.nodes.checked_add(pending) {
                Some(count) => count.checked_add(n),
                None => None,
            };
            proof {
                super::value::lemma_node_count_all_len(ts);
            }
            match minimum {
                None => {
                    return Err(EncodeError::LengthOverflow);
                },
                Some(count) => {
                    if count > DEFAULT_MAX_NODES {
                        return Err(EncodeError::NodeLimit);
                    }
                },
            }
            if layout.bytes + 2 > DEFAULT_MAX_BYTES {
                return Err(EncodeError::SizeLimit);
            }
            layout.bytes = layout.bytes + 2;
            let ghost start_bytes = old(layout).bytes;
            let ghost start_nodes = old(layout).nodes;
            assert(ts.skip(0) =~= ts);
            let mut i: usize = 0;
            while i < n
                invariant
                    n == children@.len(),
                    ts == trees(children@),
                    t == Tree::List(ts),
                    t == value.tree(),
                    *value == Sexpr::List(*children),
                    i <= n,
                    level < DEFAULT_MAX_DEPTH,
                    start_nodes + 1 + pending + n <= DEFAULT_MAX_NODES,
                    start_bytes == old(layout).bytes,
                    start_nodes == old(layout).nodes,
                    layout.bytes == start_bytes + 2 + canonical_all(ts.take(i as int)).len(),
                    layout.bytes <= DEFAULT_MAX_BYTES,
                    layout.nodes == start_nodes + 1 + node_count_all(ts.take(i as int)),
                    layout.nodes <= DEFAULT_MAX_NODES,
                    level + 1 + depth_all(ts.take(i as int)) <= DEFAULT_MAX_DEPTH,
                    atoms_all_within(ts.take(i as int), DEFAULT_MAX_BYTES as nat),
                    measure_trees(ts, (level + 1) as nat, pending as nat, (start_bytes + 2) as nat, (
                    start_nodes + 1) as nat) == measure_trees(
                        ts.skip(i as int),
                        (level + 1) as nat,
                        pending as nat,
                        layout.bytes as nat,
                        layout.nodes as nat,
                    ),
                decreases n - i,
            {
                proof {
                    vstd::std_specs::vec::axiom_vec_decreases_to_view(*children);
                    assert(decreases_to!(*value => children@[i as int]));
                    assert(ts[i as int] == children@[i as int].tree());
                    let rest = ts.skip(i as int);
                    assert(rest[0] == ts[i as int]);
                    assert(rest.subrange(1, rest.len() as int) =~= ts.skip(i + 1));
                    assert(rest.len() == n - i);
                }
                let ghost before_bytes = layout.bytes;
                let ghost before_nodes = layout.nodes;
                let r = measure_node(&children[i], level + 1, pending + (n - 1 - i), layout);
                proof {
                    lemma_all_element(ts, i as int, DEFAULT_MAX_BYTES as nat);
                    lemma_all_push(ts.take(i as int), ts[i as int], DEFAULT_MAX_BYTES as nat);
                    assert(ts.take(i + 1) =~= ts.take(i as int).push(ts[i as int]));
                }
                match r {
                    Err(e) => {
                        proof {
                            assert(canonical(t).len() == 2 + canonical_all(ts).len());
                            assert(node_count(t) == 1 + node_count_all(ts));
                            assert(depth(t) == 1 + depth_all(ts));
                            assert(atoms_within(t, DEFAULT_MAX_BYTES as nat) == atoms_all_within(
                                ts,
                                DEFAULT_MAX_BYTES as nat,
                            ));
                        }
                        return Err(e);
                    },
                    Ok(()) => {},
                }
                i = i + 1;
            }
            proof {
                assert(ts.take(n as int) =~= ts);
                assert(ts.skip(n as int) =~= Seq::<Tree>::empty());
            }
            Ok(())
        },
    }
}

/// Appends the canonical bytes of `value`.
fn write_node(value: &Sexpr<'_>, output: &mut Vec<u8>)
    ensures
        final(output)@ == old(output)@ + canonical(value.tree()),
    decreases value,
{
    match value {
        Sexpr::Atom(bytes) => {
            write_decimal(bytes.len(), output);
            output.push(COLON);
            let ghost mid = output@;
            let mut i: usize = 0;
            while i < bytes.len()
                invariant
                    i <= bytes@.len(),
                    output@ == mid + bytes@.take(i as int),
                decreases bytes@.len() - i,
            {
                output.push(bytes[i]);
                proof {
                    assert(bytes@.take(i + 1) =~= bytes@.take(i as int).push(bytes@[i as int]));
                }
                i = i + 1;
            }
            proof {
                assert(bytes@.take(bytes@.len() as int) =~= bytes@);
                assert(output@ =~= old(output)@ + canonical(value.tree()));
            }
        },
        Sexpr::List(children) => {
            let ghost ts = trees(children@);
            proof {
                lemma_list_tree(*children);
                vstd::std_specs::vec::axiom_vec_decreases_to_view(*children);
            }
            output.push(OPEN);
            let n = children.len();
            let mut i: usize = 0;
            while i < n
                invariant
                    n == children@.len(),
                    ts == trees(children@),
                    *value == Sexpr::List(*children),
                    i <= n,
                    output@ == old(output)@ + seq![OPEN] + canonical_all(ts.take(i as int)),
                decreases n - i,
            {
                proof {
                    vstd::std_specs::vec::axiom_vec_decreases_to_view(*children);
                    assert(decreases_to!(*value => value->List_0));
                    assert(decreases_to!(*children => children@));
                    assert(decreases_to!(children@ => children@[i as int]));
                    assert(decreases_to!(*value => children@[i as int]));
                    assert(ts[i as int] == children@[i as int].tree());
                }
                write_node(&children[i], output);
                proof {
                    lemma_all_push(ts.take(i as int), ts[i as int], 0);
                    assert(ts.take(i + 1) =~= ts.take(i as int).push(ts[i as int]));
                    assert(output@ =~= old(output)@ + seq![OPEN] + canonical_all(ts.take(i + 1)));
                }
                i = i + 1;
            }
            output.push(CLOSE);
            proof {
                assert(ts.take(n as int) =~= ts);
                assert(output@ =~= old(output)@ + canonical(value.tree()));
            }
        },
    }
}

impl<'a> Sexpr<'a> {
    /// Appends this expression's canonical bytes to an existing buffer.
    ///
    /// Applies the default limits to this expression; the output-size limit
    /// includes bytes already in `output`. All fallible work occurs before
    /// appending: on error, existing output bytes and length are unchanged.
    pub fn write_canonical(&self, output: &mut Vec<u8>) -> (r: Result<(), EncodeError>)
        ensures
            r is Ok ==> encodable(self.tree(), old(output)@.len()) && final(output)@ == old(
                output,
            )@ + canonical(self.tree()),
            r is Err ==> final(output)@ == old(output)@,
            r matches Err(e) ==> encode_error_holds(e, self.tree(), old(output)@.len()),
            encodable(self.tree(), old(output)@.len()) ==> (r is Ok || r == Err::<(), EncodeError>(
                EncodeError::AllocationFailed,
            )),
            r == encode_outcome(self.tree(), old(output)@.len()) || (r == Err::<(), EncodeError>(
                EncodeError::AllocationFailed,
            ) && encode_outcome(self.tree(), old(output)@.len()) is Ok),
    {
        let mut layout = Layout { bytes: 0, nodes: 0 };
        match measure_node(self, 0, 0, &mut layout) {
            Err(e) => {
                return Err(e);
            },
            Ok(()) => {},
        }
        let final_len = match output.len().checked_add(layout.bytes) {
            Some(n) => n,
            None => {
                return Err(EncodeError::LengthOverflow);
            },
        };
        if final_len > DEFAULT_MAX_BYTES {
            return Err(EncodeError::SizeLimit);
        }
        match output.try_reserve(layout.bytes) {
            Err(_) => {
                return Err(EncodeError::AllocationFailed);
            },
            Ok(()) => {},
        }
        write_node(self, output);
        Ok(())
    }

    /// Copies this expression into its canonical binary representation.
    ///
    /// Lengths count bytes, and output contains no extra whitespace. The
    /// default limits apply to atoms, nodes, nesting and encoded size,
    /// including trees constructed directly instead of parsed.
    pub fn to_canonical(&self) -> (r: Result<Vec<u8>, EncodeError>)
        ensures
            r matches Ok(bytes) ==> encodable(self.tree(), 0) && bytes@ == canonical(self.tree()),
            r matches Err(e) ==> encode_error_holds(e, self.tree(), 0),
            encodable(self.tree(), 0) ==> (r is Ok || r == Err::<Vec<u8>, EncodeError>(
                EncodeError::AllocationFailed,
            )),
            r is Ok ==> encode_outcome(self.tree(), 0) is Ok,
            r matches Err(e) ==> encode_outcome(self.tree(), 0) == Err::<(), EncodeError>(e) || (e
                == EncodeError::AllocationFailed && encode_outcome(self.tree(), 0) is Ok),
    {
        let mut output: Vec<u8> = Vec::new();
        match self.write_canonical(&mut output) {
            Err(e) => Err(e),
            Ok(()) => {
                assert(output@ =~= canonical(self.tree()));
                Ok(output)
            },
        }
    }
}

} // verus!
