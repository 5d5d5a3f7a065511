//! Validated resource limits for parsing and encoding.
use vstd::prelude::*;

use super::error::{ParseError, ParseErrorKind};

verus! {

/// The maximum configurable number of nested lists.
///
/// Parsing uses an explicit stack, but the returned tree owns nested lists.
/// This ceiling also bounds their ordinary destruction and traversal depth.
pub const MAX_NESTING_DEPTH: usize = 256;

/// Sixteen MiB, the default input and atom budget.
pub const DEFAULT_MAX_BYTES: usize = 16_777_216;

/// The default node budget.
pub const DEFAULT_MAX_NODES: usize = 65_536;

/// The default nesting budget.
pub const DEFAULT_MAX_DEPTH: usize = 64;

/// Validated limits on parsing work and list storage.
///
/// Defaults permit 16 MiB of input, atoms of up to 16 MiB, 65,536 nodes and
/// 64 nested lists. Atoms and lists each count as one node; atom bytes do not.
#[derive(Clone, Copy, Debug, Eq, PartialEq, Structural)]
pub struct ParseLimits {
    input_bytes: usize,
    atom_bytes: usize,
    nodes: usize,
    depth: usize,
}

/// The parameters that [`ParseLimits::new`] accepts.
pub open spec fn limits_valid(max_input: int, max_atom: int, max_nodes: int, max_depth: int) -> bool {
    &&& max_input != 0
    &&& max_nodes != 0
    &&& max_atom <= max_input
    &&& max_depth <= MAX_NESTING_DEPTH
}

impl ParseLimits {
    /// The input budget.
    pub closed spec fn spec_max_input(self) -> usize {
        self.input_bytes
    }

    /// The atom payload budget.
    pub closed spec fn spec_max_atom(self) -> usize {
        self.atom_bytes
    }

    /// The node budget.
    pub closed spec fn spec_max_nodes(self) -> usize {
        self.nodes
    }

    /// The nesting budget.
    pub closed spec fn spec_max_depth(self) -> usize {
        self.depth
    }

    /// Every value of this type holds parameters that `new` accepts.
    #[verifier::type_invariant]
    spec fn well_formed(self) -> bool {
        self.valid()
    }

    /// The limits satisfy the validation rules of `new`.
    pub open spec fn valid(self) -> bool {
        limits_valid(
            self.spec_max_input() as int,
            self.spec_max_atom() as int,
            self.spec_max_nodes() as int,
            self.spec_max_depth() as int,
        )
    }

    /// Constructs explicit parsing limits.
    ///
    /// `max_input` includes every byte of the supplied slice, including bytes
    /// after a prefix expression. `max_atom` counts an atom's payload only.
    /// A zero atom limit permits only empty atoms; a zero depth limit permits
    /// a top-level atom but no lists.
    ///
    /// Returns an `InvalidLimits` error, which has no offset, when `max_input`
    /// or `max_nodes` is zero, `max_atom` exceeds `max_input`, or `max_depth`
    /// exceeds [`MAX_NESTING_DEPTH`].
    pub fn new(max_input: usize, max_atom: usize, max_nodes: usize, max_depth: usize) -> (r: Result<
        Self,
        ParseError,
    >)
        ensures
            limits_valid(max_input as int, max_atom as int, max_nodes as int, max_depth as int)
                <==> r is Ok,
            r matches Ok(l) ==> l.spec_max_input() == max_input && l.spec_max_atom() == max_atom
                && l.spec_max_nodes() == max_nodes && l.spec_max_depth() == max_depth,
            r matches Err(e) ==> e.spec_kind() == ParseErrorKind::InvalidLimits
                && e.spec_offset() == None::<usize>,
    {
        if max_input == 0 || max_nodes == 0 || max_atom > max_input || max_depth > MAX_NESTING_DEPTH {
            return Err(ParseError::invalid_limits());
        }
        Ok(Self { input_bytes: max_input, atom_bytes: max_atom, nodes: max_nodes, depth: max_depth })
    }

    /// Returns the maximum size of the entire input slice, in bytes.
    pub fn max_input(self) -> (n: usize)
        ensures
            n == self.spec_max_input(),
    {
        self.input_bytes
    }

    /// Returns the maximum number of payload bytes in an atom.
    pub fn max_atom(self) -> (n: usize)
        ensures
            n == self.spec_max_atom(),
    {
        self.atom_bytes
    }

    /// Returns the maximum combined number of atoms and lists.
    pub fn max_nodes(self) -> (n: usize)
        ensures
            n == self.spec_max_nodes(),
    {
        self.nodes
    }

    /// Returns the maximum number of lists containing an expression.
    ///
    /// An empty top-level list has depth one; a top-level atom has depth zero.
    pub fn max_depth(self) -> (n: usize)
        ensures
            n == self.spec_max_depth(),
    {
        self.depth
    }

    /// The default limits.
    pub closed spec fn spec_default() -> Self {
        ParseLimits {
            input_bytes: DEFAULT_MAX_BYTES,
            atom_bytes: DEFAULT_MAX_BYTES,
            nodes: DEFAULT_MAX_NODES,
            depth: DEFAULT_MAX_DEPTH,
        }
    }

    /// The default limits hold 16 MiB of input and atom bytes, 65,536 nodes
    /// and 64 nested lists.
    pub broadcast proof fn lemma_default()
        ensures
            #[trigger] Self::spec_default().spec_max_input() == DEFAULT_MAX_BYTES,
            Self::spec_default().spec_max_atom() == DEFAULT_MAX_BYTES,
            Self::spec_default().spec_max_nodes() == DEFAULT_MAX_NODES,
            Self::spec_default().spec_max_depth() == DEFAULT_MAX_DEPTH,
    {
    }
}

impl Default for ParseLimits {
    fn default() -> (l: Self)
        ensures
            l == Self::spec_default(),
    {
        Self {
            input_bytes: DEFAULT_MAX_BYTES,
            atom_bytes: DEFAULT_MAX_BYTES,
            nodes: DEFAULT_MAX_NODES,
            depth: DEFAULT_MAX_DEPTH,
        }
    }
}

} // verus!
