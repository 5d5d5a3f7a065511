//! S-expression values and their abstract trees.
use vstd::prelude::*;

use crate::protocol::wire::decimal;

verus! {

/// `(`, which opens a list.
pub const OPEN: u8 = 0x28;
/// `)`, which closes a list.
pub const CLOSE: u8 = 0x29;
/// `:`, which ends an atom's length.
pub const COLON: u8 = 0x3a;

/// The abstract content of an S-expression.
pub enum Tree {
    Atom(Seq<u8>),
    List(Seq<Tree>),
}

/// The canonical encoding of a tree: an atom is its decimal byte length, a
/// colon and its bytes; a list is its children's encodings in parentheses.
pub open spec fn canonical(t: Tree) -> Seq<u8>
    decreases t,
{
    match t {
        Tree::Atom(bytes) => decimal(bytes.len()) + seq![COLON] + bytes,
        Tree::List(children) => seq![OPEN] + canonical_all(children) + seq![CLOSE],
    }
}

/// The concatenated canonical encodings of a sequence of trees.
pub open spec fn canonical_all(trees: Seq<Tree>) -> Seq<u8>
    decreases trees,
{
    if trees.len() == 0 {
        Seq::empty()
    } else {
        canonical(trees[0]) + canonical_all(trees.subrange(1, trees.len() as int))
    }
}

/// The number of atoms and lists in a tree.
pub open spec fn node_count(t: Tree) -> nat
    decreases t,
{
    match t {
        Tree::Atom(_) => 1,
        Tree::List(children) => 1 + node_count_all(children),
    }
}

/// The number of atoms and lists in a sequence of trees.
pub open spec fn node_count_all(trees: Seq<Tree>) -> nat
    decreases trees,
{
    if trees.len() == 0 {
        0
    } else {
        node_count(trees[0]) + node_count_all(trees.subrange(1, trees.len() as int))
    }
}

/// The largest number of lists that contain a node of the tree; zero for an
/// atom, one for a list of atoms.
pub open spec fn depth(t: Tree) -> nat
    decreases t,
{
    match t {
        Tree::Atom(_) => 0,
        Tree::List(children) => 1 + depth_all(children),
    }
}

/// The largest depth among a sequence of trees, zero when it is empty.
pub open spec fn depth_all(trees: Seq<Tree>) -> nat
    decreases trees,
{
    if trees.len() == 0 {
        0
    } else {
        let first = depth(trees[0]);
        let rest = depth_all(trees.subrange(1, trees.len() as int));
        if first >= rest {
            first
        } else {
            rest
        }
    }
}

/// Every atom of the tree holds at most `max` bytes.
pub open spec fn atoms_within(t: Tree, max: nat) -> bool
    decreases t,
{
    match t {
        Tree::Atom(bytes) => bytes.len() <= max,
        Tree::List(children) => atoms_all_within(children, max),
    }
}

/// Every atom of every tree in the sequence holds at most `max` bytes.
pub open spec fn atoms_all_within(trees: Seq<Tree>, max: nat) -> bool
    decreases trees,
{
    if trees.len() == 0 {
        true
    } else {
        atoms_within(trees[0], max) && atoms_all_within(trees.subrange(1, trees.len() as int), max)
    }
}

/// The larger of two naturals.
pub open spec fn max_nat(a: nat, b: nat) -> nat {
    if a >= b {
        a
    } else {
        b
    }
}

/// The sequence measures distribute over concatenation.
pub proof fn lemma_all_concat(a: Seq<Tree>, b: Seq<Tree>, max: nat)
    ensures
        canonical_all(a + b) == canonical_all(a) + canonical_all(b),
        node_count_all(a + b) == node_count_all(a) + node_count_all(b),
        depth_all(a + b) == max_nat(depth_all(a), depth_all(b)),
        atoms_all_within(a + b, max) == (atoms_all_within(a, max) && atoms_all_within(b, max)),
    decreases a.len(),
{
    if a.len() == 0 {
        assert(a + b =~= b);
        assert(canonical_all(a) + canonical_all(b) =~= canonical_all(b));
    } else {
        let rest = a.subrange(1, a.len() as int);
        lemma_all_concat(rest, b, max);
        assert((a + b).subrange(1, (a + b).len() as int) =~= rest + b);
        assert((a + b)[0] == a[0]);
        assert(canonical_all(a + b) =~= canonical_all(a) + canonical_all(b));
    }
}

/// The measures of a one-element sequence are those of its element.
pub proof fn lemma_all_single(t: Tree, max: nat)
    ensures
        canonical_all(seq![t]) == canonical(t),
        node_count_all(seq![t]) == node_count(t),
        depth_all(seq![t]) == depth(t),
        atoms_all_within(seq![t], max) == atoms_within(t, max),
{
    let s = seq![t];
    let empty = Seq::<Tree>::empty();
    assert(s.subrange(1, 1) =~= empty);
    assert(s[0] == t);
    assert(canonical_all(empty) == Seq::<u8>::empty());
    assert(node_count_all(empty) == 0);
    assert(depth_all(empty) == 0);
    assert(atoms_all_within(empty, max));
    assert(canonical_all(s) == canonical(t) + canonical_all(empty));
    assert(canonical_all(s) =~= canonical(t));
}

/// Appending a tree adds its measures.
pub proof fn lemma_all_push(a: Seq<Tree>, t: Tree, max: nat)
    ensures
        canonical_all(a.push(t)) == canonical_all(a) + canonical(t),
        node_count_all(a.push(t)) == node_count_all(a) + node_count(t),
        depth_all(a.push(t)) == max_nat(depth_all(a), depth(t)),
        atoms_all_within(a.push(t), max) == (atoms_all_within(a, max) && atoms_within(t, max)),
{
    lemma_all_concat(a, seq![t], max);
    lemma_all_single(t, max);
    assert(a.push(t) =~= a + seq![t]);
}

/// Each tree counts at least one node.
pub proof fn lemma_node_count_all_len(a: Seq<Tree>)
    ensures
        node_count_all(a) >= a.len(),
    decreases a.len(),
{
    if a.len() > 0 {
        lemma_node_count_all_len(a.subrange(1, a.len() as int));
        assert(node_count(a[0]) >= 1);
    }
}

/// A sequence's measures bound those of each of its elements.
pub proof fn lemma_all_element(a: Seq<Tree>, i: int, max: nat)
    requires
        0 <= i < a.len(),
    ensures
        depth_all(a) >= depth(a[i]),
        atoms_all_within(a, max) ==> atoms_within(a[i], max),
        node_count_all(a) >= node_count(a[i]) + (a.len() - i - 1),
        canonical_all(a).len() >= canonical_all(a.take(i)).len() + canonical(a[i]).len(),
        node_count_all(a) >= node_count_all(a.take(i)) + node_count(a[i]) + (a.len() - i - 1),
{
    let front = a.take(i);
    let back = a.subrange(i + 1, a.len() as int);
    assert(a =~= front.push(a[i]) + back);
    lemma_all_concat(front.push(a[i]), back, max);
    lemma_all_push(front, a[i], max);
    lemma_node_count_all_len(back);
}

/// A canonical S-expression whose atoms borrow the input bytes.
#[derive(PartialEq, Eq)]
pub enum Sexpr<'a> {
    /// An atom borrowing its complete binary payload, possibly empty.
    Atom(&'a [u8]),
    /// A list owning its children, possibly empty.
    List(Vec<Sexpr<'a>>),
}

impl<'a> Sexpr<'a> {
    /// The tree this value denotes.
    pub open spec fn tree(&self) -> Tree
        decreases self,
    {
        match self {
            Sexpr::Atom(b) => Tree::Atom(b@),
            Sexpr::List(children) => Tree::List(
                Seq::new(
                    children@.len(),
                    |i: int|
                        if 0 <= i < children@.len() {
                            proof {
                                vstd::std_specs::vec::axiom_vec_decreases_to_view(*children);
                                assert(decreases_to!(children@ => children@[i]));
                            }
                            children@[i].tree()
                        } else {
                            Tree::Atom(Seq::empty())
                        },
                ),
            ),
        }
    }
}

/// The trees of a sequence of values.
pub open spec fn trees<'a>(values: Seq<Sexpr<'a>>) -> Seq<Tree> {
    Seq::new(values.len(), |i: int| values[i].tree())
}

/// A list value denotes the list of its children's trees.
pub proof fn lemma_list_tree<'a>(children: Vec<Sexpr<'a>>)
    ensures
        Sexpr::List(children).tree() == Tree::List(trees(children@)),
{
    let t = Sexpr::List(children).tree();
    assert(t->List_0 =~= trees(children@));
}

impl core::fmt::Debug for Sexpr<'_> {
    /// Shows structure and atom lengths, never atom contents.
    #[verifier::external_body]
    fn fmt(&self, f: &mut core::fmt::Formatter<'_>) -> core::fmt::Result {
        match self {
            Sexpr::Atom(bytes) => f.debug_struct("Atom").field("len", &bytes.len()).finish(),
            Sexpr::List(children) => f.debug_tuple("List").field(children).finish(),
        }
    }
}

/// A canonical S-expression that owns its atom payloads.
#[derive(PartialEq, Eq)]
pub enum OwnedSexpr {
    /// An atom owning its complete binary payload, possibly empty.
    Atom(Box<[u8]>),
    /// A list owning its children, possibly empty.
    List(Vec<OwnedSexpr>),
}

impl OwnedSexpr {
    /// The tree this value denotes.
    pub open spec fn tree(&self) -> Tree
        decreases self,
    {
        match self {
            OwnedSexpr::Atom(b) => Tree::Atom(b@),
            OwnedSexpr::List(children) => Tree::List(
                Seq::new(
                    children@.len(),
                    |i: int|
                        if 0 <= i < children@.len() {
                            proof {
                                vstd::std_specs::vec::axiom_vec_decreases_to_view(*children);
                                assert(decreases_to!(children@ => children@[i]));
                            }
                            children@[i].tree()
                        } else {
                            Tree::Atom(Seq::empty())
                        },
                ),
            ),
        }
    }
}

/// An owned list denotes the list of its children's trees.
pub proof fn lemma_owned_list_tree(children: Vec<OwnedSexpr>)
    ensures
        OwnedSexpr::List(children).tree() == Tree::List(
            Seq::new(children@.len(), |i: int| children@[i].tree()),
        ),
{
    let t = OwnedSexpr::List(children).tree();
    assert(t->List_0 =~= Seq::new(children@.len(), |i: int| children@[i].tree()));
}

impl core::fmt::Debug for OwnedSexpr {
    /// Shows structure and atom lengths, never atom contents.
    #[verifier::external_body]
    fn fmt(&self, f: &mut core::fmt::Formatter<'_>) -> core::fmt::Result {
        match self {
            OwnedSexpr::Atom(bytes) => f.debug_struct("Atom").field("len", &bytes.len()).finish(),
            OwnedSexpr::List(children) => f.debug_tuple("List").field(children).finish(),
        }
    }
}

/// Copies bytes into a new boxed slice (`Box::<[u8]>::from`), which holds
/// exactly those bytes.
#[verifier::external_body]
fn boxed_bytes(bytes: &[u8]) -> (b: Box<[u8]>)
    ensures
        b@ == bytes@,
{
    Box::from(bytes)
}

impl<'a> Sexpr<'a> {
    /// Copies every atom payload, producing a value that does not borrow the
    /// input. The copied bytes are ordinary owned data, not a secret buffer.
    pub fn to_owned(&self) -> (owned: OwnedSexpr)
        ensures
            owned.tree() == self.tree(),
        decreases self,
    {
        match self {
            Sexpr::Atom(bytes) => OwnedSexpr::Atom(boxed_bytes(bytes)),
            Sexpr::List(children) => {
                let mut copies: Vec<OwnedSexpr> = Vec::new();
                let n = children.len();
                let mut i: usize = 0;
                while i < n
                    invariant
                        n == children@.len(),
                        *self == Sexpr::List(*children),
                        i <= n,
                        copies@.len() == i,
                        forall|j: int| 0 <= j < i ==> #[trigger] copies@[j].tree() == children@[j].tree(),
                    decreases n - i,
                {
                    proof {
                        vstd::std_specs::vec::axiom_vec_decreases_to_view(*children);
                        assert(decreases_to!(*self => self->List_0));
                        assert(decreases_to!(*children => children@));
                        assert(decreases_to!(children@ => children@[i as int]));
                    }
                    let copy = children[i].to_owned();
                    copies.push(copy);
                    i = i + 1;
                }
                proof {
                    lemma_list_tree(*children);
                    lemma_owned_list_tree(copies);
                    assert(Seq::new(copies@.len(), |j: int| copies@[j].tree()) =~= trees(children@));
                }
                let owned = OwnedSexpr::List(copies);
                owned
            },
        }
    }
}

} // verus!
