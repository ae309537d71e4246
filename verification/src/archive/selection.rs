//! A selection of nodes, held in the small vector of an outside crate. What
//! its methods do is taken on trust, as each item says.

use crate::archive::NodeID;
use smallvec::SmallVec;
use vstd::prelude::*;

verus! {

/// A list of nodes that stays off the heap while it is short. It wraps
/// `smallvec::SmallVec`, which is opaque here.
#[verifier::external_body]
pub struct Selection {
    nodes: SmallVec<[NodeID; 4]>,
}

/// The nodes that a selection holds, in order.
pub uninterp spec fn selected(selection: Selection) -> Seq<NodeID>;

impl View for Selection {
    type V = Seq<NodeID>;

    open spec fn view(&self) -> Seq<NodeID> {
        selected(*self)
    }
}

impl Selection {
    /// `SmallVec::new`: a selection that holds nothing.
    #[verifier::external_body]
    pub(crate) fn empty() -> (selection: Selection)
        ensures
            selected(selection) == Seq::<NodeID>::empty(),
    {
        Selection { nodes: SmallVec::new() }
    }

    /// `SmallVec::push`: the node is added at the end.
    #[verifier::external_body]
    pub(crate) fn append(&mut self, id: NodeID)
        ensures
            selected(*final(self)) == selected(*old(self)).push(id),
    {
        self.nodes.push(id);
    }

    /// `SmallVec::as_slice`: the nodes that the selection holds, in order.
    #[verifier::external_body]
    pub(crate) fn slice(&self) -> (nodes: &[NodeID])
        ensures
            nodes@ == selected(*self),
    {
        self.nodes.as_slice()
    }

    /// A selection that holds nothing.
    pub fn new() -> (selection: Selection)
        ensures
            selection@ == Seq::<NodeID>::empty(),
    {
        Selection::empty()
    }

    /// Adds a node at the end.
    pub fn push(&mut self, id: NodeID)
        ensures
            final(self)@ == old(self)@.push(id),
    {
        self.append(id);
    }

    /// The nodes of the selection, in order.
    pub fn as_slice(&self) -> (nodes: &[NodeID])
        ensures
            nodes@ == self@,
    {
        self.slice()
    }

    /// The selection that holds the given nodes, in order.
    pub fn from_slice(nodes: &[NodeID]) -> (selection: Selection)
        ensures
            selection@ == nodes@,
    {
        let mut selection = Selection::empty();
        let mut i: usize = 0;
        while i < nodes.len()
            invariant
                i <= nodes.len(),
                selection@ == nodes@.take(i as int),
            decreases nodes.len() - i,
        {
            selection.append(nodes[i]);
            assert(nodes@.take(i + 1) =~= nodes@.take(i as int).push(nodes@[i as int]));
            i += 1;
        }
        assert(nodes@.take(nodes.len() as int) =~= nodes@);
        selection
    }

    /// Whether the selection holds the given node.
    pub fn contains(&self, id: NodeID) -> (found: bool)
        ensures
            found == self@.contains(id),
    {
        let nodes = self.slice();
        let mut i: usize = 0;
        while i < nodes.len()
            invariant
                i <= nodes.len(),
                nodes@ == self@,
                forall|j: int| 0 <= j < i ==> nodes@[j] != id,
            decreases nodes.len() - i,
        {
            if nodes[i] == id {
                return true;
            }
            i += 1;
        }
        false
    }
}

} // verus!
