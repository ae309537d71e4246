//! The depth-first walk over the tree, from a set of base nodes.

use crate::archive::model::wf_nodes;
use crate::archive::{ArchiveEntries, ArchiveEntry, EntryView, NodeID};
use vstd::prelude::*;

verus! {

/// Whether a name counts as a component of a relative path: the names that
/// stand for the current directory, the parent directory and the root do not.
pub open spec fn is_valid_name(name: Seq<char>) -> bool {
    name != seq!['.', '.'] && name != seq!['.'] && name != seq!['/']
}

/// The relative path after a node of the given name was entered.
pub open spec fn extended(path: Seq<Seq<char>>, name: Seq<char>) -> Seq<Seq<char>> {
    if is_valid_name(name) {
        path.push(name)
    } else {
        path
    }
}

/// One step of a walk: a node, and the names on the way from the base node
/// of the walk down to it.
pub struct Visit {
    pub id: NodeID,
    pub path: Seq<Seq<char>>,
}

/// A node that a walk has still to enter, with the path to the node above it.
pub struct PendingView {
    pub id: NodeID,
    pub path: Seq<Seq<char>>,
}

/// The walk of the subtree below `id`, entered with `path`: the node itself
/// first, then its children's subtrees, the last child's first.
pub open spec fn subtree_walk(nodes: Seq<EntryView>, id: int, path: Seq<Seq<char>>) -> Seq<Visit>
    decreases nodes.len() - id, 1int, 0int,
{
    if id < 0 || id >= nodes.len() {
        Seq::empty()
    } else {
        let below = extended(path, nodes[id].name);
        seq![Visit { id: NodeID(id as usize), path: below }] + children_walk(
            nodes,
            id,
            nodes[id].children.len() as int,
            below,
        )
    }
}

/// The walk of the subtrees of the first `k` children of `id`, the last of
/// them first.
pub open spec fn children_walk(nodes: Seq<EntryView>, id: int, k: int, path: Seq<Seq<char>>) -> Seq<
    Visit,
>
    decreases nodes.len() - id, 0int, k,
{
    if id < 0 || id >= nodes.len() || k <= 0 || k > nodes[id].children.len() {
        Seq::empty()
    } else {
        let child = nodes[id].children[k - 1]@;
        let first = if id < child < nodes.len() {
            subtree_walk(nodes, child, path)
        } else {
            Seq::empty()
        };
        first + children_walk(nodes, id, k - 1, path)
    }
}

/// The walk that a stack of pending nodes stands for: the top of the stack,
/// its last element, is entered first.
pub open spec fn stack_walk(nodes: Seq<EntryView>, stack: Seq<PendingView>) -> Seq<Visit>
    decreases stack.len(),
{
    if stack.len() == 0 {
        Seq::empty()
    } else {
        subtree_walk(nodes, stack.last().id@, stack.last().path) + stack_walk(
            nodes,
            stack.drop_last(),
        )
    }
}

/// The stack that a walk from `bases` starts with.
pub open spec fn base_stack(bases: Seq<NodeID>) -> Seq<PendingView> {
    bases.map_values(|id: NodeID| PendingView { id, path: Seq::empty() })
}

/// The walk from a set of base nodes.
pub open spec fn walk(nodes: Seq<EntryView>, bases: Seq<NodeID>) -> Seq<Visit> {
    stack_walk(nodes, base_stack(bases))
}

/// The names of a relative path.
pub open spec fn names_view(path: Seq<String>) -> Seq<Seq<char>> {
    path.map_values(|s: String| s@)
}

/// Whether a name counts as a component of a relative path.
pub fn is_valid_filename(name: &str) -> (valid: bool)
    ensures
        valid == is_valid_name(name@),
{
    let n = name.unicode_len();
    if n == 1 {
        let c = name.get_char(0);
        assert(name@ =~= seq![c]);
        assert(seq!['.'][0] == '.');
        assert(seq!['/'][0] == '/');
        !(c == '.' || c == '/')
    } else if n == 2 {
        let c0 = name.get_char(0);
        let c1 = name.get_char(1);
        assert(name@ =~= seq![c0, c1]);
        assert(seq!['.', '.'][0] == '.' && seq!['.', '.'][1] == '.');
        !(c0 == '.' && c1 == '.')
    } else {
        assert(seq!['.', '.'].len() == 2);
        assert(seq!['.'].len() == 1);
        assert(seq!['/'].len() == 1);
        true
    }
}

/// A copy of a relative path.
pub fn clone_names(path: &Vec<String>) -> (copy: Vec<String>)
    ensures
        names_view(copy@) == names_view(path@),
{
    let mut copy: Vec<String> = Vec::new();
    let mut i: usize = 0;
    while i < path.len()
        invariant
            i <= path.len(),
            copy.len() == i,
            forall|j: int| 0 <= j < i ==> copy@[j]@ == path@[j]@,
        decreases path.len() - i,
    {
        copy.push(path[i].clone());
        i += 1;
    }
    assert(names_view(copy@) =~= names_view(path@));
    copy
}

/// A node that the walk has still to enter.
pub struct Pending {
    pub id: NodeID,
    pub path: Vec<String>,
}

impl View for Pending {
    type V = PendingView;

    open spec fn view(&self) -> PendingView {
        PendingView { id: self.id, path: names_view(self.path@) }
    }
}

/// The views of a stack of pending nodes.
pub open spec fn stack_view(stack: Seq<Pending>) -> Seq<PendingView> {
    stack.map_values(|p: Pending| p@)
}

/// A walk in progress. It hands out one node at a time and cannot be
/// restarted.
pub struct ChildrenIter<'a> {
    queue: Vec<Pending>,
    files: &'a ArchiveEntries,
}

impl<'a> ChildrenIter<'a> {
    /// The arena that is walked.
    pub closed spec fn files(&self) -> &'a ArchiveEntries {
        self.files
    }

    /// The nodes that are still to be entered, the next one last.
    pub closed spec fn pending(&self) -> Seq<PendingView> {
        stack_view(self.queue@)
    }

    /// Whether every pending node is a node of a well-formed arena.
    pub open spec fn wf(&self) -> bool {
        &&& self.files().wf()
        &&& forall|i: int|
            0 <= i < self.pending().len() ==> 0 <= (#[trigger] self.pending()[i]).id@
                < self.files()@.len()
    }

    /// The visits that the walk will still make, in order.
    pub open spec fn remaining(&self) -> Seq<Visit> {
        stack_walk(self.files()@, self.pending())
    }

    /// A walk from `base_nodes`: the last of them is entered first.
    pub fn new(base_nodes: &[NodeID], files: &'a ArchiveEntries) -> (iter: Self)
        requires
            files.wf(),
            forall|i: int| 0 <= i < base_nodes@.len() ==> base_nodes@[i]@ < files@.len(),
        ensures
            iter.wf(),
            iter.files() == files,
            iter.pending() == base_stack(base_nodes@),
            iter.remaining() == walk(files@, base_nodes@),
    {
        let mut queue: Vec<Pending> = Vec::new();
        let mut i: usize = 0;
        while i < base_nodes.len()
            invariant
                i <= base_nodes.len(),
                queue.len() == i,
                forall|j: int|
                    0 <= j < i ==> (#[trigger] queue@[j])@ == (PendingView {
                        id: base_nodes@[j],
                        path: Seq::empty(),
                    }),
            decreases base_nodes.len() - i,
        {
            let path: Vec<String> = Vec::new();
            assert(names_view(path@) =~= Seq::<Seq<char>>::empty());
            queue.push(Pending { id: base_nodes[i], path });
            i += 1;
        }
        assert(stack_view(queue@) =~= base_stack(base_nodes@));
        ChildrenIter { queue, files }
    }

    /// The next visit of the walk, with the node that is visited; `None` once
    /// the walk is over. A node is handed out before any node below it.
    pub fn next(&mut self) -> (item: Option<(NodeID, &'a ArchiveEntry, Vec<String>)>)
        requires
            old(self).wf(),
        ensures
            final(self).wf(),
            final(self).files() == old(self).files(),
            match item {
                None => old(self).remaining().len() == 0 && final(self).remaining().len() == 0,
                Some((id, entry, path)) => {
                    &&& id@ < old(self).files()@.len()
                    &&& entry@ == old(self).files()@[id@]
                    &&& old(self).remaining() == seq![Visit { id, path: names_view(path@) }]
                        + final(self).remaining()
                },
            },
    {
        let ghost nodes = self.files@;
        let ghost before = stack_view(self.queue@);
        let top = match self.queue.pop() {
            Some(top) => top,
            None => {
                return None;
            },
        };
        let ghost rest = stack_view(self.queue@);
        proof {
            assert(rest =~= before.drop_last());
            assert(top@ == before.last());
            assert(top@ == before[before.len() - 1]);
            assert(0 <= old(self).pending()[before.len() - 1].id@ < nodes.len());
            assert forall|i: int| 0 <= i < rest.len() implies 0 <= (#[trigger] rest[i]).id@
                < nodes.len() by {
                assert(rest[i] == old(self).pending()[i]);
            }
        }
        let id = top.id;
        let mut path = top.path;
        let node = self.files.get(id);
        let ghost entered = names_view(path@);
        if is_valid_filename(node.name.as_str()) {
            path.push(node.name.clone());
        }
        let ghost below = names_view(path@);
        assert(below =~= extended(entered, nodes[id@].name));
        let mut j: usize = 0;
        while j < node.children.len()
            invariant
                j <= node.children.len(),
                node@ == nodes[id@],
                nodes == self.files@,
                self.files == old(self).files,
                wf_nodes(nodes),
                0 <= id@ < nodes.len(),
                below == names_view(path@),
                forall|i: int|
                    0 <= i < rest.len() ==> 0 <= (#[trigger] rest[i]).id@ < nodes.len(),
                forall|i: int|
                    0 <= i < self.queue@.len() ==> 0 <= (#[trigger] stack_view(self.queue@)[i]).id@
                        < nodes.len(),
                stack_walk(nodes, stack_view(self.queue@)) == children_walk(
                    nodes,
                    id@,
                    j as int,
                    below,
                ) + stack_walk(nodes, rest),
            decreases node.children.len() - j,
        {
            let child = node.children[j];
            let ghost stack = stack_view(self.queue@);
            assert(child == nodes[id@].children[j as int]);
            self.queue.push(Pending { id: child, path: clone_names(&path) });
            proof {
                let grown = stack_view(self.queue@);
                assert(grown =~= stack.push(PendingView { id: child, path: below }));
                assert(grown.drop_last() =~= stack);
                assert(grown.last() == PendingView { id: child, path: below });
                assert(stack_walk(nodes, grown) == subtree_walk(nodes, child@, below)
                    + stack_walk(nodes, stack));
                assert(children_walk(nodes, id@, j + 1, below) == subtree_walk(
                    nodes,
                    child@,
                    below,
                ) + children_walk(nodes, id@, j as int, below));
            }
            j += 1;
        }
        proof {
            assert(stack_walk(nodes, before) == subtree_walk(nodes, id@, entered) + stack_walk(
                nodes,
                rest,
            ));
        }
        Some((id, node, path))
    }
}

impl ArchiveEntries {
    /// A depth-first walk from `nodes`. Each visit carries the names on the
    /// way from its base node down to the visited node, without the names
    /// that are no path components.
    pub fn children_iter<'a>(&'a self, nodes: &[NodeID]) -> (iter: ChildrenIter<'a>)
        requires
            self.wf(),
            forall|i: int| 0 <= i < nodes@.len() ==> nodes@[i]@ < self@.len(),
        ensures
            iter.wf(),
            iter.files() == self,
            iter.remaining() == walk(self@, nodes@),
    {
        ChildrenIter::new(nodes, self)
    }
}

} // verus!
