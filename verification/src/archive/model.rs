//! The arena as a sequence of plain nodes: what it means to be well formed,
//! and what an insertion of a stored path does to it.

use crate::archive::path::PathPart;
use crate::archive::{EntryProperties, EntryView, FileProperties, NodeID, Date};
use vstd::prelude::*;

verus! {

/// What a record of the container gives to the nodes that it creates.
pub struct EntrySource {
    pub entry_num: usize,
    pub encoding: Seq<char>,
    pub file: FileProperties,
    pub last_modified: Date,
}

/// The node that a component creates: a file where the path ends in the
/// component, a directory elsewhere.
pub open spec fn new_entry(part: PathPart, source: EntrySource) -> EntryView {
    EntryView {
        name: part.name,
        props: if part.terminal {
            EntryProperties::File(source.file)
        } else {
            EntryProperties::Directory
        },
        last_modified: Some(source.last_modified),
        encoding: source.encoding,
        entry_num: source.entry_num,
        parent: None,
        children: Seq::empty(),
    }
}

/// The first of `children`, from position `from` on, that carries `name`.
pub open spec fn child_named_from(
    nodes: Seq<EntryView>,
    children: Seq<NodeID>,
    name: Seq<char>,
    from: int,
) -> Option<NodeID>
    decreases children.len() - from,
{
    if from < 0 || from >= children.len() {
        None
    } else if nodes[children[from]@].name == name {
        Some(children[from])
    } else {
        child_named_from(nodes, children, name, from + 1)
    }
}

/// The child of `parent` that carries `name`, if there is one.
pub open spec fn child_named(nodes: Seq<EntryView>, parent: int, name: Seq<char>) -> Option<
    NodeID,
> {
    child_named_from(nodes, nodes[parent].children, name, 0)
}

/// The arena after `entry` was added as the last child of `parent`.
pub open spec fn attach(nodes: Seq<EntryView>, parent: int, entry: EntryView) -> Seq<EntryView> {
    nodes.update(
        parent,
        EntryView {
            children: nodes[parent].children.push(NodeID(nodes.len() as usize)),
            ..nodes[parent]
        },
    ).push(EntryView { parent: Some(NodeID(parent as usize)), ..entry })
}

/// The arena after the components from the `k`-th on were followed from `cur`:
/// a component that names a child of the current node descends into it, any
/// other creates that child first.
pub open spec fn insert_from(
    nodes: Seq<EntryView>,
    cur: int,
    parts: Seq<PathPart>,
    k: int,
    source: EntrySource,
) -> Seq<EntryView>
    decreases parts.len() - k,
{
    if k < 0 || k >= parts.len() {
        nodes
    } else {
        match child_named(nodes, cur, parts[k].name) {
            Some(id) => insert_from(nodes, id@, parts, k + 1, source),
            None => insert_from(
                attach(nodes, cur, new_entry(parts[k], source)),
                nodes.len() as int,
                parts,
                k + 1,
                source,
            ),
        }
    }
}

/// Every node but the root hangs below an earlier node that lists it.
pub open spec fn parents_wf(nodes: Seq<EntryView>) -> bool {
    forall|i: int|
        1 <= i < nodes.len() ==> {
            &&& (#[trigger] nodes[i]).parent is Some
            &&& nodes[i].parent.unwrap()@ < i
            &&& nodes[nodes[i].parent.unwrap()@].children.contains(NodeID(i as usize))
        }
}

/// Every listed child is a later node that names the lister as its parent.
pub open spec fn children_wf(nodes: Seq<EntryView>) -> bool {
    forall|i: int, j: int|
        0 <= i < nodes.len() && 0 <= j < nodes[i].children.len() ==> {
            &&& i < (#[trigger] nodes[i].children[j])@ < nodes.len()
            &&& nodes[nodes[i].children[j]@].parent == Some(NodeID(i as usize))
        }
}

/// No two children of one node carry the same name.
pub open spec fn names_wf(nodes: Seq<EntryView>) -> bool {
    forall|i: int, j1: int, j2: int|
        #![trigger nodes[i].children[j1], nodes[i].children[j2]]
        0 <= i < nodes.len() && 0 <= j1 < j2 < nodes[i].children.len() ==> nodes[nodes[i].children[j1]@].name
            != nodes[nodes[i].children[j2]@].name
}

/// A well-formed arena: a tree below node 0, in which a parent comes before
/// its children and the children of one node differ in name.
pub open spec fn wf_nodes(nodes: Seq<EntryView>) -> bool {
    &&& 1 <= nodes.len() <= usize::MAX
    &&& nodes[0].parent is None
    &&& nodes[0].name == crate::archive::root_name()
    &&& nodes[0].props is Directory
    &&& parents_wf(nodes)
    &&& children_wf(nodes)
    &&& names_wf(nodes)
}

/// Where no child is found under a name, no child carries it.
pub proof fn lemma_child_named_none(
    nodes: Seq<EntryView>,
    children: Seq<NodeID>,
    name: Seq<char>,
    from: int,
)
    requires
        0 <= from,
        child_named_from(nodes, children, name, from) is None,
    ensures
        forall|j: int| from <= j < children.len() ==> nodes[children[j]@].name != name,
    decreases children.len() - from,
{
    if from < children.len() {
        lemma_child_named_none(nodes, children, name, from + 1);
    }
}

/// A child that is found is one of the children and carries the name.
pub proof fn lemma_child_named_some(
    nodes: Seq<EntryView>,
    children: Seq<NodeID>,
    name: Seq<char>,
    from: int,
)
    requires
        0 <= from,
        child_named_from(nodes, children, name, from) is Some,
    ensures
        children.contains(child_named_from(nodes, children, name, from).unwrap()),
        nodes[child_named_from(nodes, children, name, from).unwrap()@].name == name,
    decreases children.len() - from,
{
    if from < children.len() {
        if nodes[children[from]@].name == name {
            assert(children[from] == child_named_from(nodes, children, name, from).unwrap());
        } else {
            lemma_child_named_some(nodes, children, name, from + 1);
        }
    }
}

/// Attaching a node under a name that its parent does not use yet keeps the
/// arena well formed.
pub proof fn lemma_attach_wf(nodes: Seq<EntryView>, parent: int, entry: EntryView)
    requires
        wf_nodes(nodes),
        nodes.len() < usize::MAX,
        0 <= parent < nodes.len(),
        entry.children.len() == 0,
        child_named(nodes, parent, entry.name) is None,
    ensures
        wf_nodes(attach(nodes, parent, entry)),
{
    let after = attach(nodes, parent, entry);
    let n = nodes.len() as int;
    let new_id = NodeID(n as usize);
    lemma_child_named_none(nodes, nodes[parent].children, entry.name, 0);
    assert(after.len() == n + 1);
    assert forall|i: int| 0 <= i < n && i != parent implies after[i] == nodes[i] by {}
    assert(after[parent].children == nodes[parent].children.push(new_id));
    assert(after[n].parent == Some(NodeID(parent as usize)));
    assert forall|i: int| 1 <= i < after.len() implies {
        &&& (#[trigger] after[i]).parent is Some
        &&& after[i].parent.unwrap()@ < i
        &&& after[after[i].parent.unwrap()@].children.contains(NodeID(i as usize))
    } by {
        if i < n {
            let p = nodes[i].parent.unwrap()@;
            assert(nodes[p].children.contains(NodeID(i as usize)));
            let j = choose|j: int|
                0 <= j < nodes[p].children.len() && nodes[p].children[j] == NodeID(i as usize);
            assert(after[p].children[j] == NodeID(i as usize));
        } else {
            assert(after[parent].children[nodes[parent].children.len() as int] == new_id);
        }
    }
    assert forall|i: int, j: int|
        0 <= i < after.len() && 0 <= j < after[i].children.len() implies {
        &&& i < (#[trigger] after[i].children[j])@ < after.len()
        &&& after[after[i].children[j]@].parent == Some(NodeID(i as usize))
    } by {
        if i == parent && j == nodes[parent].children.len() {
        } else {
            assert(after[i].children[j] == nodes[i].children[j]);
        }
    }
    assert forall|i: int, j1: int, j2: int|
        #![trigger after[i].children[j1], after[i].children[j2]]
        0 <= i < after.len() && 0 <= j1 < j2 < after[i].children.len() implies after[after[i].children[j1]@].name
        != after[after[i].children[j2]@].name by {
        if i == parent && j2 == nodes[parent].children.len() {
            assert(after[i].children[j1] == nodes[i].children[j1]);
        } else {
            assert(after[i].children[j1] == nodes[i].children[j1]);
            assert(after[i].children[j2] == nodes[i].children[j2]);
        }
    }
}

} // verus!
