//! The plan of an extraction: which nodes a selection covers, and what has
//! to be created for each, in which order.

use crate::archive::selection::Selection;
use crate::archive::walk::{names_view, walk, Visit};
use crate::archive::{Archive, ArchiveEntry, EntryProperties, EntryView, NodeID};
use std::sync::Arc;
use vstd::prelude::*;

verus! {

/// What has to be created for a node.
#[derive(Debug, Copy, Clone, PartialEq, Eq, Structural)]
pub enum ExtractAction {
    /// A directory.
    CreateDirectory,
    /// A file with the content of the record at `entry_num` of the container.
    WriteFile { entry_num: usize },
}

/// One step of an extraction: what to create, and where below the
/// destination.
#[derive(Debug, Clone)]
pub struct ExtractStep {
    pub node: NodeID,
    pub path: Vec<String>,
    pub action: ExtractAction,
}

/// A step of an extraction as plain values.
pub struct ExtractStepView {
    pub node: NodeID,
    pub path: Seq<Seq<char>>,
    pub action: ExtractAction,
}

impl View for ExtractStep {
    type V = ExtractStepView;

    open spec fn view(&self) -> ExtractStepView {
        ExtractStepView { node: self.node, path: names_view(self.path@), action: self.action }
    }
}

/// What has to be created for a node of the given kind.
pub open spec fn action_of(entry: EntryView) -> ExtractAction {
    match entry.props {
        EntryProperties::Directory => ExtractAction::CreateDirectory,
        EntryProperties::File(_) => ExtractAction::WriteFile { entry_num: entry.entry_num },
    }
}

/// The steps that a walk asks for: one for each visit, in order, but none
/// for the root, which stands for the destination itself.
pub open spec fn steps_of(nodes: Seq<EntryView>, visits: Seq<Visit>) -> Seq<ExtractStepView>
    decreases visits.len(),
{
    if visits.len() == 0 {
        Seq::empty()
    } else {
        let rest = steps_of(nodes, visits.drop_first());
        if visits[0].id@ == 0 {
            rest
        } else {
            seq![
                ExtractStepView {
                    node: visits[0].id,
                    path: visits[0].path,
                    action: action_of(nodes[visits[0].id@]),
                },
            ] + rest
        }
    }
}

/// How many entries an extraction of `bases` is expected to create, from the
/// index of a container of `entry_count` records: as many as the container
/// has records where the root is among the bases, else as many as the walk
/// visits nodes, and never more than the container has records.
pub open spec fn expected_total(nodes: Seq<EntryView>, entry_count: int, bases: Seq<NodeID>) -> int {
    if bases.contains(NodeID(0)) {
        entry_count
    } else if walk(nodes, bases).len() <= entry_count {
        walk(nodes, bases).len() as int
    } else {
        entry_count
    }
}

/// The views of a list of steps.
pub open spec fn steps_view(steps: Seq<ExtractStep>) -> Seq<ExtractStepView> {
    steps.map_values(|step: ExtractStep| step@)
}

/// An extraction of a selection of nodes, before it starts.
pub struct Extractor {
    archive: Arc<Archive>,
    base_nodes: Selection,
    total_to_extract: u32,
}

impl Extractor {
    /// The index that is extracted from.
    pub closed spec fn archive(&self) -> Archive {
        *self.archive
    }

    /// The nodes whose subtrees are extracted.
    pub closed spec fn base_nodes(&self) -> Seq<NodeID> {
        self.base_nodes@
    }

    /// How many entries the extraction is expected to create.
    pub closed spec fn total(&self) -> u32 {
        self.total_to_extract
    }

    /// Whether the base nodes are nodes of a well-formed index.
    pub open spec fn wf(&self) -> bool {
        &&& self.archive().wf()
        &&& forall|i: int|
            0 <= i < self.base_nodes().len() ==> (#[trigger] self.base_nodes()[i])@
                < self.archive().files@.len()
    }

    /// Prepares the extraction of the subtrees below `base_nodes`.
    pub fn prepare(archive: Arc<Archive>, base_nodes: Selection) -> (extractor: Self)
        requires
            archive.wf(),
            archive.entry_count <= u32::MAX,
            forall|i: int| 0 <= i < base_nodes@.len() ==> (#[trigger] base_nodes@[i])@ < archive.files@.len(),
        ensures
            extractor.wf(),
            extractor.archive() == *archive,
            extractor.base_nodes() == base_nodes@,
            extractor.total() == expected_total(
                archive.files@,
                archive.entry_count as int,
                base_nodes@,
            ),
    {
        let len = archive.entry_count;
        let total_to_extract = if base_nodes.contains(NodeID::first()) {
            len as u32
        } else {
            let mut iter = archive.files.children_iter(base_nodes.as_slice());
            let ghost all = iter.remaining();
            let mut count: usize = 0;
            loop
                invariant
                    iter.wf(),
                    iter.files() == &archive.files,
                    count <= len,
                    count + iter.remaining().len() == all.len() || (count == len
                        && count + iter.remaining().len() <= all.len()),
                ensures
                    count <= len,
                    count == all.len() || (count == len && count <= all.len()),
                decreases iter.remaining().len(),
            {
                match iter.next() {
                    None => {
                        break ;
                    },
                    Some(_) => {
                        if count < len {
                            count += 1;
                        }
                    },
                }
            }
            count as u32
        };
        Extractor { archive, base_nodes, total_to_extract }
    }

    /// How many entries the extraction is expected to create.
    pub fn total_to_extract(&self) -> (total: u32)
        ensures
            total == self.total(),
    {
        self.total_to_extract
    }

    /// The steps of the extraction, in the order in which they have to be
    /// made: a directory comes before everything below it.
    pub fn extract(&self) -> (steps: Vec<ExtractStep>)
        requires
            self.wf(),
        ensures
            steps_view(steps@) == steps_of(
                self.archive().files@,
                walk(self.archive().files@, self.base_nodes()),
            ),
    {
        let ghost nodes = self.archive().files@;
        let bases = self.base_nodes.as_slice();
        assert forall|i: int| 0 <= i < bases@.len() implies bases@[i]@ < nodes.len() by {
            assert(self.base_nodes()[i]@ < nodes.len());
        }
        let mut iter = self.archive.files.children_iter(bases);
        let ghost all = iter.remaining();
        let mut steps: Vec<ExtractStep> = Vec::new();
        assert(steps_view(steps@) =~= Seq::<ExtractStepView>::empty());
        loop
            invariant
                iter.wf(),
                iter.files() == &self.archive.files,
                nodes == self.archive().files@,
                steps_view(steps@) + steps_of(nodes, iter.remaining()) == steps_of(nodes, all),
            ensures
                steps_view(steps@) == steps_of(nodes, all),
            decreases iter.remaining().len(),
        {
            let ghost before = iter.remaining();
            let ghost done = steps_view(steps@);
            match iter.next() {
                None => {
                    assert(steps_of(nodes, iter.remaining()) =~= Seq::<ExtractStepView>::empty());
                    assert(done + Seq::<ExtractStepView>::empty() =~= done);
                    break ;
                },
                Some((id, node, path)) => {
                    proof {
                        let visit = Visit { id, path: names_view(path@) };
                        assert(before[0] == visit);
                        assert(before.drop_first() =~= iter.remaining());
                    }
                    if id.0 != 0 {
                        let action = Self::extract_file(node);
                        steps.push(ExtractStep { node: id, path, action });
                        proof {
                            let step = ExtractStepView {
                                node: id,
                                path: names_view(path@),
                                action: action_of(nodes[id@]),
                            };
                            assert(steps_view(steps@) =~= done.push(step));
                            assert(done.push(step) + steps_of(nodes, iter.remaining()) =~= done
                                + (seq![step] + steps_of(nodes, iter.remaining())));
                        }
                    }
                },
            }
        }
        steps
    }

    /// What has to be created for a node: a directory for a directory, and
    /// for a file a copy of the content of its record.
    pub fn extract_file(entry: &ArchiveEntry) -> (action: ExtractAction)
        ensures
            action == action_of(entry@),
    {
        match entry.props {
            EntryProperties::Directory => ExtractAction::CreateDirectory,
            EntryProperties::File(_) => ExtractAction::WriteFile { entry_num: entry.entry_num },
        }
    }
}

} // verus!
