//! Three directories side by side: the one that is browsed, the one above
//! it, and the one below its highlighted entry.

use crate::archive::selection::Selection;
use crate::archive::{share, Archive, EntryView, NodeID};
use crate::ui::directory::{
    fresh_view, DirectoryEntry, DirectoryResult, DirectoryView, DirectoryViewer,
};
use crate::ui::KeyCode;
use std::sync::Arc;
use vstd::prelude::*;

verus! {

/// What a key did to the browsed path.
#[derive(Debug, Copy, Clone, PartialEq, Eq, Structural)]
pub enum PathViewerResult {
    /// Nothing that concerns anyone else.
    Handled,
    /// The given node is highlighted now.
    PathSelected(NodeID),
}

/// The three directories as plain values.
pub struct PathView {
    pub parent: Option<DirectoryView>,
    pub cur: DirectoryView,
    pub child: Option<DirectoryView>,
}

/// The view of a directory that was just opened, if there is a directory to open.
pub open spec fn fresh_view_of(nodes: Seq<EntryView>, directory: Option<NodeID>) -> Option<
    DirectoryView,
> {
    match directory {
        Some(directory) => fresh_view(nodes, directory),
        None => None,
    }
}

/// The node `steps` parent links above a node, if the links lead that far.
pub open spec fn above(nodes: Seq<EntryView>, id: NodeID, steps: nat) -> Option<NodeID>
    decreases steps,
{
    if steps == 0 {
        Some(id)
    } else {
        match nodes[id@].parent {
            Some(parent) => above(nodes, parent, (steps - 1) as nat),
            None => None,
        }
    }
}

impl PathView {
    /// The view of a path that was just opened at `directory`.
    pub open spec fn fresh(nodes: Seq<EntryView>, directory: NodeID) -> Option<PathView> {
        match fresh_view(nodes, directory) {
            Some(cur) => Some(
                PathView { parent: None, cur, child: fresh_view(nodes, cur.highlighted()) },
            ),
            None => None,
        }
    }

    /// The view after a key, and what the key did.
    ///
    /// A new highlight shows the highlighted directory on the right. Entering
    /// the highlighted directory moves the browsed one to the left; an entry
    /// without children cannot be entered. Leaving moves the browsed
    /// directory to the right and opens the one above the left one; the
    /// topmost directory cannot be left.
    pub open spec fn after_key(self, nodes: Seq<EntryView>, key: KeyCode) -> (
        PathView,
        PathViewerResult,
    ) {
        let (cur, result) = self.cur.after_key(key);
        match result {
            DirectoryResult::Handled => (PathView { cur, ..self }, PathViewerResult::Handled),
            DirectoryResult::EntryHighlight(id) => (
                PathView {
                    cur,
                    child: if nodes[id@].props is Directory {
                        fresh_view(nodes, id)
                    } else {
                        None
                    },
                    ..self
                },
                PathViewerResult::PathSelected(id),
            ),
            DirectoryResult::ViewChild(id) => match fresh_view(nodes, id) {
                Some(entered) => (
                    PathView {
                        parent: Some(cur),
                        cur: entered,
                        child: fresh_view(nodes, entered.highlighted()),
                    },
                    PathViewerResult::PathSelected(entered.highlighted()),
                ),
                None => (PathView { cur, ..self }, PathViewerResult::Handled),
            },
            DirectoryResult::ViewParent(id) => match self.parent {
                Some(left) => (
                    PathView {
                        parent: fresh_view_of(nodes, above(nodes, id, 3)),
                        cur: left,
                        child: Some(cur),
                    },
                    PathViewerResult::PathSelected(left.highlighted()),
                ),
                None => (PathView { cur, ..self }, PathViewerResult::Handled),
            },
        }
    }
}

/// Widget state to navigate and browse a directory together with the
/// directories above and below it.
pub struct PathViewer {
    archive: Arc<Archive>,
    parent_dir: Option<DirectoryViewer>,
    cur_dir: DirectoryViewer,
    child_dir: Option<DirectoryViewer>,
}

/// The view of a viewer that may be missing.
pub open spec fn view_of(viewer: Option<DirectoryViewer>) -> Option<DirectoryView> {
    match viewer {
        Some(viewer) => Some(viewer@),
        None => None,
    }
}

/// Whether a viewer that may be missing is well formed and shows `archive`.
pub open spec fn shows(viewer: Option<DirectoryViewer>, archive: Archive) -> bool {
    viewer matches Some(viewer) ==> viewer.wf() && viewer.archive() == archive
}

/// The view of a viewer says what its three directories show of the index;
/// the index itself is `archive()`.
impl View for PathViewer {
    type V = PathView;

    closed spec fn view(&self) -> PathView {
        PathView {
            parent: view_of(self.parent_dir),
            cur: self.cur_dir@,
            child: view_of(self.child_dir),
        }
    }
}

impl PathViewer {
    /// The index that is browsed.
    pub closed spec fn archive(&self) -> Archive {
        *self.archive
    }

    /// Whether the three directories are well-formed views of one index.
    pub closed spec fn wf(&self) -> bool {
        &&& self.archive().wf()
        &&& self.cur_dir.wf()
        &&& self.cur_dir.archive() == self.archive()
        &&& shows(self.parent_dir, self.archive())
        &&& shows(self.child_dir, self.archive())
    }

    /// Browses `directory`. A directory without children cannot be browsed.
    pub fn new(archive: Arc<Archive>, directory: NodeID) -> (viewer: Option<Self>)
        requires
            archive.wf(),
            directory@ < archive.files@.len(),
        ensures
            match viewer {
                Some(viewer) => viewer.wf() && viewer.archive() == *archive && Some(viewer@)
                    == PathView::fresh(archive.files@, directory),
                None => PathView::fresh(archive.files@, directory) is None,
            },
    {
        let cur_dir = match DirectoryViewer::new(share(&archive), directory) {
            Some(cur_dir) => cur_dir,
            None => {
                return None;
            },
        };
        let child_dir = DirectoryViewer::new(share(&archive), cur_dir.highlighted().id);
        Some(PathViewer { archive, parent_dir: None, cur_dir, child_dir })
    }

    /// Opens a viewer on a directory of the browsed index.
    fn dir_viewer(&self, directory: NodeID) -> (viewer: Option<DirectoryViewer>)
        requires
            self.archive().wf(),
            directory@ < self.archive().files@.len(),
        ensures
            shows(viewer, self.archive()),
            view_of(viewer) == fresh_view(self.archive().files@, directory),
    {
        DirectoryViewer::new(share(&self.archive), directory)
    }

    /// Hands a key to the browsed directory and follows what it asks for.
    pub fn process_key(&mut self, key: KeyCode) -> (result: PathViewerResult)
        requires
            old(self).wf(),
        ensures
            final(self).wf(),
            final(self).archive() == old(self).archive(),
            (final(self)@, result) == old(self)@.after_key(old(self).archive().files@, key),
    {
        let ghost nodes = self.archive().files@;
        match self.cur_dir.process_key(key) {
            DirectoryResult::Handled => PathViewerResult::Handled,
            DirectoryResult::EntryHighlight(id) => {
                self.child_dir = if self.archive.get(id).props.is_dir() {
                    self.dir_viewer(id)
                } else {
                    None
                };
                PathViewerResult::PathSelected(id)
            },
            DirectoryResult::ViewChild(id) => {
                let mut entered = match self.dir_viewer(id) {
                    Some(entered) => entered,
                    None => {
                        return PathViewerResult::Handled;
                    },
                };
                std::mem::swap(&mut self.cur_dir, &mut entered);
                let highlighted_node = self.cur_dir.highlighted().id;
                self.parent_dir = Some(entered);
                self.child_dir = self.dir_viewer(highlighted_node);
                PathViewerResult::PathSelected(highlighted_node)
            },
            DirectoryResult::ViewParent(id) => {
                let mut left = match self.parent_dir.take() {
                    Some(left) => left,
                    None => {
                        return PathViewerResult::Handled;
                    },
                };
                std::mem::swap(&mut self.cur_dir, &mut left);
                self.child_dir = Some(left);
                let parent = match self.archive.get(id).parent {
                    Some(first) => match self.archive.get(first).parent {
                        Some(second) => self.archive.get(second).parent,
                        None => None,
                    },
                    None => None,
                };
                if let Some(parent) = parent {
                    self.parent_dir = self.dir_viewer(parent);
                }
                proof {
                    reveal_with_fuel(above, 4);
                }
                PathViewerResult::PathSelected(self.cur_dir.highlighted().id)
            },
        }
    }

    /// The highlighted entry and the browsed directory are nodes of the index.
    pub proof fn lemma_highlighted_is_node(&self)
        requires
            self.wf(),
        ensures
            self@.cur.directory@ < self.archive().files@.len(),
            0 <= self@.cur.position < self@.cur.entries.len(),
            self@.cur.position <= usize::MAX,
            self@.cur.highlighted()@ < self.archive().files@.len(),
    {
        assert(self.cur_dir@.entries[self.cur_dir@.position].id@ < self.archive().files@.len());
        self.cur_dir.lemma_position_fits();
    }

    /// The directory that is browsed.
    pub fn directory(&self) -> (directory: NodeID)
        ensures
            directory == self@.cur.directory,
    {
        self.cur_dir.directory()
    }

    /// The highlighted line of the browsed directory.
    pub fn highlighted(&self) -> (entry: &DirectoryEntry)
        requires
            self.wf(),
        ensures
            *entry == self@.cur.entries[self@.cur.position],
    {
        self.cur_dir.highlighted()
    }

    /// The selected nodes of the browsed directory, or its highlighted node
    /// where none is selected.
    pub fn selected_ids(&self) -> (ids: Selection)
        requires
            self.wf(),
        ensures
            ids@ == self@.cur.selected_ids(),
    {
        self.cur_dir.selected_ids()
    }

    /// The position of the highlighted line in the browsed directory.
    pub fn highlighted_index(&self) -> (index: usize)
        ensures
            index == self@.cur.position,
    {
        self.cur_dir.highlighted_index()
    }

    /// The directory on the left, above the browsed one.
    pub fn parent_dir(&self) -> (viewer: &Option<DirectoryViewer>)
        ensures
            view_of(*viewer) == self@.parent,
    {
        &self.parent_dir
    }

    /// The browsed directory.
    pub fn cur_dir(&self) -> (viewer: &DirectoryViewer)
        ensures
            viewer@ == self@.cur,
    {
        &self.cur_dir
    }

    /// The directory on the right, below the highlighted entry.
    pub fn child_dir(&self) -> (viewer: &Option<DirectoryViewer>)
        ensures
            view_of(*viewer) == self@.child,
    {
        &self.child_dir
    }
}

} // verus!
