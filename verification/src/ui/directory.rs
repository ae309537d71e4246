//! One directory as a panel shows it: its entries in display order, the one
//! that is highlighted, and the ones that are selected.

use crate::archive::selection::Selection;
use crate::archive::{Archive, EntryProperties, EntryView, NodeID};
use crate::ui::order::{
    display_order, display_position, is_shown_before, lemma_display_order_members,
};
use crate::ui::KeyCode;
use std::sync::Arc;
use vstd::prelude::*;

verus! {

/// A list with a cursor that wraps around at both ends.
pub struct WrappedSelection<T> {
    items: Vec<T>,
    index: usize,
}

impl<T> WrappedSelection<T> {
    /// The items of the list.
    pub closed spec fn items(&self) -> Seq<T> {
        self.items@
    }

    /// The position of the cursor.
    pub closed spec fn position(&self) -> int {
        self.index as int
    }

    /// Whether the cursor stands on an item; in an empty list it stands at 0.
    pub open spec fn wf(&self) -> bool {
        0 <= self.position() && (self.position() < self.items().len() || self.position() == 0)
    }

    /// A list with the cursor on its first item.
    pub fn new(items: Vec<T>) -> (selection: Self)
        ensures
            selection.wf(),
            selection.items() == items@,
            selection.position() == 0,
    {
        WrappedSelection { items, index: 0 }
    }

    /// Moves the cursor one item on, from the last item to the first, and
    /// hands out the item that it then stands on.
    pub fn next(&mut self) -> (item: &T)
        requires
            old(self).wf(),
            old(self).items().len() > 0,
        ensures
            final(self).wf(),
            final(self).items() == old(self).items(),
            final(self).position() == (old(self).position() + 1) % (old(self).items().len() as int),
            *item == final(self).items()[final(self).position()],
    {
        let len = self.items.len();
        proof {
            if self.index + 1 < len {
                vstd::arithmetic::div_mod::lemma_small_mod((self.index + 1) as nat, len as nat);
            } else {
                vstd::arithmetic::div_mod::lemma_mod_self_0(len as int);
            }
        }
        self.index = if self.index + 1 >= len {
            0
        } else {
            self.index + 1
        };
        &self.items[self.index]
    }

    /// Moves the cursor one item back, from the first item to the last, and
    /// hands out the item that it then stands on.
    pub fn prev(&mut self) -> (item: &T)
        requires
            old(self).wf(),
            old(self).items().len() > 0,
        ensures
            final(self).wf(),
            final(self).items() == old(self).items(),
            final(self).position() == if old(self).position() == 0 {
                old(self).items().len() - 1
            } else {
                old(self).position() - 1
            },
            *item == final(self).items()[final(self).position()],
    {
        self.index = if self.index == 0 {
            self.items.len() - 1
        } else {
            self.index - 1
        };
        &self.items[self.index]
    }

    /// The item that the cursor stands on.
    pub fn selected(&self) -> (item: &T)
        requires
            self.wf(),
            self.items().len() > 0,
        ensures
            *item == self.items()[self.position()],
    {
        &self.items[self.index]
    }

    /// The item that the cursor stands on, to be changed in place.
    pub fn selected_mut(&mut self) -> (item: &mut T)
        requires
            old(self).wf(),
            old(self).items().len() > 0,
        ensures
            *item == old(self).items()[old(self).position()],
            final(self).position() == old(self).position(),
            final(self).items() == old(self).items().update(old(self).position(), *final(item)),
    {
        &mut self.items[self.index]
    }

    /// The position of the cursor.
    pub fn index(&self) -> (index: usize)
        ensures
            index == self.position(),
    {
        self.index
    }

    /// The number of items.
    pub fn len(&self) -> (len: usize)
        ensures
            len == self.items().len(),
    {
        self.items.len()
    }

    /// The item at a position.
    pub fn get(&self, i: usize) -> (item: &T)
        requires
            i < self.items().len(),
        ensures
            *item == self.items()[i as int],
    {
        &self.items[i]
    }
}

/// The part of a list that a window of `height` lines shows when the cursor
/// stands at `cursor`: its first position and the position behind its last.
pub open spec fn window(cursor: int, num_items: int, height: int) -> (int, int) {
    if cursor < height / 2 || num_items <= height {
        (0, if num_items <= height {
            num_items
        } else {
            height
        })
    } else {
        let offset = 1 + (cursor - height / 2);
        if offset + height >= num_items {
            (num_items - height, num_items)
        } else {
            (offset, offset + height)
        }
    }
}

/// Calculates which items are visible for a cursor position: the list
/// scrolls once the cursor has passed the middle of the window, and stops
/// where its end is in view.
pub fn scroll_window(cursor: usize, num_items: usize, height: usize) -> (range: (usize, usize))
    ensures
        (range.0 as int, range.1 as int) == window(cursor as int, num_items as int, height as int),
        range.0 <= range.1 <= num_items,
        range.1 - range.0 <= height,
{
    let base_threshold = height / 2;
    if cursor < base_threshold || num_items <= height {
        return (0, if num_items <= height {
            num_items
        } else {
            height
        });
    }
    let passed = cursor - base_threshold;
    if passed >= num_items || num_items - (passed + 1) <= height {
        // The remaining items fit into the window.
        (num_items - height, num_items)
    } else {
        (passed + 1, passed + 1 + height)
    }
}

/// What a directory shows beside the name of an entry.
#[derive(Debug, Copy, Clone, PartialEq, Eq, Structural)]
pub enum EntrySize {
    /// The raw size of a file, in bytes.
    Bytes(u64),
    /// The number of children of a directory.
    Items(usize),
}

/// One line of a directory.
#[derive(Debug, Copy, Clone, PartialEq, Eq, Structural)]
pub struct DirectoryEntry {
    pub id: NodeID,
    pub selected: bool,
    pub size: EntrySize,
}

/// What a key did to a directory.
#[derive(Debug, Copy, Clone, PartialEq, Eq, Structural)]
pub enum DirectoryResult {
    /// Nothing that concerns anyone else.
    Handled,
    /// The highlighted entry is to be entered.
    ViewChild(NodeID),
    /// The directory is to be left, with the given entry highlighted.
    ViewParent(NodeID),
    /// Another entry is highlighted.
    EntryHighlight(NodeID),
}

/// The line of a node that nobody has selected.
pub open spec fn entry_of(nodes: Seq<EntryView>, id: NodeID) -> DirectoryEntry {
    DirectoryEntry {
        id,
        selected: false,
        size: match nodes[id@].props {
            EntryProperties::File(props) => EntrySize::Bytes(props.raw_size_bytes),
            EntryProperties::Directory => EntrySize::Items(nodes[id@].children.len() as usize),
        },
    }
}

/// The lines of a directory that was just opened: its children in display
/// order, none selected.
pub open spec fn fresh_entries(nodes: Seq<EntryView>, directory: NodeID) -> Seq<DirectoryEntry> {
    display_order(nodes, nodes[directory@].children).map_values(|id: NodeID| entry_of(nodes, id))
}

/// The nodes of a list of lines.
pub open spec fn entry_ids(entries: Seq<DirectoryEntry>) -> Seq<NodeID> {
    entries.map_values(|entry: DirectoryEntry| entry.id)
}

/// A directory as it is shown, as plain values.
pub struct DirectoryView {
    pub directory: NodeID,
    pub entries: Seq<DirectoryEntry>,
    /// The position of the highlighted line.
    pub position: int,
}

impl DirectoryView {
    /// The node of the highlighted line.
    pub open spec fn highlighted(self) -> NodeID {
        self.entries[self.position].id
    }

    /// The view after the highlight moved one line down, from the last line
    /// to the first.
    pub open spec fn moved_down(self) -> DirectoryView {
        DirectoryView { position: (self.position + 1) % (self.entries.len() as int), ..self }
    }

    /// The view after the highlight moved one line up, from the first line to
    /// the last.
    pub open spec fn moved_up(self) -> DirectoryView {
        DirectoryView {
            position: if self.position == 0 {
                self.entries.len() - 1
            } else {
                self.position - 1
            },
            ..self
        }
    }

    /// The view after the highlighted line was selected, or was given up if
    /// it was selected.
    pub open spec fn toggled(self) -> DirectoryView {
        DirectoryView {
            entries: self.entries.update(
                self.position,
                DirectoryEntry {
                    selected: !self.entries[self.position].selected,
                    ..self.entries[self.position]
                },
            ),
            ..self
        }
    }

    /// The view after a key, and what the key did.
    pub open spec fn after_key(self, key: KeyCode) -> (DirectoryView, DirectoryResult) {
        match key {
            KeyCode::Up => (self.moved_up(), DirectoryResult::EntryHighlight(
                self.moved_up().highlighted(),
            )),
            KeyCode::Down => (self.moved_down(), DirectoryResult::EntryHighlight(
                self.moved_down().highlighted(),
            )),
            KeyCode::Char(c) => if c == ' ' {
                (self.toggled().moved_down(), DirectoryResult::Handled)
            } else {
                (self, DirectoryResult::Handled)
            },
            KeyCode::Right => (self, DirectoryResult::ViewChild(self.highlighted())),
            KeyCode::Enter => (self, DirectoryResult::ViewChild(self.highlighted())),
            KeyCode::Left => (self, DirectoryResult::ViewParent(self.highlighted())),
            _ => (self, DirectoryResult::Handled),
        }
    }

    /// The selected nodes in display order, or the highlighted node where
    /// none is selected.
    pub open spec fn selected_ids(self) -> Seq<NodeID> {
        if selected_among(self.entries, self.entries.len() as int).len() == 0 {
            seq![self.highlighted()]
        } else {
            selected_among(self.entries, self.entries.len() as int)
        }
    }
}

/// The nodes of the selected lines among the first `n` lines, in order.
pub open spec fn selected_among(entries: Seq<DirectoryEntry>, n: int) -> Seq<NodeID>
    decreases n,
{
    if n <= 0 {
        Seq::empty()
    } else if entries[n - 1].selected {
        selected_among(entries, n - 1).push(entries[n - 1].id)
    } else {
        selected_among(entries, n - 1)
    }
}

/// The view of a directory that was just opened; a directory without
/// children has no view.
pub open spec fn fresh_view(nodes: Seq<EntryView>, directory: NodeID) -> Option<DirectoryView> {
    if nodes[directory@].children.len() == 0 {
        None
    } else {
        Some(DirectoryView { directory, entries: fresh_entries(nodes, directory), position: 0 })
    }
}

/// Widget state to browse a given directory.
pub struct DirectoryViewer {
    archive: Arc<Archive>,
    entries: WrappedSelection<DirectoryEntry>,
    directory: NodeID,
}

/// The view of a viewer says what it shows of its index; the index itself
/// is `archive()`.
impl View for DirectoryViewer {
    type V = DirectoryView;

    closed spec fn view(&self) -> DirectoryView {
        DirectoryView {
            directory: self.directory,
            entries: self.entries.items(),
            position: self.entries.position(),
        }
    }
}

impl DirectoryViewer {
    /// The index whose directory is shown.
    pub closed spec fn archive(&self) -> Archive {
        *self.archive
    }

    /// Whether the viewer shows the children of a directory of a well-formed
    /// index, with one of them highlighted.
    pub open spec fn wf(&self) -> bool {
        &&& self.archive().wf()
        &&& self@.directory@ < self.archive().files@.len()
        &&& 0 <= self@.position < self@.entries.len()
        &&& forall|i: int|
            0 <= i < self@.entries.len() ==> {
                &&& (#[trigger] self@.entries[i]).id@ < self.archive().files@.len()
                &&& self.archive().files@[self@.entries[i].id@].parent == Some(self@.directory)
            }
    }

    /// Opens `directory`: its children are shown in display order, the first
    /// of them highlighted and none selected. A directory without children
    /// cannot be opened.
    pub fn new(archive: Arc<Archive>, directory: NodeID) -> (viewer: Option<Self>)
        requires
            archive.wf(),
            directory@ < archive.files@.len(),
        ensures
            match viewer {
                Some(viewer) => viewer.wf() && viewer.archive() == *archive && Some(viewer@)
                    == fresh_view(archive.files@, directory),
                None => fresh_view(archive.files@, directory) is None,
            },
    {
        let ghost nodes = archive.files@;
        let dir_entry = archive.files.get(directory);
        if dir_entry.children.len() == 0 {
            return None;
        }
        let mut children: Vec<DirectoryEntry> = Vec::new();
        let mut i: usize = 0;
        assert(dir_entry.children@.take(0) == Seq::<NodeID>::empty());
        assert(entry_ids(children@) == Seq::<NodeID>::empty());
        while i < dir_entry.children.len()
            invariant
                archive.wf(),
                nodes == archive.files@,
                directory@ < nodes.len(),
                dir_entry@ == nodes[directory@],
                i <= dir_entry.children.len(),
                entry_ids(children@) == display_order(nodes, dir_entry.children@.take(i as int)),
                forall|j: int|
                    0 <= j < children.len() ==> #[trigger] children@[j] == entry_of(
                        nodes,
                        children@[j].id,
                    ),
                forall|j: int|
                    0 <= j < children.len() ==> dir_entry.children@.contains(
                        (#[trigger] children@[j]).id,
                    ),
            decreases dir_entry.children.len() - i,
        {
            let id = dir_entry.children[i];
            assert(id == nodes[directory@].children[i as int]);
            let entry = archive.files.get(id);
            let size = match entry.props {
                EntryProperties::File(props) => EntrySize::Bytes(props.raw_size_bytes),
                EntryProperties::Directory => EntrySize::Items(entry.children.len()),
            };
            let ghost shown = entry_ids(children@);
            let mut pos: usize = 0;
            while pos < children.len() && is_shown_before(&archive.files, children[pos].id, id)
                invariant
                    archive.wf(),
                    nodes == archive.files@,
                    id@ < nodes.len(),
                    pos <= children.len(),
                    shown == entry_ids(children@),
                    forall|j: int|
                        0 <= j < children.len() ==> nodes[directory@].children.contains(
                            (#[trigger] children@[j]).id,
                        ),
                    directory@ < nodes.len(),
                    display_position(nodes, shown, id, pos as int) == display_position(
                        nodes,
                        shown,
                        id,
                        0,
                    ),
                decreases children.len() - pos,
            {
                pos += 1;
            }
            proof {
                let taken = dir_entry.children@.take(i + 1);
                assert(taken.drop_last() == dir_entry.children@.take(i as int));
                assert(taken.last() == id);
                assert(display_position(nodes, shown, id, 0) == pos);
            }
            let ghost before = children@;
            children.insert(pos, DirectoryEntry { id, selected: false, size });
            proof {
                before.insert_ensures(pos as int, DirectoryEntry { id, selected: false, size });
                shown.insert_ensures(pos as int, id);
                assert(entry_ids(children@) =~= shown.insert(pos as int, id)) by {
                    assert forall|j: int| 0 <= j < children@.len() implies entry_ids(
                        children@,
                    )[j] == shown.insert(pos as int, id)[j] by {
                        if j < pos {
                        } else if j > pos {
                            assert(children@[(j - 1) + 1] == before[j - 1]);
                            assert(shown.insert(pos as int, id)[(j - 1) + 1] == shown[j - 1]);
                        }
                    }
                }
                assert forall|j: int| 0 <= j < children.len() implies #[trigger] children@[j]
                    == entry_of(nodes, children@[j].id) && dir_entry.children@.contains(
                    children@[j].id,
                ) by {
                    if j < pos {
                        assert(children@[j] == before[j]);
                    } else if j > pos {
                        assert(children@[(j - 1) + 1] == before[j - 1]);
                    } else {
                        assert(dir_entry.children@[i as int] == id);
                    }
                }
            }
            i += 1;
        }
        proof {
            assert(dir_entry.children@.take(i as int) == dir_entry.children@);
            lemma_display_order_members(nodes, dir_entry.children@);
            assert(children@ =~= fresh_entries(nodes, directory));
        }
        let ghost lines = children@;
        let viewer = DirectoryViewer { archive, entries: WrappedSelection::new(children), directory };
        proof {
            assert forall|k: int| 0 <= k < viewer@.entries.len() implies {
                &&& (#[trigger] viewer@.entries[k]).id@ < nodes.len()
                &&& nodes[viewer@.entries[k].id@].parent == Some(directory)
            } by {
                let id = lines[k].id;
                assert(nodes[directory@].children.contains(id));
                let j = choose|j: int|
                    0 <= j < nodes[directory@].children.len() && nodes[directory@].children[j]
                        == id;
                assert(nodes[nodes[directory@].children[j]@].parent == Some(
                    NodeID(directory@ as usize),
                ));
            }
        }
        Some(viewer)
    }

    /// The position of the highlighted line is a number of the machine.
    pub proof fn lemma_position_fits(&self)
        ensures
            self@.position <= usize::MAX,
    {
    }

    /// The highlighted line.
    pub fn highlighted(&self) -> (entry: &DirectoryEntry)
        requires
            self.wf(),
        ensures
            *entry == self@.entries[self@.position],
    {
        self.entries.selected()
    }

    /// The position of the highlighted line.
    pub fn highlighted_index(&self) -> (index: usize)
        ensures
            index == self@.position,
    {
        self.entries.index()
    }

    /// The directory that is shown.
    pub fn directory(&self) -> (directory: NodeID)
        ensures
            directory == self@.directory,
    {
        self.directory
    }

    /// The number of lines.
    pub fn len(&self) -> (len: usize)
        ensures
            len == self@.entries.len(),
    {
        self.entries.len()
    }

    /// The line at a position.
    pub fn entry(&self, i: usize) -> (entry: &DirectoryEntry)
        requires
            i < self@.entries.len(),
        ensures
            *entry == self@.entries[i as int],
    {
        self.entries.get(i)
    }

    /// The selected nodes in display order, or the highlighted node where
    /// none is selected.
    pub fn selected_ids(&self) -> (ids: Selection)
        requires
            self.wf(),
        ensures
            ids@ == self@.selected_ids(),
    {
        let mut selected = Selection::new();
        let mut any = false;
        let mut i: usize = 0;
        while i < self.entries.len()
            invariant
                self.wf(),
                i <= self@.entries.len(),
                selected@ == selected_among(self@.entries, i as int),
                any == (selected@.len() > 0),
            decreases self@.entries.len() - i,
        {
            let entry = self.entries.get(i);
            if entry.selected {
                selected.push(entry.id);
                any = true;
            }
            i += 1;
        }
        if !any {
            selected.push(self.entries.selected().id);
            assert(selected@ =~= seq![self@.highlighted()]);
        }
        selected
    }

    /// Lets a key move the highlight, select the highlighted line, or ask
    /// for the directory above or below.
    pub fn process_key(&mut self, key: KeyCode) -> (result: DirectoryResult)
        requires
            old(self).wf(),
        ensures
            final(self).wf(),
            final(self).archive() == old(self).archive(),
            (final(self)@, result) == old(self)@.after_key(key),
    {
        let ghost before = self@;
        match key {
            KeyCode::Up => {
                let id = self.entries.prev().id;
                DirectoryResult::EntryHighlight(id)
            },
            KeyCode::Down => {
                let id = self.entries.next().id;
                DirectoryResult::EntryHighlight(id)
            },
            KeyCode::Char(' ') => {
                let entry = self.entries.selected_mut();
                entry.selected = !entry.selected;
                assert(self@ == before.toggled());
                self.entries.next();
                DirectoryResult::Handled
            },
            KeyCode::Right | KeyCode::Enter => DirectoryResult::ViewChild(
                self.entries.selected().id,
            ),
            KeyCode::Left => DirectoryResult::ViewParent(self.entries.selected().id),
            _ => DirectoryResult::Handled,
        }
    }
}

} // verus!
