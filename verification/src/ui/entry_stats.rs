//! What the line below the directories says of the highlighted entry and
//! of the directory that it stands in.

use crate::archive::text::encoding_name;
use crate::archive::{Archive, EntryProperties, EntryView, NodeID};
use crate::ui::text::{date_line, date_text, selection_line, selection_text};
use vstd::prelude::*;

verus! {

/// The size of a file as stored and as it is once decompressed.
#[derive(Debug, Copy, Clone, PartialEq, Eq, Structural)]
pub struct CompressedSize {
    pub compressed: u64,
    pub raw: u64,
}

/// The sizes of the files of a directory, added up.
#[derive(Debug, Copy, Clone, PartialEq, Eq, Structural)]
pub struct TotalSize {
    pub compressed: u128,
    pub raw: u128,
}

/// The raw sizes of the files among the first `k` children of a directory.
pub open spec fn children_raw(nodes: Seq<EntryView>, dir: int, k: int) -> int
    decreases k,
{
    if k <= 0 {
        0
    } else {
        children_raw(nodes, dir, k - 1) + match nodes[nodes[dir].children[k - 1]@].props {
            EntryProperties::File(props) => props.raw_size_bytes as int,
            EntryProperties::Directory => 0,
        }
    }
}

/// The stored sizes of the files among the first `k` children of a directory.
pub open spec fn children_compressed(nodes: Seq<EntryView>, dir: int, k: int) -> int
    decreases k,
{
    if k <= 0 {
        0
    } else {
        children_compressed(nodes, dir, k - 1) + match nodes[nodes[dir].children[k - 1]@].props {
            EntryProperties::File(props) => props.compressed_size_bytes as int,
            EntryProperties::Directory => 0,
        }
    }
}

/// The sizes of an entry, where it is a file that is not empty.
pub open spec fn compressed_size_of(entry: EntryView) -> Option<CompressedSize> {
    match entry.props {
        EntryProperties::File(props) => if props.raw_size_bytes == 0 {
            None
        } else {
            Some(
                CompressedSize {
                    compressed: props.compressed_size_bytes,
                    raw: props.raw_size_bytes,
                },
            )
        },
        EntryProperties::Directory => None,
    }
}

/// The text of the date of an entry, where it has one.
pub open spec fn date_of(entry: EntryView) -> Option<Seq<char>> {
    match entry.last_modified {
        Some(date) => Some(date_line(date)),
        None => None,
    }
}

/// The view of an optional text.
pub open spec fn text_view(text: Option<String>) -> Option<Seq<char>> {
    match text {
        Some(text) => Some(text@),
        None => None,
    }
}

/// The statistics of an entry and of its directory, ready to be shown. The
/// sizes are numbers: how they are written out is left to the panel.
#[derive(Debug, Clone, PartialEq, Eq)]
pub struct EntryStats {
    /// When the entry was last modified.
    pub date: Option<String>,
    /// The name of the encoding that the entry's name was decoded with.
    pub encoding: &'static str,
    /// The sizes of the entry, for a file that is not empty.
    pub compressed_size: Option<CompressedSize>,
    /// The sizes of the files of the directory; none where they are empty.
    pub total_size: Option<TotalSize>,
    /// The position of the entry among the lines of the directory.
    pub selection: String,
}

impl EntryStats {
    /// The statistics of the entry `selected`, which stands at position
    /// `selected_idx` of the shown lines of the directory `viewed_dir`.
    pub fn new(archive: &Archive, viewed_dir: NodeID, selected: NodeID, selected_idx: usize) -> (stats:
        Self)
        requires
            archive.wf(),
            viewed_dir@ < archive.files@.len(),
            selected@ < archive.files@.len(),
        ensures
            text_view(stats.date) == date_of(archive.files@[selected@]),
            stats.encoding@ == archive.files@[selected@].encoding,
            stats.compressed_size == compressed_size_of(archive.files@[selected@]),
            stats.total_size == Self::total_size_of(archive.files@, viewed_dir@),
            stats.selection@ == selection_line(
                selected_idx,
                archive.files@[viewed_dir@].children.len() as usize,
            ),
    {
        let dir_entry = archive.get(viewed_dir);
        let entry = archive.get(selected);
        let date = match &entry.last_modified {
            Some(last_modified) => Some(date_text(last_modified)),
            None => None,
        };
        let compressed_size = match entry.props {
            EntryProperties::File(props) => if props.raw_size_bytes == 0 {
                None
            } else {
                Some(
                    CompressedSize {
                        compressed: props.compressed_size_bytes,
                        raw: props.raw_size_bytes,
                    },
                )
            },
            EntryProperties::Directory => None,
        };
        EntryStats {
            date,
            encoding: encoding_name(entry.encoding),
            compressed_size,
            total_size: Self::total_size(archive, viewed_dir),
            selection: selection_text(selected_idx, dir_entry.children.len()),
        }
    }

    /// Replaces the statistics by those of another entry.
    pub fn update(&mut self, archive: &Archive, viewed_dir: NodeID, selected: NodeID, selected_idx: usize)
        requires
            archive.wf(),
            viewed_dir@ < archive.files@.len(),
            selected@ < archive.files@.len(),
        ensures
            text_view(final(self).date) == date_of(archive.files@[selected@]),
            final(self).encoding@ == archive.files@[selected@].encoding,
            final(self).compressed_size == compressed_size_of(archive.files@[selected@]),
            final(self).total_size == Self::total_size_of(archive.files@, viewed_dir@),
            final(self).selection@ == selection_line(
                selected_idx,
                archive.files@[viewed_dir@].children.len() as usize,
            ),
    {
        *self = Self::new(archive, viewed_dir, selected, selected_idx);
    }

    /// The sizes of the files that are children of a directory, added up;
    /// none where they have no content.
    pub open spec fn total_size_of(nodes: Seq<EntryView>, dir: int) -> Option<TotalSize> {
        let raw = children_raw(nodes, dir, nodes[dir].children.len() as int);
        let compressed = children_compressed(nodes, dir, nodes[dir].children.len() as int);
        if raw == 0 {
            None
        } else {
            Some(TotalSize { compressed: compressed as u128, raw: raw as u128 })
        }
    }

    /// The sizes of the files that are children of a directory, added up.
    pub fn total_size(archive: &Archive, dir: NodeID) -> (total: Option<TotalSize>)
        requires
            archive.wf(),
            dir@ < archive.files@.len(),
        ensures
            total == Self::total_size_of(archive.files@, dir@),
    {
        let ghost nodes = archive.files@;
        let entry = archive.get(dir);
        let mut raw: u128 = 0;
        let mut compressed: u128 = 0;
        let mut i: usize = 0;
        while i < entry.children.len()
            invariant
                archive.wf(),
                nodes == archive.files@,
                dir@ < nodes.len(),
                entry@ == nodes[dir@],
                i <= entry.children.len(),
                raw == children_raw(nodes, dir@, i as int),
                compressed == children_compressed(nodes, dir@, i as int),
                raw <= i * 0xFFFF_FFFF_FFFF_FFFF,
                compressed <= i * 0xFFFF_FFFF_FFFF_FFFF,
            decreases entry.children.len() - i,
        {
            let child = entry.children[i];
            assert(child == nodes[dir@].children[i as int]);
            match archive.get(child).props {
                EntryProperties::File(props) => {
                    raw = raw + props.raw_size_bytes as u128;
                    compressed = compressed + props.compressed_size_bytes as u128;
                },
                EntryProperties::Directory => {},
            }
            i += 1;
        }
        if raw == 0 {
            None
        } else {
            Some(TotalSize { compressed, raw })
        }
    }
}

/// What the hints say about mounting.
#[derive(Debug, Copy, Clone, PartialEq, Eq)]
pub enum MountState {
    /// The index is mounted; `unmount` names the key that unmounts it.
    Mounted { unmount: &'static str },
    /// The index is not mounted; the keys mount it at a temporary
    /// directory and at a directory to be typed.
    Unmounted { mount_at_tmp: char, mount_at_dir: char },
}

/// The keys that the line of hints names.
#[derive(Debug, Copy, Clone, PartialEq, Eq)]
pub struct KeyHints {
    pub extract_to_dir_key: char,
    pub extract_to_cwd_key: char,
    pub mount_state: MountState,
}

} // verus!
