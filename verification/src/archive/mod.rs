//! The node arena built from a container's directory.

pub mod date;
pub mod extract;
pub mod files;
pub mod laws;
pub mod meminfo;
pub mod model;
pub mod mount;
pub mod path;
pub mod resolve;
pub mod selection;
pub mod text;
pub mod walk;

use crate::archive::model::{
    attach, child_named, child_named_from, insert_from, lemma_attach_wf, new_entry, wf_nodes,
    EntrySource,
};
use crate::archive::path::{parts_view, path_parts, split_path};
use crate::archive::text::{
    decode_filename, decoded_filename, encoding_label, filename_encoding, utf_8,
};
use encoding_rs::Encoding;
use std::sync::Arc;
use vstd::prelude::*;

verus! {

/// Handle of a node in the arena. The root is node 0.
#[derive(Debug, Copy, Clone, Ord, PartialOrd, Eq, PartialEq, Structural, Hash)]
pub struct NodeID(pub usize);

impl View for NodeID {
    type V = int;

    open spec fn view(&self) -> int {
        self.0 as int
    }
}

impl NodeID {
    /// The synthetic root that stands for the container's base.
    pub fn first() -> (id: Self)
        ensures
            id == NodeID(0),
    {
        NodeID(0)
    }

    /// The position of the node in the arena.
    pub fn index(&self) -> (i: usize)
        ensures
            i == self.0,
    {
        self.0
    }
}

/// A modification time as the container stores it, to the minute.
#[derive(Debug, Copy, Clone, PartialEq, Eq, Structural)]
pub struct Date {
    pub year: u16,
    pub month: u8,
    pub day: u8,
    pub hour: u8,
    pub minute: u8,
}

/// The two sizes of a file's content.
#[derive(Debug, Copy, Clone, PartialEq, Eq, Structural)]
pub struct FileProperties {
    pub raw_size_bytes: u64,
    pub compressed_size_bytes: u64,
}

/// What kind of node an entry is.
#[derive(Debug, Copy, Clone, PartialEq, Eq, Structural)]
pub enum EntryProperties {
    Directory,
    File(FileProperties),
}

impl EntryProperties {
    pub fn is_dir(&self) -> (dir: bool)
        ensures
            dir == (*self is Directory),
    {
        match self {
            EntryProperties::Directory => true,
            EntryProperties::File(_) => false,
        }
    }

    /// The size of the content: that of a file, nothing for a directory.
    pub open spec fn raw_size(self) -> u64 {
        match self {
            EntryProperties::Directory => 0,
            EntryProperties::File(props) => props.raw_size_bytes,
        }
    }
}

/// What the index reads of a node, as plain values.
pub struct EntryView {
    pub name: Seq<char>,
    pub props: EntryProperties,
    pub last_modified: Option<Date>,
    /// The name of the encoding that the node's name was decoded with.
    pub encoding: Seq<char>,
    pub entry_num: usize,
    pub parent: Option<NodeID>,
    pub children: Seq<NodeID>,
}

/// A node of the tree: a directory, or a file of the container.
#[derive(Clone)]
pub struct ArchiveEntry {
    pub name: String,
    pub props: EntryProperties,
    pub last_modified: Option<Date>,
    pub encoding: &'static Encoding,
    /// The position in the container of the record that made the node.
    pub entry_num: usize,
    pub parent: Option<NodeID>,
    pub children: Vec<NodeID>,
}

impl View for ArchiveEntry {
    type V = EntryView;

    open spec fn view(&self) -> EntryView {
        EntryView {
            name: self.name@,
            props: self.props,
            last_modified: self.last_modified,
            encoding: encoding_label(*self.encoding),
            entry_num: self.entry_num,
            parent: self.parent,
            children: self.children@,
        }
    }
}

/// The name of the synthetic root.
pub open spec fn root_name() -> Seq<char> {
    seq!['/']
}

/// The synthetic root before anything hangs below it.
pub open spec fn root_view() -> EntryView {
    EntryView {
        name: root_name(),
        props: EntryProperties::Directory,
        last_modified: None,
        encoding: "UTF-8"@,
        entry_num: 0,
        parent: None,
        children: Seq::empty(),
    }
}

impl ArchiveEntry {
    /// A node that hangs nowhere yet and has no children.
    pub fn new(
        name: String,
        entry_num: usize,
        props: EntryProperties,
        last_modified: Option<Date>,
        encoding: &'static Encoding,
    ) -> (entry: Self)
        ensures
            entry@ == (EntryView {
                name: name@,
                props,
                last_modified,
                encoding: encoding_label(*encoding),
                entry_num,
                parent: None,
                children: Seq::empty(),
            }),
    {
        ArchiveEntry {
            name,
            entry_num,
            props,
            last_modified,
            encoding,
            parent: None,
            children: Vec::new(),
        }
    }

    /// A directory that hangs nowhere yet and has no children.
    pub fn new_directory(
        name: String,
        entry_num: usize,
        last_modified: Option<Date>,
        encoding: &'static Encoding,
    ) -> (entry: Self)
        ensures
            entry@ == (EntryView {
                name: name@,
                props: EntryProperties::Directory,
                last_modified,
                encoding: encoding_label(*encoding),
                entry_num,
                parent: None,
                children: Seq::empty(),
            }),
    {
        Self::new(name, entry_num, EntryProperties::Directory, last_modified, encoding)
    }

    /// The node that a component of a stored path creates: a file where the
    /// path ends in the component, a directory elsewhere. Both carry the
    /// time and the position of the record that the path belongs to.
    pub fn from_path(
        name: String,
        terminal: bool,
        entry_num: usize,
        encoding: &'static Encoding,
        file: FileProperties,
        last_modified: Date,
    ) -> (entry: Self)
        ensures
            entry@ == new_entry(
                crate::archive::path::PathPart { name: name@, terminal },
                EntrySource {
                    entry_num,
                    encoding: encoding_label(*encoding),
                    file,
                    last_modified,
                },
            ),
    {
        let props = if terminal {
            EntryProperties::File(file)
        } else {
            EntryProperties::Directory
        };
        Self::new(name, entry_num, props, Some(last_modified), encoding)
    }

    /// The synthetic root of every index.
    pub fn root() -> (entry: Self)
        ensures
            entry@ == root_view(),
    {
        proof {
            reveal_strlit("/");
        }
        let name = "/".to_owned();
        assert(name@ =~= root_name());
        Self::new_directory(name, 0, None, utf_8())
    }
}

/// One record of a container's directory, as read from the container.
#[derive(Debug, Clone)]
pub struct StoredEntry {
    /// The name as stored, before any decoding.
    pub name_raw: Vec<u8>,
    /// The size of the content once decompressed.
    pub size: u64,
    /// The size of the content as stored.
    pub compressed_size: u64,
    pub last_modified: Date,
}

impl FileProperties {
    /// The sizes that a record gives for its content.
    pub fn from(stored: &StoredEntry) -> (props: Self)
        ensures
            props == (FileProperties {
                raw_size_bytes: stored.size,
                compressed_size_bytes: stored.compressed_size,
            }),
    {
        FileProperties { raw_size_bytes: stored.size, compressed_size_bytes: stored.compressed_size }
    }
}

impl EntryProperties {
    /// The properties of the file that a record stands for.
    pub fn file(stored: &StoredEntry) -> (props: Self)
        ensures
            props == EntryProperties::File(
                FileProperties {
                    raw_size_bytes: stored.size,
                    compressed_size_bytes: stored.compressed_size,
                },
            ),
    {
        EntryProperties::File(FileProperties::from(stored))
    }
}

impl StoredEntry {
    /// What the record gives to the nodes that it creates.
    pub open spec fn source(self, entry_num: usize) -> EntrySource {
        EntrySource {
            entry_num,
            encoding: filename_encoding(self.name_raw@),
            file: FileProperties {
                raw_size_bytes: self.size,
                compressed_size_bytes: self.compressed_size,
            },
            last_modified: self.last_modified,
        }
    }

    /// Whether the stored name is short enough to be decoded.
    pub open spec fn decodable(self) -> bool {
        self.name_raw@.len() <= usize::MAX / 4
    }
}

/// Why no index could be built.
#[derive(Debug, Copy, Clone, PartialEq, Eq)]
pub enum ArchiveError {
    /// The record at `index` of the container's directory could not be read.
    Parse { index: usize },
}

/// The arena after a record was indexed: its decoded path is followed from
/// the root, and what is missing on the way is created.
pub open spec fn inserted(nodes: Seq<EntryView>, entry_num: usize, stored: StoredEntry) -> Seq<
    EntryView,
> {
    insert_from(
        nodes,
        0,
        path_parts(decoded_filename(stored.name_raw@)),
        0,
        stored.source(entry_num),
    )
}

/// The arena after the first `n` records were indexed in stored order.
pub open spec fn built(records: Seq<Option<StoredEntry>>, n: int) -> Seq<EntryView>
    decreases n,
{
    if n <= 0 {
        seq![root_view()]
    } else {
        inserted(built(records, n - 1), (n - 1) as usize, records[n - 1].unwrap())
    }
}

/// The node arena: node 0 is the root, and every other node was created by
/// the first record whose path reached it.
pub struct ArchiveEntries {
    nodes: Vec<ArchiveEntry>,
}

impl View for ArchiveEntries {
    type V = Seq<EntryView>;

    closed spec fn view(&self) -> Seq<EntryView> {
        self.nodes@.map_values(|e: ArchiveEntry| e@)
    }
}

impl ArchiveEntries {
    /// Whether the arena is a tree below node 0.
    pub open spec fn wf(&self) -> bool {
        wf_nodes(self@)
    }

    /// An arena that holds the root alone.
    pub fn new() -> (entries: Self)
        ensures
            entries@ == seq![root_view()],
            entries.wf(),
    {
        let mut nodes: Vec<ArchiveEntry> = Vec::new();
        nodes.push(ArchiveEntry::root());
        let entries = ArchiveEntries { nodes };
        assert(entries@ =~= seq![root_view()]);
        entries
    }

    /// The number of nodes, the root included.
    pub fn len(&self) -> (n: usize)
        ensures
            n == self@.len(),
    {
        self.nodes.len()
    }

    /// The node behind a handle.
    pub fn get(&self, id: NodeID) -> (entry: &ArchiveEntry)
        requires
            id@ < self@.len(),
        ensures
            entry@ == self@[id@],
    {
        &self.nodes[id.0]
    }

    /// The handle of the node at `index`, if the arena has such a node.
    pub fn create_node_id(&self, index: u32) -> (id: Option<NodeID>)
        ensures
            id == if index < self@.len() {
                Some(NodeID(index as usize))
            } else {
                None
            },
    {
        if (index as usize) < self.nodes.len() {
            Some(NodeID(index as usize))
        } else {
            None
        }
    }

    /// The child of `parent` that carries `name`.
    pub fn find_child(&self, parent: NodeID, name: &String) -> (found: Option<NodeID>)
        requires
            self.wf(),
            parent@ < self@.len(),
        ensures
            found == child_named(self@, parent@, name@),
    {
        let children = &self.nodes[parent.0].children;
        let mut j: usize = 0;
        while j < children.len()
            invariant
                self.wf(),
                parent@ < self@.len(),
                children@ == self@[parent@].children,
                j <= children.len(),
                child_named_from(self@, children@, name@, j as int) == child_named(
                    self@,
                    parent@,
                    name@,
                ),
            decreases children.len() - j,
        {
            let child = children[j];
            assert(child == self@[parent@].children[j as int]);
            if self.nodes[child.0].name == *name {
                return Some(child);
            }
            j += 1;
        }
        None
    }

    /// Adds `entry` as the last child of `parent`.
    fn attach(&mut self, parent: NodeID, entry: ArchiveEntry) -> (id: NodeID)
        requires
            old(self).wf(),
            parent@ < old(self)@.len(),
            entry@.children.len() == 0,
            child_named(old(self)@, parent@, entry@.name) is None,
        ensures
            final(self)@ == attach(old(self)@, parent@, entry@),
            final(self).wf(),
            id@ == old(self)@.len(),
    {
        let mut entry = entry;
        entry.parent = Some(parent);
        self.nodes.push(entry);
        let id = NodeID(self.nodes.len() - 1);
        self.nodes[parent.0].children.push(id);
        proof {
            lemma_attach_wf(old(self)@, parent@, entry@);
            assert(self@ =~= attach(old(self)@, parent@, entry@));
        }
        id
    }

    /// Indexes one decoded path: follows its components from the root,
    /// creating the nodes that are missing. A node that exists stays as it is.
    pub fn insert_path(
        &mut self,
        path: &str,
        encoding: &'static Encoding,
        entry_num: usize,
        file: FileProperties,
        last_modified: Date,
    )
        requires
            old(self).wf(),
        ensures
            final(self).wf(),
            final(self)@ == insert_from(
                old(self)@,
                0,
                path_parts(path@),
                0,
                EntrySource {
                    entry_num,
                    encoding: encoding_label(*encoding),
                    file,
                    last_modified,
                },
            ),
    {
        let parts = split_path(path);
        let ghost source = EntrySource {
            entry_num,
            encoding: encoding_label(*encoding),
            file,
            last_modified,
        };
        let ghost all = path_parts(path@);
        let mut cur = NodeID::first();
        let mut k: usize = 0;
        while k < parts.len()
            invariant
                self.wf(),
                cur@ < self@.len(),
                k <= parts.len(),
                parts_view(parts@) == all,
                all.len() == parts.len(),
                source == (EntrySource {
                    entry_num,
                    encoding: encoding_label(*encoding),
                    file,
                    last_modified,
                }),
                insert_from(self@, cur@, all, k as int, source) == insert_from(
                    old(self)@,
                    0,
                    all,
                    0,
                    source,
                ),
            decreases parts.len() - k,
        {
            let part = &parts[k];
            assert(part@ == all[k as int]);
            match self.find_child(cur, &part.name) {
                Some(id) => {
                    proof {
                        crate::archive::model::lemma_child_named_some(
                            self@,
                            self@[cur@].children,
                            part.name@,
                            0,
                        );
                    }
                    cur = id;
                },
                None => {
                    let entry = ArchiveEntry::from_path(
                        part.name.clone(),
                        part.terminal,
                        entry_num,
                        encoding,
                        file,
                        last_modified,
                    );
                    assert(entry@ == new_entry(all[k as int], source));
                    cur = self.attach(cur, entry);
                },
            }
            k += 1;
        }
    }

    /// Indexes one record of the container: decodes its stored name and
    /// indexes the path that it decodes to.
    pub fn insert_entry(&mut self, entry_num: usize, stored: &StoredEntry)
        requires
            old(self).wf(),
            stored.decodable(),
        ensures
            final(self).wf(),
            final(self)@ == inserted(old(self)@, entry_num, *stored),
    {
        let (path, encoding) = decode_filename(stored.name_raw.as_slice());
        let file = FileProperties::from(stored);
        self.insert_path(path.as_str(), encoding, entry_num, file, stored.last_modified);
    }

    /// Builds the index of a container from the records of its directory, in
    /// stored order. A record that could not be read, `None`, ends the
    /// construction with the position of the first such record.
    pub fn read(records: &Vec<Option<StoredEntry>>) -> (result: Result<Self, ArchiveError>)
        requires
            forall|i: int|
                0 <= i < records@.len() && records@[i] is Some
                    ==> (#[trigger] records@[i]).unwrap().decodable(),
        ensures
            match result {
                Ok(entries) => {
                    &&& entries.wf()
                    &&& forall|i: int| 0 <= i < records@.len() ==> records@[i] is Some
                    &&& entries@ == built(records@, records@.len() as int)
                },
                Err(error) => {
                    &&& error matches ArchiveError::Parse { index }
                    &&& index < records@.len()
                    &&& records@[index as int] is None
                    &&& forall|i: int| 0 <= i < index ==> records@[i] is Some
                },
            },
    {
        let mut entries = Self::new();
        let mut i: usize = 0;
        while i < records.len()
            invariant
                i <= records.len(),
                entries.wf(),
                entries@ == built(records@, i as int),
                forall|j: int| 0 <= j < i ==> records@[j] is Some,
                forall|j: int|
                    0 <= j < records@.len() && records@[j] is Some
                        ==> (#[trigger] records@[j]).unwrap().decodable(),
            decreases records.len() - i,
        {
            match &records[i] {
                Some(stored) => {
                    entries.insert_entry(i, stored);
                },
                None => {
                    return Err(ArchiveError::Parse { index: i });
                },
            }
            i += 1;
        }
        Ok(entries)
    }
}

/// The raw sizes of the first `n` nodes, added up.
pub open spec fn total_raw_size(nodes: Seq<EntryView>, n: int) -> int
    decreases n,
{
    if n <= 0 {
        0
    } else {
        total_raw_size(nodes, n - 1) + nodes[n - 1].props.raw_size()
    }
}

/// The index of a container. It is built once and only read afterwards.
pub struct Archive {
    pub files: ArchiveEntries,
    /// The raw sizes of all indexed files, added up.
    pub total_size_bytes: u128,
    /// The number of records in the container's directory.
    pub entry_count: usize,
}

impl Archive {
    /// Whether the tree is well formed and the total is that of its files.
    pub open spec fn wf(&self) -> bool {
        &&& self.files.wf()
        &&& self.total_size_bytes == total_raw_size(self.files@, self.files@.len() as int)
    }

    /// Takes an arena as the index of a container of `entry_count` records.
    pub fn new(files: ArchiveEntries, entry_count: usize) -> (archive: Self)
        requires
            files.wf(),
        ensures
            archive.wf(),
            archive.files == files,
            archive.entry_count == entry_count,
    {
        let mut total: u128 = 0;
        let mut i: usize = 0;
        while i < files.len()
            invariant
                i <= files@.len(),
                total == total_raw_size(files@, i as int),
                total <= i * 0xFFFF_FFFF_FFFF_FFFF,
            decreases files@.len() - i,
        {
            let size = match files.get(NodeID(i)).props {
                EntryProperties::Directory => 0,
                EntryProperties::File(props) => props.raw_size_bytes,
            };
            total = total + size as u128;
            i += 1;
        }
        Archive { files, total_size_bytes: total, entry_count }
    }

    /// Builds the index of a container from the records of its directory, in
    /// stored order. A record that could not be read, `None`, ends the
    /// construction with the position of the first such record.
    pub fn read(records: &Vec<Option<StoredEntry>>) -> (result: Result<Self, ArchiveError>)
        requires
            forall|i: int|
                0 <= i < records@.len() && records@[i] is Some
                    ==> (#[trigger] records@[i]).unwrap().decodable(),
        ensures
            match result {
                Ok(archive) => {
                    &&& archive.wf()
                    &&& forall|i: int| 0 <= i < records@.len() ==> records@[i] is Some
                    &&& archive.files@ == built(records@, records@.len() as int)
                    &&& archive.entry_count == records@.len()
                },
                Err(ArchiveError::Parse { index }) => {
                    &&& index < records@.len()
                    &&& records@[index as int] is None
                    &&& forall|i: int| 0 <= i < index ==> records@[i] is Some
                },
            },
    {
        match ArchiveEntries::read(records) {
            Ok(files) => Ok(Self::new(files, records.len())),
            Err(error) => Err(error),
        }
    }

    /// The node behind a handle.
    pub fn get(&self, id: NodeID) -> (entry: &ArchiveEntry)
        requires
            id@ < self.files@.len(),
        ensures
            entry@ == self.files@[id@],
    {
        self.files.get(id)
    }
}

/// `Arc::clone`: one more handle to the same index.
#[verifier::external_body]
pub(crate) fn share(archive: &Arc<Archive>) -> (shared: Arc<Archive>)
    ensures
        shared == *archive,
{
    Arc::clone(archive)
}

} // verus!
