//! The decisions of a read-only filesystem served from the index: which node
//! an inode stands for, what attributes it has, which bytes a read returns,
//! and when cached content is given up.

use crate::archive::meminfo::{field_value, read_meminfo_field};
use crate::archive::model::child_named;
use crate::archive::{
    total_raw_size, Archive, ArchiveEntry, Date, EntryProperties, EntryView, NodeID,
};
use std::collections::HashMap;
use std::sync::Arc;
use vstd::prelude::*;
use vstd::slice::{slice_subrange, slice_to_vec};
use vstd::string::StringSliceAdditionalSpecFns;

verus! {

/// The inode of the root of a mounted filesystem. The inode of a node is its
/// position in the arena plus this number.
pub const FUSE_ROOT_ID: u64 = 1;

/// The block size that attributes and statistics are given in.
pub const BLOCK_SIZE: u32 = 4096;

/// The memory assumed available, in KB, where the platform does not say: 8 GB.
pub const DEFAULT_TOTAL_MEM: u64 = 8 * 1024 * 1024;

/// The longest file name that the statistics announce.
pub const MAX_NAME_LENGTH: u32 = 255;

/// The permission bits of every node: its owner may execute, everyone may read.
pub const PERMISSIONS: u16 = 0o544;

/// Whether a node of the filesystem is a directory or a regular file.
#[derive(Debug, Copy, Clone, PartialEq, Eq, Structural)]
pub enum FileKind {
    Directory,
    RegularFile,
}

/// The attributes of a node, but for the time of access.
#[derive(Debug, Copy, Clone, PartialEq, Eq, Structural)]
pub struct FileAttr {
    pub ino: u64,
    pub size: u64,
    pub blocks: u64,
    /// The time of modification, of change and of creation.
    pub mtime: Date,
    pub kind: FileKind,
    pub perm: u16,
    pub nlink: u32,
    pub uid: u32,
    pub gid: u32,
    pub rdev: u32,
    pub blksize: u32,
    pub flags: u32,
}

/// Why a request on the filesystem fails.
#[derive(Debug, Copy, Clone, PartialEq, Eq, Structural)]
pub enum FsError {
    /// No node has the given inode, or the given name below the given inode,
    /// or the content of the node could not be had.
    NotFound,
}

/// One line of a directory listing.
#[derive(Debug, Clone)]
pub struct DirEntry {
    pub ino: u64,
    /// The offset at which a listing goes on after this line.
    pub next_offset: u64,
    pub kind: FileKind,
    pub name: String,
}

/// What a directory listing says of a child, as plain values.
pub struct DirEntryView {
    pub ino: u64,
    pub next_offset: u64,
    pub kind: FileKind,
    pub name: Seq<char>,
}

impl View for DirEntry {
    type V = DirEntryView;

    open spec fn view(&self) -> DirEntryView {
        DirEntryView {
            ino: self.ino,
            next_offset: self.next_offset,
            kind: self.kind,
            name: self.name@,
        }
    }
}

/// The statistics of the filesystem.
#[derive(Debug, Copy, Clone, PartialEq, Eq, Structural)]
pub struct StatFs {
    /// The number of blocks; a reply that holds fewer bits cannot hold every
    /// such number.
    pub blocks: u128,
    pub bfree: u64,
    pub bavail: u64,
    pub files: u64,
    pub ffree: u64,
    pub bsize: u32,
    pub namelen: u32,
    pub frsize: u32,
}

/// The time that stands for a missing modification time: the epoch.
pub open spec fn epoch() -> Date {
    Date { year: 1970, month: 1, day: 1, hour: 0, minute: 0 }
}

/// The kind of a node in the filesystem.
pub open spec fn kind_of(props: EntryProperties) -> FileKind {
    match props {
        EntryProperties::Directory => FileKind::Directory,
        EntryProperties::File(_) => FileKind::RegularFile,
    }
}

/// The inode under which a node is served.
pub open spec fn inode_of(id: NodeID) -> int {
    id@ + FUSE_ROOT_ID
}

/// The node that an inode stands for in an arena of `len` nodes.
pub open spec fn node_of(inode: u64, len: nat) -> Option<NodeID> {
    if FUSE_ROOT_ID <= inode && inode - FUSE_ROOT_ID < len {
        Some(NodeID((inode - FUSE_ROOT_ID) as usize))
    } else {
        None
    }
}

/// The attributes of a node: a directory has size 0, a file its raw size.
pub open spec fn attr_of(id: NodeID, entry: EntryView, uid: u32, gid: u32) -> FileAttr {
    FileAttr {
        ino: inode_of(id) as u64,
        size: entry.props.raw_size(),
        blocks: entry.props.raw_size() / (BLOCK_SIZE as u64),
        mtime: match entry.last_modified {
            Some(date) => date,
            None => epoch(),
        },
        kind: kind_of(entry.props),
        perm: PERMISSIONS,
        nlink: 0,
        uid,
        gid,
        rdev: 0,
        blksize: BLOCK_SIZE,
        flags: 0,
    }
}

/// The part of `content` that a read of `size` bytes at `offset` returns:
/// nothing at or beyond the end, and nothing beyond the end otherwise.
pub open spec fn clip(content: Seq<u8>, offset: int, size: int) -> Seq<u8> {
    if offset < 0 || offset >= content.len() || size < 0 {
        Seq::empty()
    } else if offset + size <= content.len() {
        content.subrange(offset, offset + size)
    } else {
        content.subrange(offset, content.len() as int)
    }
}

/// The content of an optional buffer.
pub open spec fn bytes_of(content: Option<Vec<u8>>) -> Option<Seq<u8>> {
    match content {
        Some(bytes) => Some(bytes@),
        None => None,
    }
}

/// The content that a read of the node at `id` is answered from: what is
/// cached for the node, else what was loaded for the read, if anything.
pub open spec fn served(cache: Map<usize, Seq<u8>>, id: usize, loaded: Option<Seq<u8>>) -> Option<
    Seq<u8>,
> {
    if cache.contains_key(id) {
        Some(cache[id])
    } else {
        loaded
    }
}

/// The cache after a read of the node at `id`: what was loaded for a node
/// that was not cached is cached now.
pub open spec fn cache_after_read(
    cache: Map<usize, Seq<u8>>,
    id: usize,
    loaded: Option<Seq<u8>>,
) -> Map<usize, Seq<u8>> {
    if cache.contains_key(id) {
        cache
    } else {
        match loaded {
            Some(bytes) => cache.insert(id, bytes),
            None => cache,
        }
    }
}

/// Whether a cache that is charged with `used` bytes has to give content
/// up: its charge in KB is more than half of the available memory.
pub open spec fn under_pressure(used: u128, memory: AvailableMemory) -> bool {
    used / 1024 > memory.current_kb / 2
}

/// Two reads one after the other return what one read of both ranges
/// returns: the second read is answered from the content that answered the
/// first, whatever is loaded for it, and the two ranges join.
pub proof fn lemma_reads_join(
    cache: Map<usize, Seq<u8>>,
    id: usize,
    loaded: Option<Seq<u8>>,
    loaded_again: Option<Seq<u8>>,
    n: nat,
    m: nat,
)
    requires
        served(cache, id, loaded) is Some,
    ensures
        served(cache_after_read(cache, id, loaded), id, loaded_again) == served(cache, id, loaded),
        cache_after_read(cache_after_read(cache, id, loaded), id, loaded_again) == cache_after_read(
            cache,
            id,
            loaded,
        ),
        clip(served(cache, id, loaded).unwrap(), 0, n as int) + clip(
            served(cache, id, loaded).unwrap(),
            n as int,
            m as int,
        ) == clip(served(cache, id, loaded).unwrap(), 0, (n + m) as int),
{
}

/// The raw sizes of those of the first `n` nodes that are cached, added up.
pub open spec fn cached_bytes(nodes: Seq<EntryView>, cached: Set<usize>, n: int) -> int
    decreases n,
{
    if n <= 0 {
        0
    } else {
        cached_bytes(nodes, cached, n - 1) + if cached.contains((n - 1) as usize) {
            nodes[n - 1].props.raw_size() as int
        } else {
            0
        }
    }
}

/// Caching one more node adds its raw size.
pub proof fn lemma_cached_bytes_insert(nodes: Seq<EntryView>, cached: Set<usize>, k: usize, n: int)
    requires
        !cached.contains(k),
        n <= usize::MAX + 1,
    ensures
        cached_bytes(nodes, cached.insert(k), n) == cached_bytes(nodes, cached, n) + if k < n {
            nodes[k as int].props.raw_size() as int
        } else {
            0
        },
    decreases n,
{
    if n > 0 {
        lemma_cached_bytes_insert(nodes, cached, k, n - 1);
    }
}

/// Giving up a cached node takes its raw size away.
pub proof fn lemma_cached_bytes_remove(nodes: Seq<EntryView>, cached: Set<usize>, k: usize, n: int)
    requires
        cached.contains(k),
        n <= usize::MAX + 1,
    ensures
        cached_bytes(nodes, cached.remove(k), n) == cached_bytes(nodes, cached, n) - if k < n {
            nodes[k as int].props.raw_size() as int
        } else {
            0
        },
    decreases n,
{
    if n > 0 {
        lemma_cached_bytes_remove(nodes, cached, k, n - 1);
    }
}

/// What is cached weighs no more than all nodes together.
pub proof fn lemma_cached_bytes_bound(nodes: Seq<EntryView>, cached: Set<usize>, n: int)
    ensures
        0 <= cached_bytes(nodes, cached, n) <= total_raw_size(nodes, n),
    decreases n,
{
    if n > 0 {
        lemma_cached_bytes_bound(nodes, cached, n - 1);
    }
}

/// A reading of the clock: the time since the epoch.
#[derive(Debug, Copy, Clone, PartialEq, Eq, Structural)]
pub struct Timestamp {
    pub secs: u64,
    pub nanos: u32,
}

/// The nanoseconds in one second.
pub const NANOS_PER_SEC: u32 = 1_000_000_000;

impl Timestamp {
    /// The reading in nanoseconds.
    pub open spec fn total_nanos(self) -> int {
        self.secs * NANOS_PER_SEC + self.nanos
    }

    /// The reading in nanoseconds.
    pub fn nanos_since_epoch(&self) -> (nanos: u128)
        ensures
            nanos == self.total_nanos(),
    {
        assert(self.secs * NANOS_PER_SEC <= u64::MAX * NANOS_PER_SEC) by (nonlinear_arith)
            requires
                self.secs <= u64::MAX,
                NANOS_PER_SEC > 0,
        ;
        self.secs as u128 * NANOS_PER_SEC as u128 + self.nanos as u128
    }

    /// The whole seconds that have passed from `self` to `now`; none where
    /// the clock went backwards.
    pub open spec fn elapsed_secs(self, now: Timestamp) -> Option<int> {
        if now.total_nanos() >= self.total_nanos() {
            Some((now.total_nanos() - self.total_nanos()) / (NANOS_PER_SEC as int))
        } else {
            None
        }
    }
}

/// The memory that the platform said was available, and when it said so.
#[derive(Debug, Copy, Clone, PartialEq, Eq, Structural)]
pub struct AvailableMemory {
    pub current_kb: u64,
    pub last_check: Timestamp,
}

/// For how many seconds a reading of the available memory is used.
pub const REFRESH_SECS: u64 = 5;

impl AvailableMemory {
    /// Whether the reading is recent enough at `now` to be used again.
    pub open spec fn fresh(self, now: Timestamp) -> bool {
        self.last_check.elapsed_secs(now) matches Some(secs) && secs < REFRESH_SECS
    }

    /// The reading that holds at `now`: a fresh one stays, a stale one gives
    /// way to the new `reading`, and stays where there is none.
    pub open spec fn refreshed(self, now: Timestamp, reading: Option<u64>) -> AvailableMemory {
        if self.fresh(now) {
            self
        } else {
            match reading {
                Some(kb) => AvailableMemory { current_kb: kb, last_check: now },
                None => self,
            }
        }
    }

    /// The reading that the platform's report on its memory gives at `now`:
    /// the value of its field of the available memory, if it has one.
    pub fn read(meminfo: &[u8], now: Timestamp) -> (memory: Option<Self>)
        ensures
            memory == match field_value(meminfo@, "MemAvailable".spec_bytes()) {
                Some(current_kb) => Some(AvailableMemory { current_kb, last_check: now }),
                None => None,
            },
    {
        match read_meminfo_field(meminfo, "MemAvailable") {
            Some(current_kb) => Some(AvailableMemory { current_kb, last_check: now }),
            None => None,
        }
    }

    /// A reading of `available_kb` taken at `now`.
    pub fn with_avail_kb(available_kb: u64, now: Timestamp) -> (memory: Self)
        ensures
            memory == (AvailableMemory { current_kb: available_kb, last_check: now }),
    {
        AvailableMemory { current_kb: available_kb, last_check: now }
    }

    /// Whether the reading is recent enough at `now` to be used again.
    pub fn is_fresh(&self, now: Timestamp) -> (fresh: bool)
        ensures
            fresh == self.fresh(now),
    {
        let last = self.last_check.nanos_since_epoch();
        let current = now.nanos_since_epoch();
        if current >= last {
            (current - last) / (NANOS_PER_SEC as u128) < REFRESH_SECS as u128
        } else {
            false
        }
    }

    /// The memory available at `now`, in KB. A reading older than five
    /// seconds, or one from after `now`, is replaced by `reading` where the
    /// platform gave one.
    pub fn cur_available_kb(&mut self, now: Timestamp, reading: Option<u64>) -> (kb: u64)
        ensures
            *final(self) == old(self).refreshed(now, reading),
            kb == final(self).current_kb,
    {
        if self.is_fresh(now) {
            return self.current_kb;
        }
        if let Some(avail) = reading {
            self.current_kb = avail;
            self.last_check = now;
        }
        self.current_kb
    }
}

/// What a read has to be given before it can be answered.
#[derive(Debug, Copy, Clone, PartialEq, Eq, Structural)]
pub enum ReadPlan {
    /// No node has the inode.
    NotFound,
    /// The content of the node is cached.
    Cached,
    /// The content has to be decompressed first: it is that of the record at
    /// `entry_num` of the container, and `capacity` bytes long by its header.
    Load { entry_num: usize, capacity: u64 },
}

/// An index served as a filesystem, with the content that it has cached.
pub struct MountedArchive {
    archive: Arc<Archive>,
    uid: u32,
    gid: u32,
    cached_files: HashMap<usize, Vec<u8>>,
    cur_used_size_bytes: u128,
    avail_memory: AvailableMemory,
}

impl MountedArchive {
    /// The index that is served.
    pub closed spec fn archive(&self) -> Archive {
        *self.archive
    }

    /// The nodes of the index that is served.
    pub open spec fn nodes(&self) -> Seq<EntryView> {
        self.archive().files@
    }

    /// The user that owns every node.
    pub closed spec fn uid(&self) -> u32 {
        self.uid
    }

    /// The group that owns every node.
    pub closed spec fn gid(&self) -> u32 {
        self.gid
    }

    /// The content that is cached, by the position of its node.
    pub closed spec fn cache(&self) -> Map<usize, Seq<u8>> {
        self.cached_files@.map_values(|v: Vec<u8>| v@)
    }

    /// The bytes that the cache is charged with.
    pub closed spec fn cur_used_size_bytes(&self) -> u128 {
        self.cur_used_size_bytes
    }

    /// The last reading of the available memory.
    pub closed spec fn avail_memory(&self) -> AvailableMemory {
        self.avail_memory
    }

    /// Whether only nodes of the index are cached, and the cache is charged
    /// with the raw sizes of exactly the cached nodes.
    pub open spec fn wf(&self) -> bool {
        &&& self.archive().wf()
        &&& self.cache().dom().finite()
        &&& forall|k: usize| self.cache().contains_key(k) ==> k < self.nodes().len()
        &&& self.cur_used_size_bytes() == cached_bytes(
            self.nodes(),
            self.cache().dom(),
            self.nodes().len() as int,
        )
    }

    /// The attributes of the node `id`.
    pub open spec fn attr(&self, id: NodeID) -> FileAttr {
        attr_of(id, self.nodes()[id@], self.uid(), self.gid())
    }

    /// Serves `archive` with nothing cached, every node owned by `uid` and `gid`.
    pub fn new(archive: Arc<Archive>, uid: u32, gid: u32, avail_memory: AvailableMemory) -> (mounted:
        Self)
        requires
            archive.wf(),
        ensures
            mounted.wf(),
            mounted.archive() == *archive,
            mounted.uid() == uid,
            mounted.gid() == gid,
            mounted.cache() == Map::<usize, Seq<u8>>::empty(),
            mounted.cur_used_size_bytes() == 0,
            mounted.avail_memory() == avail_memory,
    {
        let mounted = MountedArchive {
            archive,
            uid,
            gid,
            cached_files: HashMap::new(),
            cur_used_size_bytes: 0,
            avail_memory,
        };
        proof {
            assert(mounted.cache() =~= Map::<usize, Seq<u8>>::empty());
            lemma_cached_bytes_empty(mounted.nodes(), mounted.nodes().len() as int);
        }
        mounted
    }

    /// Whether the last reading of the available memory can be used again
    /// at `now`, so that a release needs no new one.
    pub fn memory_is_fresh(&self, now: Timestamp) -> (fresh: bool)
        ensures
            fresh == self.avail_memory().fresh(now),
    {
        self.avail_memory.is_fresh(now)
    }

    /// The bytes that the cache is charged with.
    pub fn used_bytes(&self) -> (used: u128)
        ensures
            used == self.cur_used_size_bytes(),
    {
        self.cur_used_size_bytes
    }

    /// The node that `inode` stands for.
    pub fn get_node(&self, inode: u64) -> (found: Option<(NodeID, &ArchiveEntry)>)
        requires
            self.wf(),
        ensures
            match found {
                Some((id, entry)) => node_of(inode, self.nodes().len()) == Some(id) && entry@
                    == self.nodes()[id@],
                None => node_of(inode, self.nodes().len()) is None,
            },
    {
        if inode < FUSE_ROOT_ID {
            return None;
        }
        let index = inode - FUSE_ROOT_ID;
        let len = self.archive.files.len();
        if index >= len as u64 {
            return None;
        }
        let id = NodeID(index as usize);
        Some((id, self.archive.files.get(id)))
    }

    /// The attributes of a node of the given inode, size, kind and time of
    /// modification; a node without such a time gets the epoch.
    pub fn file_attr(&self, ino: u64, size: u64, kind: FileKind, modified_time: Option<Date>) -> (attr:
        FileAttr)
        ensures
            attr == (FileAttr {
                ino,
                size,
                blocks: size / (BLOCK_SIZE as u64),
                mtime: match modified_time {
                    Some(date) => date,
                    None => epoch(),
                },
                kind,
                perm: PERMISSIONS,
                nlink: 0,
                uid: self.uid(),
                gid: self.gid(),
                rdev: 0,
                blksize: BLOCK_SIZE,
                flags: 0,
            }),
    {
        let mtime = match modified_time {
            Some(date) => date,
            None => Date { year: 1970, month: 1, day: 1, hour: 0, minute: 0 },
        };
        FileAttr {
            ino,
            size,
            blocks: size / (BLOCK_SIZE as u64),
            mtime,
            kind,
            perm: PERMISSIONS,
            nlink: 0,
            uid: self.uid,
            gid: self.gid,
            rdev: 0,
            blksize: BLOCK_SIZE,
            flags: 0,
        }
    }

    /// The attributes of a node.
    pub fn attr_from_node(&self, node_id: NodeID, node: &ArchiveEntry) -> (attr: FileAttr)
        requires
            node_id@ < usize::MAX,
        ensures
            attr == attr_of(node_id, node@, self.uid(), self.gid()),
    {
        let (size, kind) = match node.props {
            EntryProperties::File(props) => (props.raw_size_bytes, FileKind::RegularFile),
            EntryProperties::Directory => (0, FileKind::Directory),
        };
        self.file_attr(node_id.0 as u64 + FUSE_ROOT_ID, size, kind, node.last_modified)
    }

    /// The attributes of the child of `parent` that carries exactly `name`.
    pub fn lookup(&self, parent: u64, name: &str) -> (result: Result<FileAttr, FsError>)
        requires
            self.wf(),
        ensures
            result == match node_of(parent, self.nodes().len()) {
                Some(dir) => match child_named(self.nodes(), dir@, name@) {
                    Some(child) => Ok(self.attr(child)),
                    None => Err(FsError::NotFound),
                },
                None => Err(FsError::NotFound),
            },
    {
        let dir = match self.get_node(parent) {
            Some((dir, _)) => dir,
            None => {
                return Err(FsError::NotFound);
            },
        };
        let name = name.to_owned();
        match self.archive.files.find_child(dir, &name) {
            Some(child) => {
                proof {
                    crate::archive::model::lemma_child_named_some(
                        self.nodes(),
                        self.nodes()[dir@].children,
                        name@,
                        0,
                    );
                }
                Ok(self.attr_from_node(child, self.archive.files.get(child)))
            },
            None => Err(FsError::NotFound),
        }
    }

    /// The attributes of the node that `inode` stands for.
    pub fn getattr(&self, inode: u64) -> (result: Result<FileAttr, FsError>)
        requires
            self.wf(),
        ensures
            result == match node_of(inode, self.nodes().len()) {
                Some(id) => Ok(self.attr(id)),
                None => Err(FsError::NotFound),
            },
    {
        match self.get_node(inode) {
            Some((id, node)) => Ok(self.attr_from_node(id, node)),
            None => Err(FsError::NotFound),
        }
    }

    /// Opens a file or a directory. The filesystem is read-only and keeps no
    /// state for a handle, so this succeeds for every inode: the handle and
    /// the flags are both 0.
    pub fn open(&self, inode: u64, flags: i32) -> (handle: (u64, u32))
        ensures
            handle == (0u64, 0u32),
    {
        (0, 0)
    }

    /// What a read of `inode` needs before it can be answered.
    pub fn read_plan(&self, inode: u64) -> (plan: ReadPlan)
        requires
            self.wf(),
        ensures
            plan == match node_of(inode, self.nodes().len()) {
                None => ReadPlan::NotFound,
                Some(id) => if self.cache().contains_key(id.0) {
                    ReadPlan::Cached
                } else {
                    ReadPlan::Load {
                        entry_num: self.nodes()[id@].entry_num,
                        capacity: self.nodes()[id@].props.raw_size(),
                    }
                },
            },
    {
        broadcast use vstd::std_specs::hash::group_hash_axioms;

        match self.get_node(inode) {
            None => ReadPlan::NotFound,
            Some((id, node)) => {
                if self.cached_files.contains_key(&id.0) {
                    ReadPlan::Cached
                } else {
                    let capacity = match node.props {
                        EntryProperties::File(props) => props.raw_size_bytes,
                        EntryProperties::Directory => 0,
                    };
                    ReadPlan::Load { entry_num: node.entry_num, capacity }
                }
            },
        }
    }

    /// Reads up to `size` bytes of a node from `offset` on. Content that is
    /// cached is served from the cache. Content that is not is taken from
    /// `content`, the whole decompressed content of the node, and cached;
    /// without it the read fails.
    pub fn read(&mut self, inode: u64, offset: i64, size: u32, content: Option<Vec<u8>>) -> (result:
        Result<Vec<u8>, FsError>)
        requires
            old(self).wf(),
        ensures
            final(self).wf(),
            final(self).archive() == old(self).archive(),
            final(self).uid() == old(self).uid(),
            final(self).gid() == old(self).gid(),
            final(self).avail_memory() == old(self).avail_memory(),
            match node_of(inode, old(self).nodes().len()) {
                None => {
                    &&& result == Err::<Vec<u8>, FsError>(FsError::NotFound)
                    &&& final(self).cache() == old(self).cache()
                    &&& final(self).cur_used_size_bytes() == old(self).cur_used_size_bytes()
                },
                Some(id) => {
                    &&& match served(old(self).cache(), id.0, bytes_of(content)) {
                        Some(source) => result matches Ok(bytes) && bytes@ == clip(
                            source,
                            offset as int,
                            size as int,
                        ),
                        None => result == Err::<Vec<u8>, FsError>(FsError::NotFound),
                    }
                    &&& final(self).cache() == cache_after_read(
                        old(self).cache(),
                        id.0,
                        bytes_of(content),
                    )
                    &&& final(self).cur_used_size_bytes() == old(self).cur_used_size_bytes()
                        + if !old(self).cache().contains_key(id.0) && content is Some {
                        old(self).nodes()[id@].props.raw_size() as int
                    } else {
                        0
                    }
                },
            },
    {
        broadcast use vstd::std_specs::hash::group_hash_axioms;

        let (id, node_size) = match self.get_node(inode) {
            Some((id, node)) => {
                let node_size = match node.props {
                    EntryProperties::File(props) => props.raw_size_bytes,
                    EntryProperties::Directory => 0,
                };
                (id, node_size)
            },
            None => {
                return Err(FsError::NotFound);
            },
        };
        if !self.cached_files.contains_key(&id.0) {
            let loaded = match content {
                Some(loaded) => loaded,
                None => {
                    return Err(FsError::NotFound);
                },
            };
            proof {
                let nodes = self.nodes();
                let n = nodes.len() as int;
                lemma_cached_bytes_insert(nodes, self.cache().dom(), id.0, n);
                lemma_cached_bytes_bound(nodes, self.cache().dom().insert(id.0), n);
                assert(self.cached_files@.insert(id.0, loaded).map_values(|v: Vec<u8>| v@)
                    =~= self.cache().insert(id.0, loaded@));
                assert(self.cache().insert(id.0, loaded@).dom() =~= self.cache().dom().insert(
                    id.0,
                ));
            }
            self.cur_used_size_bytes = self.cur_used_size_bytes + node_size as u128;
            self.cached_files.insert(id.0, loaded);
        }
        let file_data = match self.cached_files.get(&id.0) {
            Some(file_data) => file_data,
            None => {
                return Err(FsError::NotFound);
            },
        };
        assert(file_data@ == self.cache()[id.0]);
        Ok(clipped(file_data.as_slice(), offset, size))
    }

    /// Closes a file. Where the cache is charged with more KB than half of
    /// what memory is available, the content of the file is given up.
    /// Content is given up at no other time. `reading` is what the platform
    /// says is available at `now`, if it says anything.
    pub fn release(&mut self, inode: u64, now: Timestamp, reading: Option<u64>) -> (result: Result<
        (),
        FsError,
    >)
        requires
            old(self).wf(),
        ensures
            final(self).wf(),
            final(self).archive() == old(self).archive(),
            final(self).uid() == old(self).uid(),
            final(self).gid() == old(self).gid(),
            final(self).avail_memory() == old(self).avail_memory().refreshed(now, reading),
            if under_pressure(old(self).cur_used_size_bytes(), final(self).avail_memory()) {
                match node_of(inode, old(self).nodes().len()) {
                    None => {
                        &&& result == Err::<(), FsError>(FsError::NotFound)
                        &&& final(self).cache() == old(self).cache()
                        &&& final(self).cur_used_size_bytes() == old(self).cur_used_size_bytes()
                    },
                    Some(id) => {
                        &&& result == Ok::<(), FsError>(())
                        &&& final(self).cache() == old(self).cache().remove(id.0)
                        &&& final(self).cur_used_size_bytes() == old(self).cur_used_size_bytes()
                            - if old(self).cache().contains_key(id.0) {
                            old(self).nodes()[id@].props.raw_size() as int
                        } else {
                            0
                        }
                    },
                }
            } else {
                &&& result == Ok::<(), FsError>(())
                &&& final(self).cache() == old(self).cache()
                &&& final(self).cur_used_size_bytes() == old(self).cur_used_size_bytes()
            },
    {
        broadcast use vstd::std_specs::hash::group_hash_axioms;

        let cur_used_kb = self.cur_used_size_bytes / 1024;
        let remaining_threshold = self.avail_memory.cur_available_kb(now, reading) / 2;
        if cur_used_kb > remaining_threshold as u128 {
            let (id, size) = match self.get_node(inode) {
                Some((id, node)) => {
                    let size = match node.props {
                        EntryProperties::File(props) => props.raw_size_bytes,
                        EntryProperties::Directory => 0,
                    };
                    (id, size)
                },
                None => {
                    return Err(FsError::NotFound);
                },
            };
            let ghost before = self.cache();
            let removed = self.cached_files.remove(&id.0);
            proof {
                assert(self.cache() =~= before.remove(id.0));
                assert(self.cache().dom() =~= before.dom().remove(id.0));
            }
            if removed.is_some() {
                proof {
                    let nodes = self.nodes();
                    let n = nodes.len() as int;
                    lemma_cached_bytes_remove(nodes, before.dom(), id.0, n);
                    lemma_cached_bytes_bound(nodes, before.dom().remove(id.0), n);
                }
                self.cur_used_size_bytes = self.cur_used_size_bytes - size as u128;
            } else {
                proof {
                    assert(before.dom().remove(id.0) =~= before.dom());
                }
            }
        }
        Ok(())
    }

    /// The children of a directory from position `offset` on, in the order
    /// in which they were indexed. Each line says where a listing goes on
    /// after it.
    pub fn readdir(&self, inode: u64, offset: i64) -> (result: Result<Vec<DirEntry>, FsError>)
        requires
            self.wf(),
        ensures
            match node_of(inode, self.nodes().len()) {
                None => result matches Err(FsError::NotFound),
                Some(dir) => {
                    &&& result matches Ok(lines)
                    &&& lines@.map_values(|line: DirEntry| line@) == listing(
                        self.nodes(),
                        dir@,
                        offset as int,
                    )
                    &&& forall|j: int|
                        0 <= j < lines@.len() ==> (#[trigger] lines@[j]).next_offset == offset + j
                            + 1
                    &&& forall|j: int|
                        0 <= j < lines@.len() ==> (#[trigger] lines@[j]).ino == self.nodes()[dir@].children[offset
                            + j]@ + FUSE_ROOT_ID
                },
            },
    {
        let node = match self.get_node(inode) {
            Some((_, node)) => node,
            None => {
                return Err(FsError::NotFound);
            },
        };
        let ghost nodes = self.nodes();
        let ghost dir = node_of(inode, nodes.len()).unwrap()@;
        let mut lines: Vec<DirEntry> = Vec::new();
        if offset < 0 || offset as u64 >= node.children.len() as u64 {
            assert(lines@.map_values(|line: DirEntry| line@) =~= listing(
                nodes,
                dir,
                offset as int,
            ));
            return Ok(lines);
        }
        let first = offset as usize;
        let mut i: usize = first;
        while i < node.children.len()
            invariant
                self.wf(),
                nodes == self.nodes(),
                0 <= dir < nodes.len(),
                node@ == nodes[dir],
                first == offset,
                first <= i <= node.children.len(),
                lines.len() == i - first,
                forall|j: int|
                    0 <= j < lines.len() ==> (#[trigger] lines@[j])@ == line_of(
                        nodes,
                        dir,
                        first + j,
                    ),
                forall|j: int|
                    0 <= j < lines.len() ==> (#[trigger] lines@[j]).next_offset == first + j + 1
                        && lines@[j].ino == nodes[dir].children[first + j]@ + FUSE_ROOT_ID,
            decreases node.children.len() - i,
        {
            let child_id = node.children[i];
            assert(child_id == nodes[dir].children[i as int]);
            let child = self.archive.files.get(child_id);
            let kind = match child.props {
                EntryProperties::File(_) => FileKind::RegularFile,
                EntryProperties::Directory => FileKind::Directory,
            };
            lines.push(
                DirEntry {
                    ino: child_id.0 as u64 + FUSE_ROOT_ID,
                    next_offset: FUSE_ROOT_ID + i as u64,
                    kind,
                    name: child.name.clone(),
                },
            );
            i += 1;
        }
        assert(lines@.map_values(|line: DirEntry| line@) =~= listing(nodes, dir, offset as int));
        Ok(lines)
    }

    /// The statistics of the filesystem: its size in blocks is that of all
    /// indexed files together, and it has as many files as the index has
    /// nodes.
    pub fn statfs(&self) -> (stats: StatFs)
        ensures
            stats == (StatFs {
                blocks: self.archive().total_size_bytes / (BLOCK_SIZE as u128),
                bfree: 0,
                bavail: 0,
                files: self.nodes().len() as u64,
                ffree: 0,
                bsize: BLOCK_SIZE,
                namelen: MAX_NAME_LENGTH,
                frsize: 0,
            }),
    {
        StatFs {
            blocks: self.archive.total_size_bytes / (BLOCK_SIZE as u128),
            bfree: 0,
            bavail: 0,
            files: self.archive.files.len() as u64,
            ffree: 0,
            bsize: BLOCK_SIZE,
            namelen: MAX_NAME_LENGTH,
            frsize: 0,
        }
    }
}

/// The line of a listing for the child at position `i` of `dir`.
pub open spec fn line_of(nodes: Seq<EntryView>, dir: int, i: int) -> DirEntryView {
    let child = nodes[dir].children[i];
    DirEntryView {
        ino: inode_of(child) as u64,
        next_offset: (FUSE_ROOT_ID + i) as u64,
        kind: kind_of(nodes[child@].props),
        name: nodes[child@].name,
    }
}

/// The listing of `dir` from position `offset` on.
pub open spec fn listing(nodes: Seq<EntryView>, dir: int, offset: int) -> Seq<DirEntryView> {
    if 0 <= offset < nodes[dir].children.len() {
        Seq::new(
            (nodes[dir].children.len() - offset) as nat,
            |j: int| line_of(nodes, dir, offset + j),
        )
    } else {
        Seq::empty()
    }
}

/// The bytes of `content` that a read of `size` bytes at `offset` returns.
pub fn clipped(content: &[u8], offset: i64, size: u32) -> (bytes: Vec<u8>)
    ensures
        bytes@ == clip(content@, offset as int, size as int),
{
    if offset < 0 || offset as u64 >= content.len() as u64 {
        return Vec::new();
    }
    let start = offset as usize;
    let left = content.len() - start;
    let end = if (size as u64) < left as u64 {
        start + size as usize
    } else {
        content.len()
    };
    slice_to_vec(slice_subrange(content, start, end))
}

/// An empty cache is charged with nothing.
pub proof fn lemma_cached_bytes_empty(nodes: Seq<EntryView>, n: int)
    ensures
        cached_bytes(nodes, Set::<usize>::empty(), n) == 0,
    decreases n,
{
    if n > 0 {
        lemma_cached_bytes_empty(nodes, n - 1);
    }
}

} // verus!
