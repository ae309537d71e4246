use archive_tree::archive::meminfo::{find_first, find_last, line_value, parse_number, read_meminfo_field, same_bytes};
use archive_tree::archive::mount::{
    clipped, AvailableMemory, DirEntry, FileAttr, FileKind, FsError, MountedArchive, ReadPlan,
    StatFs, Timestamp, BLOCK_SIZE, DEFAULT_TOTAL_MEM, FUSE_ROOT_ID,
};
use archive_tree::archive::{Archive, Date, NodeID, StoredEntry};
use std::sync::Arc;

fn stamp() -> Date {
    Date { year: 2020, month: 12, day: 31, hour: 23, minute: 59 }
}

fn record_of(name: &str, size: u64) -> Option<StoredEntry> {
    Some(StoredEntry {
        name_raw: name.as_bytes().to_vec(),
        size,
        compressed_size: size / 2,
        last_modified: stamp(),
    })
}

fn at(secs: u64, nanos: u32) -> Timestamp {
    Timestamp { secs, nanos }
}

/// Nodes: 0 root, 1 a, 2 a/b.txt (10 bytes), 3 a/c, 4 big (8192 bytes).
fn mounted_with(available_kb: u64) -> MountedArchive {
    let records = vec![record_of("a/b.txt", 10), record_of("a/c/", 0), record_of("big", 8192)];
    let archive = Arc::new(Archive::read(&records).unwrap());
    MountedArchive::new(archive, 1000, 100, AvailableMemory::with_avail_kb(available_kb, at(100, 0)))
}

fn content(len: usize) -> Vec<u8> {
    (0..len).map(|i| (i % 251) as u8).collect()
}

#[test]
fn constants_of_the_filesystem() {
    assert_eq!(FUSE_ROOT_ID, 1);
    assert_eq!(BLOCK_SIZE, 4096);
    assert_eq!(DEFAULT_TOTAL_MEM, 8 * 1024 * 1024);
}

#[test]
fn inode_is_node_position_plus_root_inode() {
    let mounted = mounted_with(1 << 20);
    let (id, node) = mounted.get_node(1).unwrap();
    assert_eq!(id, NodeID::first());
    assert_eq!(node.name, "/");
    let (id, node) = mounted.get_node(3).unwrap();
    assert_eq!(id, NodeID(2));
    assert_eq!(node.name, "b.txt");
    assert!(mounted.get_node(0).is_none());
    assert!(mounted.get_node(6).is_none());
    assert!(mounted.get_node(u64::MAX).is_none());
    assert!(mounted.get_node((1u64 << 32) + 1).is_none());
}

#[test]
fn getattr_of_a_directory() {
    let mounted = mounted_with(1 << 20);
    assert_eq!(
        mounted.getattr(2),
        Ok(FileAttr {
            ino: 2,
            size: 0,
            blocks: 0,
            mtime: stamp(),
            kind: FileKind::Directory,
            perm: 0o544,
            nlink: 0,
            uid: 1000,
            gid: 100,
            rdev: 0,
            blksize: 4096,
            flags: 0,
        })
    );
}

#[test]
fn getattr_of_the_root_has_the_epoch() {
    let mounted = mounted_with(1 << 20);
    let attr = mounted.getattr(1).unwrap();
    assert_eq!(attr.mtime, Date { year: 1970, month: 1, day: 1, hour: 0, minute: 0 });
    assert_eq!(attr.kind, FileKind::Directory);
    assert_eq!(attr.ino, 1);
}

#[test]
fn getattr_of_a_file() {
    let mounted = mounted_with(1 << 20);
    let attr = mounted.getattr(5).unwrap();
    assert_eq!(attr.ino, 5);
    assert_eq!(attr.size, 8192);
    assert_eq!(attr.blocks, 2);
    assert_eq!(attr.kind, FileKind::RegularFile);
    let small = mounted.getattr(3).unwrap();
    assert_eq!(small.size, 10);
    assert_eq!(small.blocks, 0);
}

#[test]
fn getattr_of_an_absent_inode() {
    let mounted = mounted_with(1 << 20);
    assert_eq!(mounted.getattr(0), Err(FsError::NotFound));
    assert_eq!(mounted.getattr(6), Err(FsError::NotFound));
}

#[test]
fn lookup_is_exact_and_case_sensitive() {
    let mounted = mounted_with(1 << 20);
    assert_eq!(mounted.lookup(1, "a"), mounted.getattr(2));
    assert_eq!(mounted.lookup(2, "b.txt"), mounted.getattr(3));
    assert_eq!(mounted.lookup(2, "c"), mounted.getattr(4));
    assert_eq!(mounted.lookup(2, "B.txt"), Err(FsError::NotFound));
    assert_eq!(mounted.lookup(2, "b"), Err(FsError::NotFound));
    assert_eq!(mounted.lookup(1, "b.txt"), Err(FsError::NotFound));
    assert_eq!(mounted.lookup(0, "a"), Err(FsError::NotFound));
    assert_eq!(mounted.lookup(99, "a"), Err(FsError::NotFound));
}

#[test]
fn open_always_succeeds() {
    let mounted = mounted_with(1 << 20);
    assert_eq!(mounted.open(3, 0), (0, 0));
    assert_eq!(mounted.open(999, 7), (0, 0));
}

#[test]
fn clip_of_a_read() {
    let data = content(10);
    assert_eq!(clipped(&data, 0, 4), vec![0, 1, 2, 3]);
    assert_eq!(clipped(&data, 8, 4), vec![8, 9]);
    assert_eq!(clipped(&data, 10, 4), Vec::<u8>::new());
    assert_eq!(clipped(&data, 11, 4), Vec::<u8>::new());
    assert_eq!(clipped(&data, -1, 4), Vec::<u8>::new());
    assert_eq!(clipped(&data, 3, 0), Vec::<u8>::new());
    assert_eq!(clipped(&data, 0, u32::MAX), data);
    assert_eq!(clipped(&[], 0, 4), Vec::<u8>::new());
    assert_eq!(clipped(&data, i64::MAX, u32::MAX), Vec::<u8>::new());
}

#[test]
fn read_needs_content_on_first_access_only() {
    let mut mounted = mounted_with(1 << 20);
    assert_eq!(mounted.read_plan(3), ReadPlan::Load { entry_num: 0, capacity: 10 });
    assert_eq!(mounted.read_plan(5), ReadPlan::Load { entry_num: 2, capacity: 8192 });
    assert_eq!(mounted.read_plan(0), ReadPlan::NotFound);
    assert_eq!(mounted.read_plan(77), ReadPlan::NotFound);

    assert_eq!(mounted.read(3, 0, 4, None), Err(FsError::NotFound));
    assert_eq!(mounted.read_plan(3), ReadPlan::Load { entry_num: 0, capacity: 10 });

    assert_eq!(mounted.read(3, 2, 4, Some(content(10))), Ok(vec![2, 3, 4, 5]));
    assert_eq!(mounted.read_plan(3), ReadPlan::Cached);
    assert_eq!(mounted.read(3, 8, 100, None), Ok(vec![8, 9]));
    // What is loaded for a cached node is not looked at.
    assert_eq!(mounted.read(3, 0, 2, Some(vec![9, 9, 9])), Ok(vec![0, 1]));
    assert_eq!(mounted.read(77, 0, 2, Some(vec![9, 9, 9])), Err(FsError::NotFound));
}

#[test]
fn consecutive_reads_join() {
    let mut mounted = mounted_with(1 << 20);
    let data = content(8192);
    for (n, m) in [(0u32, 0u32), (0, 10), (100, 200), (4096, 4096), (8000, 500), (9000, 10)] {
        let mut first = mounted.read(5, 0, n, Some(data.clone())).unwrap();
        let second = mounted.read(5, n as i64, m, None).unwrap();
        first.extend(second);
        assert_eq!(first, mounted.read(5, 0, n + m, None).unwrap());
    }
}

#[test]
fn release_keeps_content_while_memory_is_plentiful() {
    let mut mounted = mounted_with(1 << 20);
    mounted.read(5, 0, 1, Some(content(8192))).unwrap();
    assert_eq!(mounted.release(5, at(101, 0), None), Ok(()));
    assert_eq!(mounted.read_plan(5), ReadPlan::Cached);
    // Even an absent inode is released without complaint.
    assert_eq!(mounted.release(999, at(101, 0), None), Ok(()));
}

#[test]
fn release_evicts_under_memory_pressure() {
    // 8192 bytes are 8 KB; with 14 KB available the threshold is 7 KB.
    let mut mounted = mounted_with(14);
    assert_eq!(mounted.used_bytes(), 0);
    mounted.read(5, 0, 1, Some(content(8192))).unwrap();
    assert_eq!(mounted.used_bytes(), 8192);
    mounted.read(3, 0, 1, Some(content(10))).unwrap();
    assert_eq!(mounted.used_bytes(), 8202);
    // A second read of a cached file charges nothing.
    mounted.read(3, 0, 1, None).unwrap();
    assert_eq!(mounted.used_bytes(), 8202);
    assert_eq!(mounted.release(3, at(101, 0), None), Ok(()));
    assert_eq!(mounted.used_bytes(), 8192);
    assert_eq!(mounted.read_plan(3), ReadPlan::Load { entry_num: 0, capacity: 10 });
    assert_eq!(mounted.read_plan(5), ReadPlan::Cached);
    // A file that is not cached is released without a change.
    assert_eq!(mounted.release(3, at(101, 0), None), Ok(()));
    assert_eq!(mounted.used_bytes(), 8192);
    // 8192 bytes are still charged: the next release evicts too.
    assert_eq!(mounted.release(5, at(101, 0), None), Ok(()));
    assert_eq!(mounted.used_bytes(), 0);
    assert_eq!(mounted.read_plan(5), ReadPlan::Load { entry_num: 2, capacity: 8192 });
    // Nothing is charged any more, so nothing more is evicted.
    mounted.read(3, 0, 1, Some(content(10))).unwrap();
    assert_eq!(mounted.release(3, at(101, 0), None), Ok(()));
    assert_eq!(mounted.read_plan(3), ReadPlan::Cached);
}

#[test]
fn release_at_the_threshold_keeps_content() {
    // 8 KB in use and 16 KB available: 8 is not more than 8.
    let mut mounted = mounted_with(16);
    mounted.read(5, 0, 1, Some(content(8192))).unwrap();
    assert_eq!(mounted.release(5, at(101, 0), None), Ok(()));
    assert_eq!(mounted.read_plan(5), ReadPlan::Cached);
}

#[test]
fn release_of_an_absent_inode_under_pressure_fails() {
    let mut mounted = mounted_with(14);
    mounted.read(5, 0, 1, Some(content(8192))).unwrap();
    assert_eq!(mounted.release(0, at(101, 0), None), Err(FsError::NotFound));
    assert_eq!(mounted.release(99, at(101, 0), None), Err(FsError::NotFound));
    assert_eq!(mounted.read_plan(5), ReadPlan::Cached);
}

#[test]
fn release_uses_a_new_reading_once_the_old_one_is_stale() {
    let mut mounted = mounted_with(1 << 20);
    mounted.read(5, 0, 1, Some(content(8192))).unwrap();
    // Within five seconds the old reading counts, whatever the platform says now.
    assert_eq!(mounted.release(5, at(104, 999_999_999), Some(14)), Ok(()));
    assert_eq!(mounted.read_plan(5), ReadPlan::Cached);
    // After five seconds the new reading counts.
    assert_eq!(mounted.release(5, at(105, 0), Some(14)), Ok(()));
    assert_eq!(mounted.read_plan(5), ReadPlan::Load { entry_num: 2, capacity: 8192 });
}

#[test]
fn available_memory_is_resampled_after_five_seconds() {
    let mut memory = AvailableMemory::with_avail_kb(500, at(100, 500));
    assert!(memory.is_fresh(at(100, 500)));
    assert!(memory.is_fresh(at(105, 499)));
    assert!(!memory.is_fresh(at(105, 500)));
    assert!(!memory.is_fresh(at(100, 499)));
    assert!(!memory.is_fresh(at(99, 0)));

    assert_eq!(memory.cur_available_kb(at(103, 0), Some(7)), 500);
    assert_eq!(memory, AvailableMemory { current_kb: 500, last_check: at(100, 500) });
    assert_eq!(memory.cur_available_kb(at(106, 0), None), 500);
    assert_eq!(memory.last_check, at(100, 500));
    assert_eq!(memory.cur_available_kb(at(106, 0), Some(7)), 7);
    assert_eq!(memory, AvailableMemory { current_kb: 7, last_check: at(106, 0) });
    // A clock that went backwards makes the reading stale.
    assert_eq!(memory.cur_available_kb(at(50, 0), Some(9)), 9);
    assert_eq!(memory.last_check, at(50, 0));
}

#[test]
fn dates_as_seconds_since_the_epoch() {
    let date = |year, month, day, hour, minute| Date { year, month, day, hour, minute };
    assert_eq!(date(1970, 1, 1, 0, 0).epoch_seconds(), Some(0));
    assert_eq!(date(1970, 1, 1, 0, 1).epoch_seconds(), Some(60));
    assert_eq!(date(1970, 1, 2, 0, 0).epoch_seconds(), Some(86_400));
    assert_eq!(date(1970, 2, 1, 0, 0).epoch_seconds(), Some(31 * 86_400));
    assert_eq!(date(1971, 1, 1, 0, 0).epoch_seconds(), Some(365 * 86_400));
    assert_eq!(date(1980, 1, 1, 0, 0).epoch_seconds(), Some(315_532_800));
    assert_eq!(date(2000, 2, 29, 12, 30).epoch_seconds(), Some(951_827_400));
    assert_eq!(date(2000, 3, 1, 0, 0).epoch_seconds(), Some(951_868_800));
    assert_eq!(date(2021, 3, 9, 7, 5).epoch_seconds(), Some(1_615_273_500));
    assert_eq!(date(2100, 3, 1, 0, 0).epoch_seconds(), Some(4_107_542_400));
    assert_eq!(date(2107, 12, 31, 23, 59).epoch_seconds(), Some(4_354_819_140));
    // What is no minute of a day of the calendar has no seconds.
    assert_eq!(date(1969, 12, 31, 23, 59).epoch_seconds(), None);
    assert_eq!(date(2001, 2, 29, 0, 0).epoch_seconds(), None);
    assert_eq!(date(2100, 2, 29, 0, 0).epoch_seconds(), None);
    assert_eq!(date(2000, 0, 1, 0, 0).epoch_seconds(), None);
    assert_eq!(date(2000, 13, 1, 0, 0).epoch_seconds(), None);
    assert_eq!(date(2000, 4, 31, 0, 0).epoch_seconds(), None);
    assert_eq!(date(2000, 1, 0, 0, 0).epoch_seconds(), None);
    assert_eq!(date(2000, 1, 1, 24, 0).epoch_seconds(), None);
    assert_eq!(date(2000, 1, 1, 0, 60).epoch_seconds(), None);
    assert!(date(65535, 12, 31, 23, 59).epoch_seconds().is_some());
}

#[test]
fn timestamps_in_nanoseconds() {
    assert_eq!(at(0, 0).nanos_since_epoch(), 0);
    assert_eq!(at(2, 5).nanos_since_epoch(), 2_000_000_005);
    assert_eq!(
        at(u64::MAX, 999_999_999).nanos_since_epoch(),
        u64::MAX as u128 * 1_000_000_000 + 999_999_999
    );
}

#[test]
fn readdir_says_where_a_listing_goes_on() {
    let mounted = mounted_with(1 << 20);
    for offset in 0..3i64 {
        for (j, line) in mounted.readdir(2, offset).unwrap().iter().enumerate() {
            assert_eq!(line.next_offset, offset as u64 + j as u64 + 1);
        }
    }
}

#[test]
fn readdir_lists_children_in_indexing_order() {
    let mounted = mounted_with(1 << 20);
    let lines: Vec<DirEntry> = mounted.readdir(2, 0).unwrap();
    let plain: Vec<(u64, u64, FileKind, &str)> =
        lines.iter().map(|l| (l.ino, l.next_offset, l.kind, l.name.as_str())).collect();
    assert_eq!(
        plain,
        vec![(3, 1, FileKind::RegularFile, "b.txt"), (4, 2, FileKind::Directory, "c")]
    );
    let root: Vec<(u64, u64)> =
        mounted.readdir(1, 0).unwrap().iter().map(|l| (l.ino, l.next_offset)).collect();
    assert_eq!(root, vec![(2, 1), (5, 2)]);
}

#[test]
fn readdir_goes_on_from_an_offset() {
    let mounted = mounted_with(1 << 20);
    let lines = mounted.readdir(2, 1).unwrap();
    assert_eq!(lines.len(), 1);
    assert_eq!(lines[0].name, "c");
    assert_eq!(lines[0].next_offset, 2);
    assert!(mounted.readdir(2, 2).unwrap().is_empty());
    assert!(mounted.readdir(2, 100).unwrap().is_empty());
    assert!(mounted.readdir(2, -1).unwrap().is_empty());
    assert!(mounted.readdir(3, 0).unwrap().is_empty());
}

#[test]
fn readdir_of_an_absent_inode() {
    let mounted = mounted_with(1 << 20);
    assert!(matches!(mounted.readdir(0, 0), Err(FsError::NotFound)));
    assert!(matches!(mounted.readdir(42, 0), Err(FsError::NotFound)));
}

#[test]
fn statfs_counts_blocks_and_nodes() {
    let mounted = mounted_with(1 << 20);
    assert_eq!(
        mounted.statfs(),
        StatFs {
            blocks: 2u128,
            bfree: 0,
            bavail: 0,
            files: 5,
            ffree: 0,
            bsize: 4096,
            namelen: 255,
            frsize: 0,
        }
    );
}

const MEMINFO: &str = "MemTotal:       16303428 kB\nMemFree:         1750964 kB\nMemAvailable:    9871512 kB\nBuffers:          611352 kB\nHugePages_Total:       0\n";

#[test]
fn meminfo_field_is_found_by_its_label() {
    assert_eq!(read_meminfo_field(MEMINFO.as_bytes(), "MemAvailable"), Some(9871512));
    assert_eq!(read_meminfo_field(MEMINFO.as_bytes(), "MemTotal"), Some(16303428));
    assert_eq!(read_meminfo_field(MEMINFO.as_bytes(), "Buffers"), Some(611352));
    assert_eq!(read_meminfo_field(MEMINFO.as_bytes(), "Mem"), None);
    assert_eq!(read_meminfo_field(MEMINFO.as_bytes(), "memavailable"), None);
    assert_eq!(read_meminfo_field(MEMINFO.as_bytes(), "Swap"), None);
    assert_eq!(read_meminfo_field(b"", "MemAvailable"), None);
}

#[test]
fn meminfo_value_is_the_last_but_one_token() {
    // Without a unit the number is the last token, and the one before it is empty.
    assert_eq!(read_meminfo_field(MEMINFO.as_bytes(), "HugePages_Total"), None);
    assert_eq!(read_meminfo_field(b"A: 5 kB", "A"), Some(5));
    assert_eq!(read_meminfo_field(b"A: 5 kB\r\n", "A"), Some(5));
    assert_eq!(read_meminfo_field(b"A: 5 kB\r", "A"), Some(5));
    assert_eq!(read_meminfo_field(b"A: 5\r\n", "A"), None);
    assert_eq!(read_meminfo_field(b"A:5 kB", "A"), None);
    assert_eq!(read_meminfo_field(b"A 12 x", "A 12 x"), Some(12));
    assert_eq!(read_meminfo_field(b"A: +7 kB", "A"), Some(7));
    assert_eq!(read_meminfo_field(b"A: -7 kB", "A"), None);
    assert_eq!(read_meminfo_field(b"A: 7  kB", "A"), None);
    assert_eq!(read_meminfo_field(b"A", "A"), None);
}

#[test]
fn meminfo_first_matching_line_decides() {
    assert_eq!(read_meminfo_field(b"A: x kB\nA: 5 kB\n", "A"), None);
    assert_eq!(read_meminfo_field(b"B: 1 kB\nA: 5 kB\nA: 6 kB", "A"), Some(5));
    assert_eq!(read_meminfo_field(b"\n\nA: 5 kB", "A"), Some(5));
}

#[test]
fn numbers_are_parsed_like_unsigned_integers() {
    assert_eq!(parse_number(b"0"), Some(0));
    assert_eq!(parse_number(b"007"), Some(7));
    assert_eq!(parse_number(b"+15"), Some(15));
    assert_eq!(parse_number(b"18446744073709551615"), Some(u64::MAX));
    assert_eq!(parse_number(b"18446744073709551616"), None);
    assert_eq!(parse_number(b"99999999999999999999999"), None);
    assert_eq!(parse_number(b""), None);
    assert_eq!(parse_number(b"+"), None);
    assert_eq!(parse_number(b"++1"), None);
    assert_eq!(parse_number(b"-1"), None);
    assert_eq!(parse_number(b"12a"), None);
    assert_eq!(parse_number(b" 12"), None);
    for text in ["0", "1", "+1", "42", "18446744073709551615", "18446744073709551616", "", "+", "1+"] {
        assert_eq!(parse_number(text.as_bytes()), text.parse::<u64>().ok());
    }
}

#[test]
fn byte_search_helpers() {
    assert_eq!(find_first(b"a:b:c", b':'), 1);
    assert_eq!(find_first(b"abc", b':'), 3);
    assert_eq!(find_first(b"", b':'), 0);
    assert_eq!(find_last(b"a b c", 5, b' '), Some(3));
    assert_eq!(find_last(b"a b c", 3, b' '), Some(1));
    assert_eq!(find_last(b"a b c", 1, b' '), None);
    assert!(same_bytes(b"abc", b"abc"));
    assert!(!same_bytes(b"abc", b"abd"));
    assert!(!same_bytes(b"abc", b"ab"));
    assert_eq!(line_value(b"MemFree:   17 kB"), Some(17));
    assert_eq!(line_value(b"nospace"), None);
}

#[test]
fn available_memory_from_the_report() {
    assert_eq!(
        AvailableMemory::read(MEMINFO.as_bytes(), at(5, 6)),
        Some(AvailableMemory { current_kb: 9871512, last_check: at(5, 6) })
    );
    assert_eq!(AvailableMemory::read(b"MemTotal: 5 kB\n", at(5, 6)), None);
}
