use archive_tree::archive::path::split_path;
use archive_tree::archive::text::decode_filename;
use archive_tree::archive::walk::is_valid_filename;
use archive_tree::archive::{
    Archive, ArchiveEntries, ArchiveEntry, ArchiveError, Date, EntryProperties, FileProperties,
    NodeID, StoredEntry,
};

fn date() -> Date {
    Date { year: 2021, month: 2, day: 3, hour: 4, minute: 5 }
}

fn record(name: &[u8], size: u64, compressed_size: u64) -> Option<StoredEntry> {
    Some(StoredEntry { name_raw: name.to_vec(), size, compressed_size, last_modified: date() })
}

fn walk_all(entries: &ArchiveEntries, bases: &[NodeID]) -> Vec<(NodeID, String)> {
    let mut iter = entries.children_iter(bases);
    let mut visits = Vec::new();
    while let Some((id, _, path)) = iter.next() {
        visits.push((id, path.join("/")));
    }
    visits
}

fn names(parts: Vec<archive_tree::archive::path::Component>) -> Vec<(String, bool)> {
    parts.into_iter().map(|part| (part.name, part.terminal)).collect()
}

#[test]
fn first_node_is_the_root() {
    assert_eq!(NodeID::first().index(), 0);
    assert_eq!(NodeID::first(), NodeID(0));
}

#[test]
fn directory_and_file_kinds() {
    assert!(EntryProperties::Directory.is_dir());
    let file = EntryProperties::File(FileProperties { raw_size_bytes: 1, compressed_size_bytes: 1 });
    assert!(!file.is_dir());
}

#[test]
fn split_plain_path() {
    assert_eq!(
        names(split_path("a/b.txt")),
        vec![("a".to_string(), false), ("b.txt".to_string(), true)]
    );
}

#[test]
fn split_path_with_trailing_separator() {
    assert_eq!(names(split_path("a/c/")), vec![("a".to_string(), false), ("c".to_string(), false)]);
}

#[test]
fn split_path_edge_cases() {
    assert_eq!(names(split_path("")), vec![]);
    assert_eq!(names(split_path("/")), vec![("".to_string(), false)]);
    assert_eq!(names(split_path("a")), vec![("a".to_string(), true)]);
    assert_eq!(
        names(split_path("a//b")),
        vec![("a".to_string(), false), ("".to_string(), false), ("b".to_string(), true)]
    );
    assert_eq!(names(split_path("/a")), vec![("".to_string(), false), ("a".to_string(), true)]);
    assert_eq!(
        names(split_path("a/b/a")),
        vec![("a".to_string(), false), ("b".to_string(), false), ("a".to_string(), true)]
    );
}

#[test]
fn split_path_counts_characters_not_bytes() {
    assert_eq!(
        names(split_path("é/ü.txt")),
        vec![("é".to_string(), false), ("ü.txt".to_string(), true)]
    );
}

#[test]
fn valid_filenames() {
    assert!(!is_valid_filename(".."));
    assert!(!is_valid_filename("."));
    assert!(!is_valid_filename("/"));
    assert!(is_valid_filename(""));
    assert!(is_valid_filename("a"));
    assert!(is_valid_filename("..."));
    assert!(is_valid_filename("./"));
    assert!(is_valid_filename("ab"));
}

#[test]
fn decode_ascii_name_as_utf8() {
    let (name, encoding) = decode_filename(b"a/b.txt");
    assert_eq!(name, "a/b.txt");
    assert_eq!(encoding, encoding_rs::UTF_8);
}

#[test]
fn decode_utf8_name() {
    let (name, encoding) = decode_filename("dossier/été.txt".as_bytes());
    assert_eq!(name, "dossier/été.txt");
    assert_eq!(encoding, encoding_rs::UTF_8);
}

#[test]
fn decode_legacy_name_is_not_handed_back_unchanged() {
    // "été" in windows-1252: not valid UTF-8, so the bytes cannot come back as they are.
    let raw = [0xE9u8, 0x74, 0xE9];
    let (name, encoding) = decode_filename(&raw);
    assert_ne!(encoding, encoding_rs::UTF_8);
    assert_eq!(name.chars().count(), 3);
    assert!(!name.contains('\u{FFFD}'));
    assert_ne!(name.as_bytes(), &raw[..]);
}

#[test]
fn decode_follows_the_detector_and_the_decoder() {
    let text = "これは日本語で書かれたファイルの名前です";
    let (raw, _, _) = encoding_rs::SHIFT_JIS.encode(text);
    let mut detector = chardetng::EncodingDetector::new();
    detector.feed(&raw, true);
    let guess = detector.guess(None, true);
    let (expected, used, _) = guess.decode(&raw);

    let (name, encoding) = decode_filename(&raw);
    assert_eq!(name, expected);
    assert_eq!(encoding, used);
    assert_eq!(encoding, encoding_rs::SHIFT_JIS);
    assert_eq!(name, text);
}

#[test]
fn decode_honours_a_byte_order_mark() {
    // A UTF-16LE byte order mark followed by "a".
    let raw = [0xFFu8, 0xFE, 0x61, 0x00];
    let (name, encoding) = decode_filename(&raw);
    assert_eq!(encoding, encoding_rs::UTF_16LE);
    assert_eq!(name, "a");
}

#[test]
fn root_entry() {
    let root = ArchiveEntry::root();
    assert_eq!(root.name, "/");
    assert!(root.props.is_dir());
    assert_eq!(root.last_modified, None);
    assert_eq!(root.encoding, encoding_rs::UTF_8);
    assert_eq!(root.entry_num, 0);
    assert_eq!(root.parent, None);
    assert!(root.children.is_empty());
}

#[test]
fn new_directory_entry() {
    let entry = ArchiveEntry::new_directory("d".to_string(), 7, Some(date()), encoding_rs::UTF_8);
    assert_eq!(entry.name, "d");
    assert_eq!(entry.entry_num, 7);
    assert!(entry.props.is_dir());
    assert_eq!(entry.last_modified, Some(date()));
    assert_eq!(entry.parent, None);
    assert!(entry.children.is_empty());
}

#[test]
fn empty_container_has_only_the_root() {
    let entries = ArchiveEntries::read(&vec![]).unwrap();
    assert_eq!(entries.len(), 1);
    assert_eq!(entries.get(NodeID::first()).name, "/");
    assert_eq!(walk_all(&entries, &[NodeID::first()]), vec![(NodeID(0), "".to_string())]);
}

#[test]
fn example_container() {
    let records = vec![record(b"a/b.txt", 10, 8), record(b"a/c/", 0, 0)];
    let entries = ArchiveEntries::read(&records).unwrap();
    assert_eq!(entries.len(), 4);

    let root = entries.get(NodeID::first());
    assert_eq!(root.children, vec![NodeID(1)]);
    assert_eq!(root.parent, None);

    let a = entries.get(NodeID(1));
    assert_eq!(a.name, "a");
    assert!(a.props.is_dir());
    assert_eq!(a.parent, Some(NodeID(0)));
    assert_eq!(a.children, vec![NodeID(2), NodeID(3)]);
    assert_eq!(a.last_modified, Some(date()));
    assert_eq!(a.entry_num, 0);

    let b = entries.get(NodeID(2));
    assert_eq!(b.name, "b.txt");
    assert_eq!(
        b.props,
        EntryProperties::File(FileProperties { raw_size_bytes: 10, compressed_size_bytes: 8 })
    );
    assert_eq!(b.parent, Some(NodeID(1)));
    assert!(b.children.is_empty());
    assert_eq!(b.encoding, encoding_rs::UTF_8);

    let c = entries.get(NodeID(3));
    assert_eq!(c.name, "c");
    assert!(c.props.is_dir());
    assert!(c.children.is_empty());
    assert_eq!(c.entry_num, 1);

    let visits = walk_all(&entries, &[NodeID::first()]);
    let non_root: Vec<_> = visits.iter().filter(|(id, _)| *id != NodeID::first()).collect();
    assert_eq!(non_root.len(), 3);
    let position = |path: &str| visits.iter().position(|(_, p)| p == path).unwrap();
    let paths: Vec<&str> = non_root.iter().map(|(_, p)| p.as_str()).collect();
    assert!(paths.contains(&"a") && paths.contains(&"a/b.txt") && paths.contains(&"a/c"));
    assert!(position("a") < position("a/b.txt"));
    assert!(position("a") < position("a/c"));
}

#[test]
fn walk_is_depth_first_last_child_first() {
    let records = vec![record(b"a/b.txt", 10, 8), record(b"a/c/d", 1, 1), record(b"e", 2, 2)];
    let entries = ArchiveEntries::read(&records).unwrap();
    assert_eq!(
        walk_all(&entries, &[NodeID::first()]),
        vec![
            (NodeID(0), "".to_string()),
            (NodeID(5), "e".to_string()),
            (NodeID(1), "a".to_string()),
            (NodeID(3), "a/c".to_string()),
            (NodeID(4), "a/c/d".to_string()),
            (NodeID(2), "a/b.txt".to_string()),
        ]
    );
}

#[test]
fn walk_from_a_directory_is_relative_to_it() {
    let records = vec![record(b"a/b.txt", 10, 8), record(b"a/c/d", 1, 1)];
    let entries = ArchiveEntries::read(&records).unwrap();
    assert_eq!(
        walk_all(&entries, &[NodeID(3)]),
        vec![(NodeID(3), "c".to_string()), (NodeID(4), "c/d".to_string())]
    );
}

#[test]
fn walk_from_several_bases_starts_with_the_last() {
    let records = vec![record(b"a", 1, 1), record(b"b", 1, 1)];
    let entries = ArchiveEntries::read(&records).unwrap();
    assert_eq!(
        walk_all(&entries, &[NodeID(1), NodeID(2)]),
        vec![(NodeID(2), "b".to_string()), (NodeID(1), "a".to_string())]
    );
    assert_eq!(walk_all(&entries, &[]), vec![]);
}

#[test]
fn walk_leaves_pseudo_components_out_of_the_path() {
    let records = vec![record(b"a/./b", 1, 1), record(b"../c", 1, 1)];
    let entries = ArchiveEntries::read(&records).unwrap();
    let visits = walk_all(&entries, &[NodeID::first()]);
    assert_eq!(visits.len(), 6);
    let path_of = |id: usize| visits.iter().find(|(n, _)| *n == NodeID(id)).unwrap().1.clone();
    assert_eq!(entries.get(NodeID(2)).name, ".");
    assert_eq!(path_of(2), "a");
    assert_eq!(path_of(3), "a/b");
    assert_eq!(entries.get(NodeID(4)).name, "..");
    assert_eq!(path_of(4), "");
    assert_eq!(path_of(5), "c");
}

#[test]
fn later_records_reuse_existing_nodes() {
    let records = vec![record(b"a/b/c.txt", 5, 5), record(b"a/b/", 0, 0), record(b"a/b", 9, 9)];
    let entries = ArchiveEntries::read(&records).unwrap();
    assert_eq!(entries.len(), 4);
    let b = entries.get(NodeID(2));
    assert_eq!(b.name, "b");
    assert!(b.props.is_dir());
    assert_eq!(b.entry_num, 0);
}

#[test]
fn file_reached_again_as_directory_stays_a_file() {
    let records = vec![record(b"a", 5, 5), record(b"a/b", 1, 1)];
    let entries = ArchiveEntries::read(&records).unwrap();
    assert_eq!(entries.len(), 3);
    assert!(!entries.get(NodeID(1)).props.is_dir());
    assert_eq!(entries.get(NodeID(1)).children, vec![NodeID(2)]);
}

#[test]
fn only_the_last_component_of_a_path_is_a_file() {
    let records = vec![record(b"a/b/a", 3, 2)];
    let entries = ArchiveEntries::read(&records).unwrap();
    assert!(entries.get(NodeID(1)).props.is_dir());
    assert!(entries.get(NodeID(2)).props.is_dir());
    assert!(!entries.get(NodeID(3)).props.is_dir());
}

#[test]
fn unreadable_record_fails_with_its_index() {
    let records = vec![record(b"a", 1, 1), None, record(b"b", 1, 1), None];
    match ArchiveEntries::read(&records) {
        Err(error) => assert_eq!(error, ArchiveError::Parse { index: 1 }),
        Ok(_) => panic!("an unreadable record must fail the construction"),
    }
    match Archive::read(&records) {
        Err(error) => assert_eq!(error, ArchiveError::Parse { index: 1 }),
        Ok(_) => panic!("an unreadable record must fail the construction"),
    }
    match Archive::read(&vec![None]) {
        Err(error) => assert_eq!(error, ArchiveError::Parse { index: 0 }),
        Ok(_) => panic!("an unreadable record must fail the construction"),
    }
}

#[test]
fn archive_total_is_the_sum_of_raw_sizes() {
    let records = vec![record(b"a/b.txt", 10, 8), record(b"a/c/", 7, 0), record(b"d", 5000, 1)];
    let archive = Archive::read(&records).unwrap();
    assert_eq!(archive.total_size_bytes, 5010);
    assert_eq!(archive.files.len(), 5);
    assert_eq!(archive.get(NodeID(4)).name, "d");
}

#[test]
fn archive_total_may_exceed_64_bits() {
    let records = vec![record(b"a", u64::MAX, 1), record(b"b", 1, 1)];
    let archive = Archive::read(&records).unwrap();
    assert_eq!(archive.total_size_bytes, u64::MAX as u128 + 1);
    let records = vec![record(b"a", 1 << 63, 1), record(b"b", 1 << 63, 1)];
    let archive = Archive::read(&records).unwrap();
    assert_eq!(archive.total_size_bytes, 1u128 << 64);
    assert_eq!(archive.entry_count, 2);
}

#[test]
fn archive_counts_the_records_of_the_container() {
    assert_eq!(Archive::read(&vec![]).unwrap().entry_count, 0);
    // Three nodes below the root, of one record.
    let archive = Archive::read(&vec![record(b"a/b/c", 1, 1)]).unwrap();
    assert_eq!(archive.entry_count, 1);
    assert_eq!(archive.files.len(), 4);
    // One node below the root, of two records.
    let archive = Archive::read(&vec![record(b"a", 1, 1), record(b"a", 2, 2)]).unwrap();
    assert_eq!(archive.entry_count, 2);
    assert_eq!(archive.files.len(), 2);
    let entries = ArchiveEntries::read(&vec![record(b"x", 1, 1)]).unwrap();
    let archive = Archive::new(entries, 7);
    assert_eq!(archive.entry_count, 7);
    assert_eq!(archive.total_size_bytes, 1);
}

#[test]
fn create_node_id_is_bounded_by_the_arena() {
    let entries = ArchiveEntries::read(&vec![record(b"a", 1, 1)]).unwrap();
    assert_eq!(entries.create_node_id(0), Some(NodeID(0)));
    assert_eq!(entries.create_node_id(1), Some(NodeID(1)));
    assert_eq!(entries.create_node_id(2), None);
    assert_eq!(entries.create_node_id(u32::MAX), None);
}

#[test]
fn find_child_matches_names_exactly() {
    let entries = ArchiveEntries::read(&vec![record(b"a/b", 1, 1), record(b"a/B", 1, 1)]).unwrap();
    assert_eq!(entries.find_child(NodeID(0), &"a".to_string()), Some(NodeID(1)));
    assert_eq!(entries.find_child(NodeID(1), &"b".to_string()), Some(NodeID(2)));
    assert_eq!(entries.find_child(NodeID(1), &"B".to_string()), Some(NodeID(3)));
    assert_eq!(entries.find_child(NodeID(1), &"c".to_string()), None);
    assert_eq!(entries.find_child(NodeID(2), &"b".to_string()), None);
}

#[test]
fn insert_path_builds_the_same_tree_as_read() {
    let mut entries = ArchiveEntries::new();
    let file = FileProperties { raw_size_bytes: 10, compressed_size_bytes: 8 };
    entries.insert_path("a/b.txt", encoding_rs::UTF_8, 0, file, date());
    entries.insert_path("a/c/", encoding_rs::UTF_8, 1, file, date());
    assert_eq!(entries.len(), 4);
    assert_eq!(entries.get(NodeID(2)).props, EntryProperties::File(file));
    assert!(entries.get(NodeID(3)).props.is_dir());
    assert_eq!(entries.get(NodeID(3)).parent, Some(NodeID(1)));
}

#[test]
fn parents_come_before_children() {
    let records = vec![record(b"x/y/z", 1, 1), record(b"x/w", 1, 1), record(b"q", 1, 1)];
    let entries = ArchiveEntries::read(&records).unwrap();
    for i in 1..entries.len() {
        let mut cur = NodeID(i);
        let mut steps = 0;
        while let Some(parent) = entries.get(cur).parent {
            assert!(parent.index() < cur.index());
            assert!(entries.get(parent).children.contains(&cur));
            cur = parent;
            steps += 1;
            assert!(steps <= entries.len());
        }
        assert_eq!(cur, NodeID::first());
    }
}

#[test]
fn container_of_plain_files_has_one_file_leaf_for_each_record() {
    let records = vec![
        record(b"x/y/z", 1, 1),
        record(b"x/w", 1, 1),
        record(b"q", 1, 1),
        record(b"x/y/t", 0, 0),
    ];
    let entries = ArchiveEntries::read(&records).unwrap();
    let leaves = walk_all(&entries, &[NodeID::first()])
        .iter()
        .filter(|(id, _)| {
            let node = entries.get(*id);
            !node.props.is_dir() && node.children.is_empty()
        })
        .count();
    assert_eq!(leaves, records.len());
    // A record of a directory is no file, so the count falls short.
    let records = vec![record(b"a/c/", 0, 0)];
    let entries = ArchiveEntries::read(&records).unwrap();
    let files = walk_all(&entries, &[NodeID::first()])
        .iter()
        .filter(|(id, _)| !entries.get(*id).props.is_dir())
        .count();
    assert_eq!(files, 0);
}

#[test]
fn walk_from_root_visits_every_node_once() {
    let records = vec![
        record(b"x/y/z", 1, 1),
        record(b"x/w", 1, 1),
        record(b"q", 1, 1),
        record(b"x/y/", 0, 0),
    ];
    let entries = ArchiveEntries::read(&records).unwrap();
    let mut ids: Vec<usize> =
        walk_all(&entries, &[NodeID::first()]).iter().map(|(id, _)| id.index()).collect();
    ids.sort();
    assert_eq!(ids, (0..entries.len()).collect::<Vec<_>>());
}
