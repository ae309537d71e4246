use archive_tree::archive::extract::{ExtractAction, ExtractStep, Extractor};
use archive_tree::archive::selection::Selection;
use archive_tree::archive::{Archive, ArchiveEntry, Date, EntryProperties, FileProperties, NodeID, StoredEntry};
use std::sync::Arc;

fn entry(name: &str, size: u64) -> Option<StoredEntry> {
    Some(StoredEntry {
        name_raw: name.as_bytes().to_vec(),
        size,
        compressed_size: size,
        last_modified: Date { year: 2000, month: 1, day: 1, hour: 0, minute: 0 },
    })
}

/// Nodes: 0 root, 1 a, 2 a/b.txt, 3 a/c, 4 a/c/d, 5 e.
fn archive() -> Arc<Archive> {
    let records = vec![entry("a/b.txt", 10), entry("a/c/d", 3), entry("e", 1)];
    Arc::new(Archive::read(&records).unwrap())
}

fn plain(steps: &[ExtractStep]) -> Vec<(usize, String, ExtractAction)> {
    steps.iter().map(|s| (s.node.index(), s.path.join("/"), s.action)).collect()
}

#[test]
fn selection_holds_nodes_in_order() {
    let mut selection = Selection::new();
    assert!(selection.as_slice().is_empty());
    selection.push(NodeID(3));
    selection.push(NodeID(1));
    assert_eq!(selection.as_slice(), &[NodeID(3), NodeID(1)]);
    assert!(selection.contains(NodeID(1)));
    assert!(!selection.contains(NodeID(0)));
    let copy = Selection::from_slice(&[NodeID(5), NodeID(6), NodeID(7), NodeID(8), NodeID(9)]);
    assert_eq!(copy.as_slice().len(), 5);
    assert_eq!(copy.as_slice()[4], NodeID(9));
}

fn archive_of(names: &[&str]) -> Arc<Archive> {
    let records: Vec<_> = names.iter().map(|name| entry(name, 1)).collect();
    Arc::new(Archive::read(&records).unwrap())
}

#[test]
fn prepare_from_the_root_expects_every_entry() {
    // Three records, five nodes below the root.
    let extractor = Extractor::prepare(archive(), Selection::from_slice(&[NodeID::first()]));
    assert_eq!(extractor.total_to_extract(), 3);
    let extractor = Extractor::prepare(archive(), Selection::from_slice(&[NodeID(3), NodeID(0)]));
    assert_eq!(extractor.total_to_extract(), 3);
    // A container without records expects nothing.
    let empty = archive_of(&[]);
    let extractor = Extractor::prepare(empty, Selection::from_slice(&[NodeID::first()]));
    assert_eq!(extractor.total_to_extract(), 0);
    assert!(extractor.extract().is_empty());
}

#[test]
fn prepare_from_a_directory_expects_its_descendants() {
    // Nodes: 0 root, 1 d, 2 d/x, 3 d/y, 4 d/e, 5 d/e/z, 6 f.
    let archive = archive_of(&["d/", "d/x", "d/y", "d/e/", "d/e/z", "f"]);
    let total = |bases: &[NodeID]| {
        Extractor::prepare(Arc::clone(&archive), Selection::from_slice(bases)).total_to_extract()
    };
    assert_eq!(total(&[NodeID(1)]), 5);
    assert_eq!(total(&[NodeID(4)]), 2);
    assert_eq!(total(&[NodeID(6)]), 1);
    assert_eq!(total(&[NodeID(4), NodeID(6)]), 3);
    assert_eq!(total(&[]), 0);
    assert_eq!(total(&[NodeID(0)]), 6);
}

#[test]
fn prepare_never_expects_more_than_the_container_has_entries() {
    // One record, two nodes below the root: the directory has no record.
    let archive = archive_of(&["d/x"]);
    let extractor = Extractor::prepare(Arc::clone(&archive), Selection::from_slice(&[NodeID(1)]));
    assert_eq!(extractor.total_to_extract(), 1);
    assert_eq!(extractor.extract().len(), 2);
    // Bases that repeat and lie in each other are walked as often.
    let bases = [NodeID(1), NodeID(1), NodeID(3)];
    let extractor = Extractor::prepare(self::archive(), Selection::from_slice(&bases));
    assert_eq!(extractor.total_to_extract(), 3);
    assert_eq!(extractor.extract().len(), 10);
}

#[test]
fn extraction_of_the_root_reaches_its_total_where_every_node_has_a_record() {
    let archive = archive_of(&["d/", "d/x", "d/e/", "d/e/z", "f"]);
    let extractor = Extractor::prepare(archive, Selection::from_slice(&[NodeID::first()]));
    assert_eq!(extractor.extract().len() as u32, extractor.total_to_extract());
    // Where a directory has no record the steps are more than the entries.
    let extractor = Extractor::prepare(self::archive(), Selection::from_slice(&[NodeID::first()]));
    assert_eq!(extractor.extract().len(), 5);
    assert_eq!(extractor.total_to_extract(), 3);
}

#[test]
fn extraction_steps_follow_the_walk_without_the_root() {
    let extractor = Extractor::prepare(archive(), Selection::from_slice(&[NodeID::first()]));
    assert_eq!(
        plain(&extractor.extract()),
        vec![
            (5, "e".to_string(), ExtractAction::WriteFile { entry_num: 2 }),
            (1, "a".to_string(), ExtractAction::CreateDirectory),
            (3, "a/c".to_string(), ExtractAction::CreateDirectory),
            (4, "a/c/d".to_string(), ExtractAction::WriteFile { entry_num: 1 }),
            (2, "a/b.txt".to_string(), ExtractAction::WriteFile { entry_num: 0 }),
        ]
    );
}

#[test]
fn extraction_steps_are_relative_to_the_base() {
    let extractor = Extractor::prepare(archive(), Selection::from_slice(&[NodeID(3)]));
    let steps = extractor.extract();
    assert_eq!(
        plain(&steps),
        vec![
            (3, "c".to_string(), ExtractAction::CreateDirectory),
            (4, "c/d".to_string(), ExtractAction::WriteFile { entry_num: 1 }),
        ]
    );
    assert_eq!(steps.len() as u32, extractor.total_to_extract());
}

#[test]
fn directories_come_before_what_is_below_them() {
    let extractor = Extractor::prepare(archive(), Selection::from_slice(&[NodeID(1), NodeID(5)]));
    let steps = plain(&extractor.extract());
    assert_eq!(steps.len(), 5);
    assert_eq!(extractor.total_to_extract(), 3);
    for (i, (_, path, _)) in steps.iter().enumerate() {
        if let Some((parent, _)) = path.rsplit_once('/') {
            let above = steps.iter().position(|(_, p, _)| p == parent).unwrap();
            assert!(above < i);
        }
    }
}

#[test]
fn action_for_a_node() {
    let dir = ArchiveEntry::new_directory("d".to_string(), 4, None, encoding_rs::UTF_8);
    assert_eq!(Extractor::extract_file(&dir), ExtractAction::CreateDirectory);
    let props = EntryProperties::File(FileProperties { raw_size_bytes: 1, compressed_size_bytes: 1 });
    let file = ArchiveEntry::new("f".to_string(), 9, props, None, encoding_rs::UTF_8);
    assert_eq!(Extractor::extract_file(&file), ExtractAction::WriteFile { entry_num: 9 });
}
