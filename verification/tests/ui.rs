use archive_tree::archive::{
    Archive, Date, EntryProperties, FileProperties, NodeID, StoredEntry,
};
use archive_tree::ui::directory::{
    scroll_window, DirectoryEntry, DirectoryResult, DirectoryViewer, EntrySize, WrappedSelection,
};
use archive_tree::ui::entry_stats::{CompressedSize, EntryStats, KeyHints, MountState, TotalSize};
use archive_tree::ui::event::{next, ErrorKind, EventKind, Incoming, TICK_DURATION_MS};
use archive_tree::ui::fragments::{render, total_len, Fragment, Placed};
use archive_tree::ui::graphemes::{byte_offset, char_index, text_of, utf8_width_of};
use archive_tree::ui::input::{Caret, InputResult, InputState, Rect};
use archive_tree::ui::layout::{
    apply_line_color, item_layout, row_area, simple_text_x, Color, ItemLayout, LineColors,
};
use archive_tree::ui::main_panel::{
    unmount_key, ErrorKind as PanelErrorKind, InputAction, KeyCodeDesc, MainPanel, PanelAction,
    PanelState, EXTRACT_TO_CWD_KEY, EXTRACT_TO_DIR_KEY, MOUNT_AT_DIR_KEY, MOUNT_AT_TMP_KEY,
};
use archive_tree::ui::order::{is_name_before, is_shown_before};
use archive_tree::ui::path_viewer::{PathViewer, PathViewerResult};
use archive_tree::ui::progress_bar::ProgressBar;
use archive_tree::ui::text::{
    alignment_offset, alpha_upper, date_text, decimal_text, digit_of, pad_rect_horiz,
    percent_text, selection_text, Alignment,
};
use archive_tree::ui::{next_cycle, process_key, CycleResult, InputLock, KeyCode};
use archive_tree::util::{formatted_unit, Unit};
use std::sync::Arc;

fn stored(name: &str, size: u64, compressed: u64) -> Option<StoredEntry> {
    Some(StoredEntry {
        name_raw: name.as_bytes().to_vec(),
        size,
        compressed_size: compressed,
        last_modified: Date { year: 2019, month: 7, day: 4, hour: 9, minute: 3 },
    })
}

/// Nodes: 0 root, 1 zeta.txt, 2 docs, 3 docs/b.txt, 4 docs/a, 5 docs/a/x, 6 alpha.txt, 7 Beta.
fn sample() -> Arc<Archive> {
    let records = vec![
        stored("zeta.txt", 100, 50),
        stored("docs/b.txt", 2048, 1024),
        stored("docs/a/x", 7, 7),
        stored("alpha.txt", 0, 0),
        stored("Beta/", 0, 0),
    ];
    Arc::new(Archive::read(&records).unwrap())
}

fn ids(viewer: &DirectoryViewer) -> Vec<usize> {
    (0..viewer.len()).map(|i| viewer.entry(i).id.index()).collect()
}

fn rect(x: u16, y: u16, width: u16, height: u16) -> Rect {
    Rect { x, y, width, height }
}

#[test]
fn wrapped_selection_wraps_at_both_ends() {
    let mut list = WrappedSelection::new(vec!['a', 'b', 'c']);
    assert_eq!(list.index(), 0);
    assert_eq!(*list.selected(), 'a');
    assert_eq!(*list.next(), 'b');
    assert_eq!(*list.next(), 'c');
    assert_eq!(list.index(), 2);
    assert_eq!(*list.next(), 'a');
    assert_eq!(list.index(), 0);
    assert_eq!(*list.prev(), 'c');
    assert_eq!(list.index(), 2);
    assert_eq!(*list.prev(), 'b');
    assert_eq!(list.len(), 3);
    assert_eq!(*list.get(0), 'a');
}

#[test]
fn wrapped_selection_of_one_item_stays() {
    let mut list = WrappedSelection::new(vec![7]);
    assert_eq!(*list.next(), 7);
    assert_eq!(*list.prev(), 7);
    assert_eq!(list.index(), 0);
}

#[test]
fn wrapped_selection_changes_the_selected_item_in_place() {
    let mut list = WrappedSelection::new(vec![1, 2, 3]);
    list.next();
    *list.selected_mut() = 20;
    assert_eq!(*list.selected(), 20);
    assert_eq!(list.index(), 1);
    assert_eq!((*list.get(0), *list.get(1), *list.get(2)), (1, 20, 3));
}

fn window_by_the_book(cursor: usize, num_items: usize, height: usize) -> (usize, usize) {
    let base_threshold = height / 2;
    if cursor < base_threshold || num_items <= height {
        return (0, num_items.min(height));
    }
    let offset = 1 + (cursor - base_threshold);
    let end = (offset + height).min(num_items);
    let start = if end == num_items { num_items.saturating_sub(height) } else { offset };
    (start, end)
}

#[test]
fn scroll_window_follows_the_cursor() {
    assert_eq!(scroll_window(0, 10, 4), (0, 4));
    assert_eq!(scroll_window(1, 10, 4), (0, 4));
    assert_eq!(scroll_window(2, 10, 4), (1, 5));
    assert_eq!(scroll_window(5, 10, 4), (4, 8));
    assert_eq!(scroll_window(7, 10, 4), (6, 10));
    assert_eq!(scroll_window(9, 10, 4), (6, 10));
    assert_eq!(scroll_window(3, 3, 10), (0, 3));
    assert_eq!(scroll_window(0, 0, 5), (0, 0));
    assert_eq!(scroll_window(0, 5, 0), (1, 1));
    for height in 0..8 {
        for num_items in 0..12 {
            for cursor in 0..14 {
                assert_eq!(
                    scroll_window(cursor, num_items, height),
                    window_by_the_book(cursor, num_items, height)
                );
            }
        }
    }
    assert_eq!(scroll_window(usize::MAX, 10, 1), (9, 10));
}

#[test]
fn progress_is_capped_at_one_hundred() {
    assert_eq!(ProgressBar::new(0).percent(), 0);
    assert_eq!(ProgressBar::new(42).percent(), 42);
    assert_eq!(ProgressBar::new(100).percent(), 100);
    assert_eq!(ProgressBar::new(101).percent(), 100);
    assert_eq!(ProgressBar::new(255).percent(), 100);
}

#[test]
fn names_are_ordered_like_strings() {
    let names = ["", "a", "A", "ab", "b", "B", "Beta", "alpha.txt", "zeta", "é", "z", "日本", "a\u{301}"];
    for a in names {
        for b in names {
            assert_eq!(is_name_before(a, b), a < b, "{:?} before {:?}", a, b);
        }
    }
}

#[test]
fn directories_are_shown_before_files() {
    let archive = sample();
    // docs (2) is a directory, alpha.txt (6) a file.
    assert!(is_shown_before(&archive.files, NodeID(2), NodeID(6)));
    assert!(!is_shown_before(&archive.files, NodeID(6), NodeID(2)));
    // Beta (7) and docs (2) are both directories.
    assert!(is_shown_before(&archive.files, NodeID(7), NodeID(2)));
    // alpha.txt (6) and zeta.txt (1) are both files.
    assert!(is_shown_before(&archive.files, NodeID(6), NodeID(1)));
    assert!(!is_shown_before(&archive.files, NodeID(1), NodeID(1)));
}

#[test]
fn directory_viewer_sorts_its_entries() {
    let viewer = DirectoryViewer::new(sample(), NodeID::first()).unwrap();
    assert_eq!(ids(&viewer), vec![7, 2, 6, 1]);
    assert_eq!(viewer.directory(), NodeID(0));
    assert_eq!(viewer.highlighted_index(), 0);
    assert_eq!(
        *viewer.highlighted(),
        DirectoryEntry { id: NodeID(7), selected: false, size: EntrySize::Items(0) }
    );
    assert_eq!(viewer.entry(1).size, EntrySize::Items(2));
    assert_eq!(viewer.entry(2).size, EntrySize::Bytes(0));
    assert_eq!(viewer.entry(3).size, EntrySize::Bytes(100));
    let docs = DirectoryViewer::new(sample(), NodeID(2)).unwrap();
    assert_eq!(ids(&docs), vec![4, 3]);
}

#[test]
fn directory_viewer_matches_a_library_sort() {
    let names = ["m", "b/", "a", "z/", "c", "B", "aa", "Z/", "0", "é"];
    let records: Vec<_> = names.iter().map(|n| stored(n, 1, 1)).collect();
    let archive = Arc::new(Archive::read(&records).unwrap());
    let viewer = DirectoryViewer::new(Arc::clone(&archive), NodeID::first()).unwrap();
    let mut expected: Vec<NodeID> = archive.get(NodeID::first()).children.clone();
    expected.sort_unstable_by(|x, y| {
        let (x, y) = (archive.get(*x), archive.get(*y));
        y.props.is_dir().cmp(&x.props.is_dir()).then(x.name.cmp(&y.name))
    });
    let shown: Vec<NodeID> = (0..viewer.len()).map(|i| viewer.entry(i).id).collect();
    assert_eq!(shown, expected);
}

#[test]
fn directory_without_children_has_no_viewer() {
    assert!(DirectoryViewer::new(sample(), NodeID(7)).is_none());
    assert!(DirectoryViewer::new(sample(), NodeID(1)).is_none());
}

#[test]
fn directory_viewer_moves_the_highlight() {
    let mut viewer = DirectoryViewer::new(sample(), NodeID::first()).unwrap();
    assert_eq!(viewer.process_key(KeyCode::Down), DirectoryResult::EntryHighlight(NodeID(2)));
    assert_eq!(viewer.highlighted_index(), 1);
    assert_eq!(viewer.process_key(KeyCode::Up), DirectoryResult::EntryHighlight(NodeID(7)));
    assert_eq!(viewer.process_key(KeyCode::Up), DirectoryResult::EntryHighlight(NodeID(1)));
    assert_eq!(viewer.highlighted_index(), 3);
    assert_eq!(viewer.process_key(KeyCode::Down), DirectoryResult::EntryHighlight(NodeID(7)));
    assert_eq!(viewer.highlighted_index(), 0);
}

#[test]
fn directory_viewer_asks_for_child_and_parent() {
    let mut viewer = DirectoryViewer::new(sample(), NodeID::first()).unwrap();
    viewer.process_key(KeyCode::Down);
    assert_eq!(viewer.process_key(KeyCode::Right), DirectoryResult::ViewChild(NodeID(2)));
    assert_eq!(viewer.process_key(KeyCode::Enter), DirectoryResult::ViewChild(NodeID(2)));
    assert_eq!(viewer.process_key(KeyCode::Left), DirectoryResult::ViewParent(NodeID(2)));
    assert_eq!(viewer.process_key(KeyCode::Char('x')), DirectoryResult::Handled);
    assert_eq!(viewer.process_key(KeyCode::Esc), DirectoryResult::Handled);
    assert_eq!(viewer.highlighted_index(), 1);
}

#[test]
fn directory_viewer_selects_with_space() {
    let mut viewer = DirectoryViewer::new(sample(), NodeID::first()).unwrap();
    assert_eq!(viewer.selected_ids().as_slice(), &[NodeID(7)]);
    assert_eq!(viewer.process_key(KeyCode::Char(' ')), DirectoryResult::Handled);
    assert!(viewer.entry(0).selected);
    assert_eq!(viewer.highlighted_index(), 1);
    viewer.process_key(KeyCode::Down);
    viewer.process_key(KeyCode::Char(' '));
    assert_eq!(viewer.selected_ids().as_slice(), &[NodeID(7), NodeID(6)]);
    assert_eq!(viewer.highlighted().id, NodeID(1));
    // Space on a selected line gives the selection up again.
    viewer.process_key(KeyCode::Down);
    viewer.process_key(KeyCode::Char(' '));
    assert!(!viewer.entry(0).selected);
    assert_eq!(viewer.selected_ids().as_slice(), &[NodeID(6)]);
}

#[test]
fn path_viewer_opens_with_the_child_of_the_first_line() {
    let viewer = PathViewer::new(sample(), NodeID::first()).unwrap();
    assert_eq!(viewer.directory(), NodeID(0));
    assert_eq!(viewer.highlighted().id, NodeID(7));
    assert_eq!(viewer.highlighted_index(), 0);
    assert!(viewer.parent_dir().is_none());
    assert!(viewer.child_dir().is_none());
    assert!(PathViewer::new(sample(), NodeID(7)).is_none());
    let docs = PathViewer::new(sample(), NodeID(2)).unwrap();
    assert_eq!(docs.highlighted().id, NodeID(4));
    assert_eq!(ids(docs.child_dir().as_ref().unwrap()), vec![5]);
}

#[test]
fn path_viewer_shows_the_highlighted_directory() {
    let mut viewer = PathViewer::new(sample(), NodeID::first()).unwrap();
    assert_eq!(viewer.process_key(KeyCode::Down), PathViewerResult::PathSelected(NodeID(2)));
    assert_eq!(ids(viewer.child_dir().as_ref().unwrap()), vec![4, 3]);
    assert_eq!(viewer.process_key(KeyCode::Down), PathViewerResult::PathSelected(NodeID(6)));
    assert!(viewer.child_dir().is_none());
    assert_eq!(viewer.process_key(KeyCode::Char(' ')), PathViewerResult::Handled);
    assert_eq!(viewer.selected_ids().as_slice(), &[NodeID(6)]);
}

#[test]
fn path_viewer_enters_and_leaves_directories() {
    let mut viewer = PathViewer::new(sample(), NodeID::first()).unwrap();
    // A file and an empty directory cannot be entered.
    assert_eq!(viewer.process_key(KeyCode::Right), PathViewerResult::Handled);
    assert_eq!(viewer.directory(), NodeID(0));
    // The topmost directory cannot be left.
    assert_eq!(viewer.process_key(KeyCode::Left), PathViewerResult::Handled);

    viewer.process_key(KeyCode::Down);
    assert_eq!(viewer.process_key(KeyCode::Enter), PathViewerResult::PathSelected(NodeID(4)));
    assert_eq!(viewer.directory(), NodeID(2));
    assert_eq!(viewer.parent_dir().as_ref().unwrap().directory(), NodeID(0));
    assert_eq!(viewer.parent_dir().as_ref().unwrap().highlighted_index(), 1);
    assert_eq!(ids(viewer.child_dir().as_ref().unwrap()), vec![5]);

    assert_eq!(viewer.process_key(KeyCode::Right), PathViewerResult::PathSelected(NodeID(5)));
    assert_eq!(viewer.directory(), NodeID(4));
    assert_eq!(viewer.parent_dir().as_ref().unwrap().directory(), NodeID(2));
    assert!(viewer.child_dir().is_none());

    assert_eq!(viewer.process_key(KeyCode::Left), PathViewerResult::PathSelected(NodeID(4)));
    assert_eq!(viewer.directory(), NodeID(2));
    assert_eq!(viewer.child_dir().as_ref().unwrap().directory(), NodeID(4));
    assert_eq!(viewer.parent_dir().as_ref().unwrap().directory(), NodeID(0));

    // The directory on the left was opened anew, so its first line is highlighted.
    assert_eq!(viewer.parent_dir().as_ref().unwrap().highlighted_index(), 0);
    assert_eq!(viewer.process_key(KeyCode::Left), PathViewerResult::PathSelected(NodeID(7)));
    assert_eq!(viewer.directory(), NodeID(0));
    assert!(viewer.parent_dir().is_none());
    assert_eq!(viewer.child_dir().as_ref().unwrap().directory(), NodeID(2));
    assert_eq!(viewer.cur_dir().highlighted_index(), 0);
}

#[test]
fn utf8_widths_and_offsets() {
    for c in ['a', '\u{7f}', '\u{80}', 'é', '\u{7ff}', '\u{800}', '世', '\u{ffff}', '\u{10000}', '🦀'] {
        assert_eq!(utf8_width_of(c), c.len_utf8());
    }
    let chars: Vec<char> = "aé世🦀".chars().collect();
    assert_eq!(byte_offset(&chars, 0), Some(0));
    assert_eq!(byte_offset(&chars, 2), Some(3));
    assert_eq!(byte_offset(&chars, 4), Some(10));
    assert_eq!(char_index(&chars, 0), Some(0));
    assert_eq!(char_index(&chars, 1), Some(1));
    assert_eq!(char_index(&chars, 2), None);
    assert_eq!(char_index(&chars, 3), Some(2));
    assert_eq!(char_index(&chars, 6), Some(3));
    assert_eq!(char_index(&chars, 10), Some(4));
    assert_eq!(char_index(&chars, 11), None);
    assert_eq!(text_of(&chars, 1, 3), "é世");
    assert_eq!(text_of(&chars, 2, 2), "");
}

#[test]
fn caret_types_and_counts_columns() {
    let mut caret = Caret::new();
    assert_eq!((caret.text(), caret.pos(), caret.display_offset()), (String::new(), 0, 0));
    caret.push('a');
    caret.push('世');
    caret.push('é');
    assert_eq!(caret.text(), "a世é");
    assert_eq!(caret.pos(), 6);
    assert_eq!(caret.display_offset(), 4);
    // A control character has no column.
    caret.push('\u{7}');
    assert_eq!(caret.display_offset(), 4);
    assert_eq!(caret.pos(), 7);
}

#[test]
fn caret_moves_by_graphemes() {
    let mut caret = Caret::new();
    for c in "ae\u{301}世".chars() {
        caret.push(c);
    }
    assert_eq!(caret.pos(), 7);
    caret.move_left();
    assert_eq!(caret.pos(), 4);
    assert_eq!(caret.display_offset(), 4 - 2);
    // The letter and its accent are one grapheme.
    caret.move_left();
    assert_eq!(caret.pos(), 1);
    caret.move_left();
    assert_eq!(caret.pos(), 0);
    caret.move_left();
    assert_eq!(caret.pos(), 0);
    caret.move_right();
    assert_eq!(caret.pos(), 1);
    caret.move_right();
    assert_eq!(caret.pos(), 4);
    caret.move_right();
    assert_eq!(caret.pos(), 7);
    caret.move_right();
    assert_eq!(caret.pos(), 7);
    caret.move_front();
    assert_eq!((caret.pos(), caret.display_offset()), (0, 0));
    caret.move_end();
    assert_eq!((caret.pos(), caret.display_offset()), (7, 4));
}

#[test]
fn caret_inserts_and_removes_at_the_caret() {
    let mut caret = Caret::new();
    for c in "abd".chars() {
        caret.push(c);
    }
    caret.move_left();
    caret.push('c');
    assert_eq!(caret.text(), "abcd");
    assert_eq!(caret.pos(), 3);
    caret.pop();
    assert_eq!(caret.text(), "abd");
    assert_eq!(caret.pos(), 2);
    assert_eq!(caret.display_offset(), 2);
    caret.pop();
    caret.pop();
    assert_eq!(caret.text(), "d");
    caret.pop();
    assert_eq!(caret.text(), "d");
    assert_eq!((caret.pos(), caret.display_offset()), (0, 0));
}

#[test]
fn caret_pop_takes_the_first_character_of_the_grapheme() {
    let mut caret = Caret::new();
    for c in "xe\u{301}".chars() {
        caret.push(c);
    }
    caret.pop();
    assert_eq!(caret.text(), "x\u{301}");
    assert_eq!(caret.pos(), 1);
}

#[test]
fn input_state_processes_keys() {
    let mut input = InputState::new();
    assert_eq!(input.cursor_pos, None);
    for c in "dir".chars() {
        assert_eq!(input.process_key(KeyCode::Char(c)), InputResult::Handled);
    }
    assert_eq!(input.process_key(KeyCode::Left), InputResult::Handled);
    assert_eq!(input.caret.pos(), 2);
    assert_eq!(input.process_key(KeyCode::Home), InputResult::Handled);
    assert_eq!(input.caret.pos(), 0);
    assert_eq!(input.process_key(KeyCode::Right), InputResult::Handled);
    assert_eq!(input.caret.pos(), 1);
    assert_eq!(input.process_key(KeyCode::End), InputResult::Handled);
    assert_eq!(input.caret.pos(), 3);
    assert_eq!(input.process_key(KeyCode::Up), InputResult::Handled);
    assert_eq!(input.caret.pos(), 0);
    assert_eq!(input.process_key(KeyCode::Down), InputResult::Handled);
    assert_eq!(input.process_key(KeyCode::Backspace), InputResult::Handled);
    assert_eq!(input.process_key(KeyCode::Other), InputResult::Handled);
    assert_eq!(input.process_key(KeyCode::Enter), InputResult::ProcessInput("di".to_string()));
    assert_eq!(input.process_key(KeyCode::Esc), InputResult::Return);
    assert_eq!(input.caret.text(), "di");
}

#[test]
fn input_state_scrolls_a_long_line() {
    let mut input = InputState::new();
    for c in "0123456789".chars() {
        input.process_key(KeyCode::Char(c));
    }
    assert_eq!(input.visible_offset(20), 0);
    assert_eq!(input.visible_slice(20), "0123456789");
    assert_eq!(input.visible_offset(11), 0);
    assert_eq!(input.visible_offset(10), 1);
    assert_eq!(input.visible_slice(10), "123456789");
    assert_eq!(input.visible_offset(4), 7);
    assert_eq!(input.visible_slice(4), "789");
    assert_eq!(input.visible_offset(0), 10);
    assert_eq!(input.visible_slice(0), "");
    input.process_key(KeyCode::Home);
    assert_eq!(input.visible_offset(4), 0);
    assert_eq!(input.visible_slice(4), "0123");
}

#[test]
fn input_state_places_the_cursor() {
    let mut input = InputState::new();
    for c in "abc".chars() {
        input.process_key(KeyCode::Char(c));
    }
    input.update_cursor_pos(rect(5, 2, 10, 1));
    assert_eq!(input.cursor_pos, Some((8, 2)));
    input.update_cursor_pos(rect(5, 2, 2, 1));
    assert_eq!(input.cursor_pos, Some((7, 2)));
    input.update_cursor_pos(rect(0, 0, 0, 1));
    assert_eq!(input.cursor_pos, Some((7, 2)));
    input.update_cursor_pos(rect(0, 0, 4, 0));
    assert_eq!(input.cursor_pos, Some((7, 2)));
}

#[test]
fn numbers_in_decimal() {
    for n in [0u128, 1, 9, 10, 11, 99, 100, 101, 1234567890, u64::MAX as u128, u128::MAX] {
        assert_eq!(decimal_text(n), n.to_string());
    }
    assert_eq!(digit_of(0), '0');
    assert_eq!(digit_of(9), '9');
}

#[test]
fn dates_and_positions_as_text() {
    let date = Date { year: 2021, month: 3, day: 9, hour: 7, minute: 5 };
    assert_eq!(date_text(&date), "2021-03-09 07:05");
    let date = Date { year: 80, month: 12, day: 31, hour: 23, minute: 59 };
    assert_eq!(date_text(&date), "80-12-31 23:59");
    let date = Date { year: 0, month: 0, day: 0, hour: 0, minute: 0 };
    assert_eq!(date_text(&date), "0-00-00 00:00");
    let date = Date { year: 65535, month: 255, day: 100, hour: 9, minute: 10 };
    assert_eq!(date_text(&date), "65535-255-100 09:10");
    assert_eq!(selection_text(0, 4), "1/4");
    assert_eq!(selection_text(11, 12), "12/12");
    assert_eq!(selection_text(usize::MAX, 0), format!("{}/0", usize::MAX as u128 + 1));
    assert_eq!(percent_text(0), "0%");
    assert_eq!(percent_text(7), "7%");
    assert_eq!(percent_text(100), "100%");
}

#[test]
fn alignment_offsets() {
    assert_eq!(alignment_offset(Alignment::Left, 10, 4), 0);
    assert_eq!(alignment_offset(Alignment::Center, 10, 4), 3);
    assert_eq!(alignment_offset(Alignment::Center, 11, 5), 3);
    assert_eq!(alignment_offset(Alignment::Center, 4, 10), 0);
    assert_eq!(alignment_offset(Alignment::Right, 10, 4), 6);
    assert_eq!(alignment_offset(Alignment::Right, 4, 10), 0);
}

#[test]
fn horizontal_padding() {
    assert_eq!(pad_rect_horiz(rect(3, 4, 10, 2), 1), rect(4, 4, 8, 2));
    assert_eq!(pad_rect_horiz(rect(3, 4, 10, 2), 5), rect(8, 4, 0, 2));
    assert_eq!(pad_rect_horiz(rect(3, 4, 10, 2), 6), rect(9, 4, 0, 2));
    assert_eq!(pad_rect_horiz(rect(3, 4, 10, 2), 0), rect(3, 4, 10, 2));
}

#[test]
fn upper_case_of_the_keys() {
    assert_eq!(alpha_upper(EXTRACT_TO_DIR_KEY), 'S');
    assert_eq!(alpha_upper(EXTRACT_TO_CWD_KEY), 'E');
    assert_eq!(alpha_upper(MOUNT_AT_DIR_KEY), 'L');
    assert_eq!(alpha_upper(MOUNT_AT_TMP_KEY), 'M');
    assert_eq!(alpha_upper('a'), 'A');
    assert_eq!(alpha_upper('z'), 'Z');
    assert_eq!(alpha_upper(' '), '\0');
    // Only the lowest eight bits of a character count.
    assert_eq!(alpha_upper('\u{161}'), 'A');
    assert_eq!(alpha_upper('\u{ff}'), '\u{df}');
}

#[test]
fn input_actions_and_named_keys() {
    assert_eq!(InputAction::Extract.desc(), "extract to");
    assert_eq!(InputAction::Mount.desc(), "mount at");
    assert_eq!(unmount_key(), KeyCodeDesc { key: KeyCode::Esc, desc: "Esc" });
    assert_eq!(KeyCodeDesc::new(KeyCode::Up, "Up").desc, "Up");
    let hints = KeyHints {
        extract_to_dir_key: 'S',
        extract_to_cwd_key: 'E',
        mount_state: MountState::Unmounted { mount_at_tmp: 'M', mount_at_dir: 'L' },
    };
    assert_ne!(hints.mount_state, MountState::Mounted { unmount: "Esc" });
}

#[test]
fn entry_statistics() {
    let archive = sample();
    let stats = EntryStats::new(&archive, NodeID(2), NodeID(3), 1);
    assert_eq!(stats.date.as_deref(), Some("2019-07-04 09:03"));
    assert_eq!(stats.encoding, "UTF-8");
    assert_eq!(stats.compressed_size, Some(CompressedSize { compressed: 1024, raw: 2048 }));
    assert_eq!(stats.total_size, Some(TotalSize { compressed: 1024, raw: 2048 }));
    assert_eq!(stats.selection, "2/2");

    let root = EntryStats::new(&archive, NodeID(0), NodeID(0), 0);
    assert_eq!(root.date, None);
    assert_eq!(root.compressed_size, None);
    assert_eq!(root.total_size, Some(TotalSize { compressed: 50, raw: 100 }));
    assert_eq!(root.selection, "1/4");

    // An empty file has no ratio, a directory of directories no total.
    let mut empty = EntryStats::new(&archive, NodeID(4), NodeID(6), 0);
    assert_eq!(empty.compressed_size, None);
    assert_eq!(empty.total_size, Some(TotalSize { compressed: 7, raw: 7 }));
    empty.update(&archive, NodeID(7), NodeID(7), 3);
    assert_eq!(empty.total_size, None);
    assert_eq!(empty.selection, "4/0");
    assert_eq!(EntryStats::total_size(&archive, NodeID(1)), None);
}

#[test]
fn entry_statistics_name_the_detected_encoding() {
    let text = "これは日本語で書かれたファイルの名前です";
    let (raw, _, _) = encoding_rs::SHIFT_JIS.encode(text);
    let records = vec![Some(StoredEntry {
        name_raw: raw.to_vec(),
        size: 1,
        compressed_size: 1,
        last_modified: Date { year: 2000, month: 1, day: 1, hour: 0, minute: 0 },
    })];
    let archive = Archive::read(&records).unwrap();
    assert_eq!(EntryStats::new(&archive, NodeID(0), NodeID(1), 0).encoding, "Shift_JIS");
}

#[test]
fn events_are_sorted() {
    assert_eq!(TICK_DURATION_MS, 1000);
    assert_eq!(next(Incoming::Tick), Ok(Some(EventKind::Tick)));
    assert_eq!(next(Incoming::Key(KeyCode::Up)), Ok(Some(EventKind::Key(KeyCode::Up))));
    assert_eq!(next(Incoming::Ignored), Ok(None));
    assert_eq!(next(Incoming::Failed("broken".to_string())), Err(ErrorKind::Other("broken".to_string())));
    assert_eq!(next(Incoming::Closed), Err(ErrorKind::ExitRequest));
}

#[test]
fn exit_key_ends_the_program_unless_a_panel_keeps_the_keys() {
    assert_eq!(process_key(InputLock::Unlocked, KeyCode::Char('q')), CycleResult::Exit);
    assert_eq!(process_key(InputLock::Locked, KeyCode::Char('q')), CycleResult::Continue);
    assert_eq!(process_key(InputLock::Unlocked, KeyCode::Char('Q')), CycleResult::Continue);
    assert_eq!(process_key(InputLock::Unlocked, KeyCode::Esc), CycleResult::Continue);
}

fn panel() -> MainPanel {
    let records = vec![
        stored("zeta.txt", 100, 50),
        stored("docs/b.txt", 2048, 1024),
        stored("docs/a/x", 7, 7),
        stored("alpha.txt", 0, 0),
        stored("Beta/", 0, 0),
    ];
    MainPanel::new(Arc::new(Archive::read(&records).unwrap())).unwrap()
}

fn type_text(panel: &mut MainPanel, text: &str) {
    for c in text.chars() {
        let (lock, action) = panel.process_key(KeyCode::Char(c));
        assert_eq!(lock, InputLock::Locked);
        assert!(matches!(action, PanelAction::Nothing));
    }
}

#[test]
fn main_panel_of_an_empty_archive() {
    assert!(MainPanel::new(Arc::new(Archive::read(&vec![]).unwrap())).is_none());
}

#[test]
fn main_panel_starts_with_the_statistics_of_the_first_line() {
    let panel = panel();
    assert!(matches!(panel.panel_state(), PanelState::Free));
    assert_eq!(panel.path_viewer().highlighted().id, NodeID(7));
    assert_eq!(panel.entry_stats().selection, "1/4");
    assert_eq!(panel.entry_stats().date.as_deref(), Some("2019-07-04 09:03"));
}

#[test]
fn main_panel_browses_and_updates_the_statistics() {
    let mut panel = panel();
    let (lock, action) = panel.process_key(KeyCode::Down);
    assert_eq!(lock, InputLock::Unlocked);
    assert!(matches!(action, PanelAction::Nothing));
    assert_eq!(panel.entry_stats().selection, "2/4");
    panel.process_key(KeyCode::Enter);
    assert_eq!(panel.path_viewer().directory(), NodeID(2));
    assert_eq!(panel.entry_stats().selection, "1/2");
    assert_eq!(panel.entry_stats().total_size, Some(TotalSize { compressed: 1024, raw: 2048 }));
    // A key that changes no highlight leaves the statistics alone.
    panel.process_key(KeyCode::Char(' '));
    assert_eq!(panel.entry_stats().selection, "1/2");
}

#[test]
fn main_panel_asks_for_an_extraction() {
    let mut panel = panel();
    panel.process_key(KeyCode::Char(' '));
    let (lock, action) = panel.process_key(KeyCode::Char('s'));
    assert_eq!(lock, InputLock::Locked);
    assert!(matches!(action, PanelAction::Nothing));
    assert!(matches!(panel.panel_state(), PanelState::Input(_, InputAction::Extract)));
    // While a path is typed the exit key is a letter like any other.
    type_text(&mut panel, "out/q");
    let (lock, action) = panel.process_key(KeyCode::Enter);
    assert_eq!(lock, InputLock::Locked);
    match action {
        PanelAction::Extract { nodes, path } => {
            assert_eq!(nodes.as_slice(), &[NodeID(7)]);
            assert_eq!(path, "out/q");
        }
        _ => panic!("an extraction was asked for"),
    }
    assert!(matches!(panel.panel_state(), PanelState::Extracting));
    // During an extraction the keys browse.
    let (lock, _) = panel.process_key(KeyCode::Char('s'));
    assert_eq!(lock, InputLock::Unlocked);
    assert!(matches!(panel.panel_state(), PanelState::Extracting));
    let (lock, _) = panel.process_key(KeyCode::Down);
    assert_eq!(lock, InputLock::Unlocked);
    panel.extract_finished(None);
    assert!(matches!(panel.panel_state(), PanelState::Free));
}

#[test]
fn main_panel_shows_a_failed_extraction_until_escape() {
    let mut panel = panel();
    panel.process_key(KeyCode::Char('s'));
    panel.process_key(KeyCode::Enter);
    panel.extract_finished(Some("disk full".to_string()));
    match panel.panel_state() {
        PanelState::Error(kind, text) => {
            assert_eq!(*kind, PanelErrorKind::Extract);
            assert_eq!(text, "disk full");
        }
        _ => panic!("the failure is shown"),
    }
    let (lock, _) = panel.process_key(KeyCode::Down);
    assert_eq!(lock, InputLock::Unlocked);
    assert!(matches!(panel.panel_state(), PanelState::Error(_, _)));
    assert_eq!(panel.path_viewer().highlighted_index(), 0);
    let (lock, _) = panel.process_key(KeyCode::Esc);
    assert_eq!(lock, InputLock::Unlocked);
    assert!(matches!(panel.panel_state(), PanelState::Free));
}

#[test]
fn main_panel_asks_for_a_mount() {
    let mut panel = panel();
    panel.process_key(KeyCode::Char('l'));
    assert!(matches!(panel.panel_state(), PanelState::Input(_, InputAction::Mount)));
    type_text(&mut panel, "/mnt");
    let (lock, action) = panel.process_key(KeyCode::Enter);
    assert_eq!(lock, InputLock::Locked);
    match action {
        PanelAction::Mount { path } => assert_eq!(path, "/mnt"),
        _ => panic!("a mount was asked for"),
    }
    panel.mount_finished(Some("no such directory".to_string()));
    assert!(matches!(panel.panel_state(), PanelState::Error(PanelErrorKind::Mount, _)));
    panel.process_key(KeyCode::Esc);
    panel.process_key(KeyCode::Char('l'));
    panel.process_key(KeyCode::Enter);
    panel.mount_finished(None);
    assert!(matches!(panel.panel_state(), PanelState::Free));
}

#[test]
fn main_panel_gives_typing_up_and_unmounts_on_escape() {
    let mut panel = panel();
    panel.process_key(KeyCode::Char('s'));
    let (lock, action) = panel.process_key(KeyCode::Esc);
    assert_eq!(lock, InputLock::Locked);
    assert!(matches!(action, PanelAction::Nothing));
    assert!(matches!(panel.panel_state(), PanelState::Free));
    let (lock, action) = panel.process_key(KeyCode::Esc);
    assert_eq!(lock, InputLock::Unlocked);
    assert!(matches!(action, PanelAction::Unmount));
    assert!(matches!(panel.panel_state(), PanelState::Free));
}

#[test]
fn cycles_of_the_interface() {
    let mut panel = panel();
    let (result, _) = next_cycle(&mut panel, Ok(Some(EventKind::Tick)));
    assert_eq!(result, CycleResult::Continue);
    let (result, _) = next_cycle(&mut panel, Ok(None));
    assert_eq!(result, CycleResult::Continue);
    let (result, _) = next_cycle(&mut panel, Ok(Some(EventKind::Key(KeyCode::Down))));
    assert_eq!(result, CycleResult::Continue);
    assert_eq!(panel.path_viewer().highlighted_index(), 1);
    let (result, _) = next_cycle(&mut panel, Ok(Some(EventKind::Key(KeyCode::Char('s')))));
    assert_eq!(result, CycleResult::Continue);
    let (result, _) = next_cycle(&mut panel, Ok(Some(EventKind::Key(KeyCode::Char('q')))));
    assert_eq!(result, CycleResult::Continue);
    let (result, _) = next_cycle(&mut panel, Ok(Some(EventKind::Key(KeyCode::Esc))));
    assert_eq!(result, CycleResult::Continue);
    let (result, _) = next_cycle(&mut panel, Ok(Some(EventKind::Key(KeyCode::Char('q')))));
    assert_eq!(result, CycleResult::Exit);
    let (result, _) = next_cycle(&mut panel, Err(ErrorKind::ExitRequest));
    assert_eq!(result, CycleResult::Exit);
    let (result, _) = next_cycle(&mut panel, Err(ErrorKind::Other("gone".to_string())));
    assert_eq!(result, CycleResult::Error("gone".to_string()));
}

fn hint() -> Fragment {
    Fragment::Widget(vec![
        Fragment::Char('S', 1),
        Fragment::Text(" -> ".to_string(), 1),
        Fragment::Text("to dir".to_string(), 1),
    ])
}

#[test]
fn fragments_add_up() {
    let items = vec![Fragment::Text("Extract [".to_string(), 0), hint(), Fragment::Char(']', 0)];
    assert_eq!(total_len(&items), 9 + 11 + 1);
    assert_eq!(total_len(&vec![]), 0);
    assert_eq!(total_len(&vec![Fragment::Text("é".to_string(), 0)]), 2);
}

#[test]
fn fragments_are_placed_one_after_the_other() {
    let items = vec![Fragment::Text("ab".to_string(), 0), hint(), Fragment::Char(']', 2)];
    let mut out = Vec::new();
    render(&items, rect(10, 3, 40, 1), Alignment::Left, &mut out);
    assert_eq!(
        out,
        vec![
            Placed::Text { x: 10, text: "ab".to_string(), style: 0 },
            Placed::Char { x: 12, ch: 'S', style: 1 },
            Placed::Text { x: 13, text: " -> ".to_string(), style: 1 },
            Placed::Text { x: 17, text: "to dir".to_string(), style: 1 },
            Placed::Char { x: 23, ch: ']', style: 2 },
        ]
    );
    let mut right = Vec::new();
    render(&items, rect(10, 3, 40, 1), Alignment::Right, &mut right);
    assert_eq!(right[0], Placed::Text { x: 10 + 40 - 14, text: "ab".to_string(), style: 0 });
    let mut center = Vec::new();
    render(&items, rect(0, 0, 40, 1), Alignment::Center, &mut center);
    assert_eq!(center[0], Placed::Text { x: 13, text: "ab".to_string(), style: 0 });
}

#[test]
fn fragments_that_do_not_fit_end_the_line() {
    let items = vec![Fragment::Text("ab".to_string(), 0), hint(), Fragment::Char(']', 2)];
    // The widget needs a column behind it: 2 + 11 columns do not fit into 13.
    let mut out = Vec::new();
    render(&items, rect(0, 0, 13, 1), Alignment::Left, &mut out);
    assert_eq!(out, vec![Placed::Text { x: 0, text: "ab".to_string(), style: 0 }]);
    let mut out = Vec::new();
    render(&items, rect(0, 0, 14, 1), Alignment::Left, &mut out);
    assert_eq!(out.len(), 5);
    // A text needs a column behind it as well, a character only its own.
    let mut out = Vec::new();
    render(&items, rect(0, 0, 2, 1), Alignment::Left, &mut out);
    assert!(out.is_empty());
    let chars = vec![Fragment::Char('a', 0), Fragment::Char('b', 0), Fragment::Char('c', 0)];
    let mut out = Vec::new();
    render(&chars, rect(5, 0, 2, 1), Alignment::Left, &mut out);
    assert_eq!(out.len(), 2);
    let mut out = vec![Placed::Char { x: 0, ch: '!', style: 9 }];
    render(&chars, rect(5, 0, 0, 1), Alignment::Left, &mut out);
    render(&chars, rect(5, 0, 3, 0), Alignment::Left, &mut out);
    assert_eq!(out.len(), 1);
}

#[test]
fn colours_of_a_line() {
    let file = EntryProperties::File(FileProperties { raw_size_bytes: 1, compressed_size_bytes: 1 });
    let dir = EntryProperties::Directory;
    assert_eq!(apply_line_color(file, true, true), LineColors { fg: Color::Black, bg: Some(Color::Yellow) });
    assert_eq!(apply_line_color(file, true, false), LineColors { fg: Color::Black, bg: Some(Color::White) });
    assert_eq!(apply_line_color(dir, true, false), LineColors { fg: Color::Black, bg: Some(Color::LightBlue) });
    assert_eq!(apply_line_color(dir, false, true), LineColors { fg: Color::Yellow, bg: None });
    assert_eq!(apply_line_color(file, false, false), LineColors { fg: Color::White, bg: None });
    assert_eq!(apply_line_color(dir, false, false), LineColors { fg: Color::LightBlue, bg: None });
}

#[test]
fn layout_of_a_line() {
    assert_eq!(
        item_layout(rect(10, 5, 30, 1), false, false, 8, 6),
        Some(ItemLayout { name_x: 11, name_max: 28, bold: false, size_x: Some(10 + 23) })
    );
    assert_eq!(
        item_layout(rect(10, 5, 30, 1), true, true, 8, 6),
        Some(ItemLayout { name_x: 12, name_max: 27, bold: true, size_x: Some(33) })
    );
    // The size is left out where it would come too close to the name.
    assert_eq!(item_layout(rect(0, 0, 30, 1), false, false, 21, 6).unwrap().size_x, Some(23));
    assert_eq!(item_layout(rect(0, 0, 30, 1), false, false, 22, 6).unwrap().size_x, None);
    assert_eq!(item_layout(rect(0, 0, 30, 1), false, true, 21, 6).unwrap().size_x, None);
    assert_eq!(item_layout(rect(0, 0, 30, 1), true, false, 0, 40).unwrap().size_x, None);
    assert_eq!(item_layout(rect(0, 0, 1, 1), false, false, 1, 1), None);
    assert_eq!(item_layout(rect(0, 0, 2, 1), false, true, 1, 1), None);
    assert_eq!(item_layout(rect(0, 0, 2, 1), false, false, 1, 1).unwrap().name_max, 0);
    assert_eq!(item_layout(rect(0, 0, 30, 0), false, false, 1, 1), None);
}

#[test]
fn position_of_a_simple_text() {
    assert_eq!(simple_text_x(rect(4, 0, 10, 1), Alignment::Left, 3), Some(4));
    assert_eq!(simple_text_x(rect(4, 0, 10, 1), Alignment::Center, 3), Some(8));
    assert_eq!(simple_text_x(rect(4, 0, 10, 1), Alignment::Right, 3), Some(11));
    assert_eq!(simple_text_x(rect(4, 0, 10, 1), Alignment::Right, 10), Some(4));
    assert_eq!(simple_text_x(rect(4, 0, 10, 1), Alignment::Left, 11), None);
    assert_eq!(row_area(rect(1, 2, 3, 4), 5), rect(1, 7, 3, 1));
}

#[test]
fn units_of_sizes() {
    assert_eq!(formatted_unit(0), (Unit::Bytes, 1, "B"));
    assert_eq!(formatted_unit(1023), (Unit::Bytes, 1, "B"));
    assert_eq!(formatted_unit(1024), (Unit::Kilobytes, 1024, "K"));
    assert_eq!(formatted_unit(1024 * 1024 - 1), (Unit::Kilobytes, 1024, "K"));
    assert_eq!(formatted_unit(1024 * 1024), (Unit::Megabytes, 1 << 20, "M"));
    assert_eq!(formatted_unit(1 << 30), (Unit::Gigabytes, 1 << 30, "G"));
    assert_eq!(formatted_unit((1 << 40) - 1), (Unit::Gigabytes, 1 << 30, "G"));
    assert_eq!(formatted_unit(1 << 40), (Unit::Terabytes, 1 << 40, "T"));
    assert_eq!(formatted_unit(u64::MAX), (Unit::Terabytes, 1 << 40, "T"));
}
