//! The main panel: the browsed path, the statistics of the highlighted
//! entry, and the line at the bottom, which shows hints, takes a path that
//! is typed, or shows the progress of an extraction.

use crate::archive::selection::Selection;
use crate::archive::{share, Archive, NodeID};
use crate::ui::entry_stats::{compressed_size_of, date_of, text_view, EntryStats};
use crate::ui::input::{
    cursor_column, CaretView, InputResult, InputResultView, InputState, Rect,
};
use crate::ui::path_viewer::{PathView, PathViewer, PathViewerResult};
use crate::ui::text::selection_line;
use crate::ui::{InputLock, KeyCode};
use std::sync::Arc;
use vstd::prelude::*;

verus! {

/// The key that asks where to extract to.
pub const EXTRACT_TO_DIR_KEY: char = 's';

/// The key that extracts to the working directory.
pub const EXTRACT_TO_CWD_KEY: char = 'e';

/// The key that asks where to mount.
pub const MOUNT_AT_DIR_KEY: char = 'l';

/// The key that mounts at a temporary directory.
pub const MOUNT_AT_TMP_KEY: char = 'm';

/// A key with the text that names it.
#[derive(Debug, Copy, Clone, PartialEq, Eq)]
pub struct KeyCodeDesc {
    pub key: KeyCode,
    pub desc: &'static str,
}

impl KeyCodeDesc {
    /// A key with the text that names it.
    pub fn new(key: KeyCode, desc: &'static str) -> (named: Self)
        ensures
            named.key == key,
            named.desc == desc,
    {
        KeyCodeDesc { key, desc }
    }
}

/// The key that unmounts.
pub fn unmount_key() -> (named: KeyCodeDesc)
    ensures
        named.key == KeyCode::Esc,
        named.desc@ == "Esc"@,
{
    KeyCodeDesc::new(KeyCode::Esc, "Esc")
}

/// What a typed path is for.
#[derive(Debug, Copy, Clone, PartialEq, Eq, Structural)]
pub enum InputAction {
    Extract,
    Mount,
}

impl InputAction {
    /// The words that stand before the path that is typed.
    pub fn desc(self) -> (words: &'static str)
        ensures
            words@ == match self {
                InputAction::Extract => "extract to"@,
                InputAction::Mount => "mount at"@,
            },
    {
        match self {
            InputAction::Extract => "extract to",
            InputAction::Mount => "mount at",
        }
    }
}

/// What failed.
#[derive(Debug, Copy, Clone, PartialEq, Eq, Structural)]
pub enum ErrorKind {
    Extract,
    Mount,
}

/// What the line at the bottom of the panel is used for.
pub enum PanelState {
    /// Hints are shown.
    Free,
    /// A path is typed, for the given use.
    Input(InputState, InputAction),
    /// An extraction is under way.
    Extracting,
    /// An extraction or a mount failed, with the text of the failure.
    Error(ErrorKind, String),
}

/// The state of the panel as plain values.
pub enum PanelStateView {
    Free,
    Input(CaretView, Option<(u16, u16)>, InputAction),
    Extracting,
    Error(ErrorKind, Seq<char>),
}

impl View for PanelState {
    type V = PanelStateView;

    open spec fn view(&self) -> PanelStateView {
        match self {
            PanelState::Free => PanelStateView::Free,
            PanelState::Input(input, action) => PanelStateView::Input(
                input.caret@,
                input.cursor_pos,
                *action,
            ),
            PanelState::Extracting => PanelStateView::Extracting,
            PanelState::Error(kind, text) => PanelStateView::Error(*kind, text@),
        }
    }
}

impl PanelState {
    /// Whether a line that is typed is well formed.
    pub open spec fn wf(&self) -> bool {
        self matches PanelState::Input(input, _) ==> input.caret.wf()
    }

    /// Goes back to the hints.
    pub fn reset(&mut self)
        ensures
            *final(self) matches PanelState::Free,
    {
        *self = PanelState::Free;
    }
}

impl Default for PanelState {
    fn default() -> (state: Self)
        ensures
            state matches PanelState::Free,
    {
        PanelState::Free
    }
}

/// What the panel asks of the program after a key.
pub enum PanelAction {
    Nothing,
    /// The mounted filesystem is to be unmounted, if there is one.
    Unmount,
    /// The given nodes are to be extracted to the given path.
    Extract { nodes: Selection, path: String },
    /// The index is to be mounted at the given path.
    Mount { path: String },
}

/// What the panel asks of the program, as plain values.
pub enum PanelActionView {
    Nothing,
    Unmount,
    Extract { nodes: Seq<NodeID>, path: Seq<char> },
    Mount { path: Seq<char> },
}

impl View for PanelAction {
    type V = PanelActionView;

    open spec fn view(&self) -> PanelActionView {
        match self {
            PanelAction::Nothing => PanelActionView::Nothing,
            PanelAction::Unmount => PanelActionView::Unmount,
            PanelAction::Extract { nodes, path } => PanelActionView::Extract {
                nodes: nodes@,
                path: path@,
            },
            PanelAction::Mount { path } => PanelActionView::Mount { path: path@ },
        }
    }
}

/// What a key does to the panel.
pub struct KeyOutcome {
    pub path: PathView,
    pub state: PanelStateView,
    pub action: PanelActionView,
    pub lock: InputLock,
    /// The node whose statistics are to be shown from now on, if they change.
    pub shown: Option<NodeID>,
}

/// What a key does to the panel.
///
/// While hints are shown, two keys start the typing of a path and one
/// unmounts; every other key goes to the browsed path, as does every key
/// during an extraction. While a path is typed, every key goes to the line,
/// and the panel keeps the keys to itself. A failure is put away by the
/// escape key.
pub open spec fn after_key(
    nodes: Seq<crate::archive::EntryView>,
    path: PathView,
    state: PanelStateView,
    key: KeyCode,
) -> KeyOutcome {
    let fresh = CaretView { buffer: Seq::empty(), index: 0, display_offset: 0 };
    let browsed = path.after_key(nodes, key);
    let browsing = KeyOutcome {
        path: browsed.0,
        state,
        action: PanelActionView::Nothing,
        lock: InputLock::Unlocked,
        shown: match browsed.1 {
            PathViewerResult::Handled => None,
            PathViewerResult::PathSelected(id) => Some(id),
        },
    };
    let idle = KeyOutcome {
        path,
        state,
        action: PanelActionView::Nothing,
        lock: InputLock::Unlocked,
        shown: None,
    };
    match state {
        PanelStateView::Free => if key == KeyCode::Char(EXTRACT_TO_DIR_KEY) {
            KeyOutcome {
                state: PanelStateView::Input(fresh, None, InputAction::Extract),
                lock: InputLock::Locked,
                ..idle
            }
        } else if key == KeyCode::Char(MOUNT_AT_DIR_KEY) {
            KeyOutcome {
                state: PanelStateView::Input(fresh, None, InputAction::Mount),
                lock: InputLock::Locked,
                ..idle
            }
        } else if key == KeyCode::Esc {
            KeyOutcome { action: PanelActionView::Unmount, ..idle }
        } else {
            browsing
        },
        PanelStateView::Extracting => browsing,
        PanelStateView::Input(caret, cursor_pos, action) => {
            let typed = caret.after_key(key);
            match typed.1 {
                InputResultView::Handled => KeyOutcome {
                    state: PanelStateView::Input(typed.0, cursor_pos, action),
                    lock: InputLock::Locked,
                    ..idle
                },
                InputResultView::Return => KeyOutcome {
                    state: PanelStateView::Free,
                    lock: InputLock::Locked,
                    ..idle
                },
                InputResultView::ProcessInput(text) => match action {
                    InputAction::Extract => KeyOutcome {
                        state: PanelStateView::Extracting,
                        action: PanelActionView::Extract {
                            nodes: path.cur.selected_ids(),
                            path: text,
                        },
                        lock: InputLock::Locked,
                        ..idle
                    },
                    InputAction::Mount => KeyOutcome {
                        state: PanelStateView::Input(typed.0, cursor_pos, action),
                        action: PanelActionView::Mount { path: text },
                        lock: InputLock::Locked,
                        ..idle
                    },
                },
            }
        },
        PanelStateView::Error(_, _) => if key == KeyCode::Esc {
            KeyOutcome { state: PanelStateView::Free, ..idle }
        } else {
            idle
        },
    }
}

/// The state after something that the panel asked for has ended: the hints
/// come back after a success, the failure is shown after a failure.
pub open spec fn after_outcome(kind: ErrorKind, failure: Option<Seq<char>>) -> PanelStateView {
    match failure {
        None => PanelStateView::Free,
        Some(text) => PanelStateView::Error(kind, text),
    }
}

/// Whether statistics are those of the entry `selected` at position
/// `selected_idx` of the directory `viewed_dir`.
pub open spec fn stats_show(
    stats: EntryStats,
    nodes: Seq<crate::archive::EntryView>,
    viewed_dir: NodeID,
    selected: NodeID,
    selected_idx: usize,
) -> bool {
    &&& text_view(stats.date) == date_of(nodes[selected@])
    &&& stats.encoding@ == nodes[selected@].encoding
    &&& stats.compressed_size == compressed_size_of(nodes[selected@])
    &&& stats.total_size == EntryStats::total_size_of(nodes, viewed_dir@)
    &&& stats.selection@ == selection_line(
        selected_idx,
        nodes[viewed_dir@].children.len() as usize,
    )
}

/// The main panel.
pub struct MainPanel {
    archive: Arc<Archive>,
    path_viewer: PathViewer,
    entry_stats: EntryStats,
    state: PanelState,
}

impl MainPanel {
    /// The index that the panel shows.
    pub closed spec fn archive(&self) -> Archive {
        *self.archive
    }

    /// The browsed path.
    pub closed spec fn path(&self) -> PathView {
        self.path_viewer@
    }

    /// What the line at the bottom is used for.
    pub closed spec fn state(&self) -> PanelStateView {
        self.state@
    }

    /// The statistics that are shown.
    pub closed spec fn stats(&self) -> EntryStats {
        self.entry_stats
    }

    /// Whether the panel browses a well-formed index.
    pub closed spec fn wf(&self) -> bool {
        &&& self.archive().wf()
        &&& self.path_viewer.wf()
        &&& self.path_viewer.archive() == self.archive()
        &&& self.state.wf()
    }

    /// A panel that browses the root of `archive`, with the statistics of
    /// its first line. An index without entries has no panel.
    pub fn new(archive: Arc<Archive>) -> (panel: Option<Self>)
        requires
            archive.wf(),
        ensures
            match panel {
                Some(panel) => {
                    &&& panel.wf()
                    &&& panel.archive() == *archive
                    &&& Some(panel.path()) == PathView::fresh(archive.files@, NodeID(0))
                    &&& panel.state() == PanelStateView::Free
                    &&& stats_show(
                        panel.stats(),
                        archive.files@,
                        NodeID(0),
                        panel.path().cur.highlighted(),
                        0,
                    )
                },
                None => PathView::fresh(archive.files@, NodeID(0)) is None,
            },
    {
        let path_viewer = match PathViewer::new(share(&archive), NodeID::first()) {
            Some(path_viewer) => path_viewer,
            None => {
                return None;
            },
        };
        let selected = path_viewer.highlighted().id;
        proof {
            path_viewer.lemma_highlighted_is_node();
        }
        let entry_stats = EntryStats::new(
            &archive,
            path_viewer.directory(),
            selected,
            path_viewer.highlighted_index(),
        );
        Some(MainPanel { archive, path_viewer, entry_stats, state: PanelState::Free })
    }

    /// Lets a key act on the panel, and says what the program has to do.
    pub fn process_key(&mut self, key: KeyCode) -> (done: (InputLock, PanelAction))
        requires
            old(self).wf(),
        ensures
            final(self).wf(),
            final(self).archive() == old(self).archive(),
            ({
                let outcome = after_key(
                    old(self).archive().files@,
                    old(self).path(),
                    old(self).state(),
                    key,
                );
                &&& final(self).path() == outcome.path
                &&& final(self).state() == outcome.state
                &&& done.0 == outcome.lock
                &&& done.1@ == outcome.action
                &&& match outcome.shown {
                    Some(id) => stats_show(
                        final(self).stats(),
                        old(self).archive().files@,
                        outcome.path.cur.directory,
                        id,
                        outcome.path.cur.position as usize,
                    ),
                    None => final(self).stats() == old(self).stats(),
                }
            }),
    {
        let browse = match &self.state {
            PanelState::Free => {
                if key == KeyCode::Char(EXTRACT_TO_DIR_KEY) {
                    self.state = PanelState::Input(InputState::new(), InputAction::Extract);
                    return (InputLock::Locked, PanelAction::Nothing);
                }
                if key == KeyCode::Char(MOUNT_AT_DIR_KEY) {
                    self.state = PanelState::Input(InputState::new(), InputAction::Mount);
                    return (InputLock::Locked, PanelAction::Nothing);
                }
                if key == KeyCode::Esc {
                    return (InputLock::Unlocked, PanelAction::Unmount);
                }
                true
            },
            PanelState::Extracting => true,
            _ => false,
        };
        if browse {
            match self.path_viewer.process_key(key) {
                PathViewerResult::Handled => {},
                PathViewerResult::PathSelected(id) => {
                    proof {
                        self.path_viewer.lemma_highlighted_is_node();
                    }
                    self.entry_stats.update(
                        &self.archive,
                        self.path_viewer.directory(),
                        id,
                        self.path_viewer.highlighted_index(),
                    );
                },
            }
            return (InputLock::Unlocked, PanelAction::Nothing);
        }
        let mut action = PanelAction::Nothing;
        let mut next: Option<PanelState> = None;
        match &mut self.state {
            PanelState::Input(input, wanted) => {
                match input.process_key(key) {
                    InputResult::Handled => {},
                    InputResult::Return => {
                        next = Some(PanelState::Free);
                    },
                    InputResult::ProcessInput(path) => match wanted {
                        InputAction::Extract => {
                            action =
                            PanelAction::Extract { nodes: self.path_viewer.selected_ids(), path };
                            next = Some(PanelState::Extracting);
                        },
                        InputAction::Mount => {
                            action = PanelAction::Mount { path };
                        },
                    },
                }
                if let Some(state) = next {
                    self.state = state;
                }
                (InputLock::Locked, action)
            },
            _ => {
                if key == KeyCode::Esc {
                    self.state = PanelState::Free;
                }
                (InputLock::Unlocked, PanelAction::Nothing)
            },
        }
    }

    /// Takes note of how a mount ended that the panel had asked for: with a
    /// filesystem that is mounted, or with a failure.
    pub fn mount_finished(&mut self, failure: Option<String>)
        requires
            old(self).wf(),
        ensures
            final(self).wf(),
            final(self).archive() == old(self).archive(),
            final(self).path() == old(self).path(),
            final(self).stats() == old(self).stats(),
            final(self).state() == after_outcome(ErrorKind::Mount, text_view(failure)),
    {
        self.state = match failure {
            None => PanelState::Free,
            Some(text) => PanelState::Error(ErrorKind::Mount, text),
        };
    }

    /// Takes note of how an extraction ended that the panel had asked for.
    pub fn extract_finished(&mut self, failure: Option<String>)
        requires
            old(self).wf(),
        ensures
            final(self).wf(),
            final(self).archive() == old(self).archive(),
            final(self).path() == old(self).path(),
            final(self).stats() == old(self).stats(),
            final(self).state() == after_outcome(ErrorKind::Extract, text_view(failure)),
    {
        self.state = match failure {
            None => PanelState::Free,
            Some(text) => PanelState::Error(ErrorKind::Extract, text),
        };
    }

    /// Puts the terminal's cursor where the caret of the typed line is shown
    /// in `area`, and says where that is. Without a line that is typed, and
    /// in an area without room, nothing changes.
    pub fn update_cursor_pos(&mut self, area: Rect) -> (cursor_pos: Option<(u16, u16)>)
        requires
            old(self).wf(),
            area.x + area.width <= u16::MAX,
        ensures
            final(self).wf(),
            final(self).archive() == old(self).archive(),
            final(self).path() == old(self).path(),
            final(self).stats() == old(self).stats(),
            match old(self).state() {
                PanelStateView::Input(caret, before, action) => {
                    &&& cursor_pos == if area.width < 1 || area.height < 1 {
                        before
                    } else {
                        Some(
                            (
                                (area.x + cursor_column(caret.display_offset, area.width)) as u16,
                                area.y,
                            ),
                        )
                    }
                    &&& final(self).state() == PanelStateView::Input(caret, cursor_pos, action)
                },
                _ => cursor_pos is None && final(self).state() == old(self).state(),
            },
    {
        match &mut self.state {
            PanelState::Input(input, _) => {
                input.update_cursor_pos(area);
                input.cursor_pos
            },
            _ => None,
        }
    }

    /// The index that the panel shows.
    pub fn index(&self) -> (archive: &Arc<Archive>)
        ensures
            **archive == self.archive(),
    {
        &self.archive
    }

    /// The browsed path.
    pub fn path_viewer(&self) -> (viewer: &PathViewer)
        ensures
            viewer@ == self.path(),
    {
        &self.path_viewer
    }

    /// The statistics that are shown.
    pub fn entry_stats(&self) -> (stats: &EntryStats)
        ensures
            *stats == self.stats(),
    {
        &self.entry_stats
    }

    /// What the line at the bottom is used for.
    pub fn panel_state(&self) -> (state: &PanelState)
        ensures
            state@ == self.state(),
    {
        &self.state
    }
}

} // verus!
