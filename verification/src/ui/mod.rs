//! The state behind the terminal panels: what is highlighted and selected,
//! what a key does, and what is shown where.

pub mod directory;
pub mod entry_stats;
pub mod event;
pub mod fragments;
pub mod graphemes;
pub mod input;
pub mod layout;
pub mod main_panel;
pub mod order;
pub mod path_viewer;
pub mod progress_bar;
pub mod text;

use crate::ui::event::{ErrorKind, EventKind};
use crate::ui::main_panel::{
    after_key, stats_show, MainPanel, PanelAction, PanelActionView,
};
use vstd::prelude::*;

verus! {

/// A key of the keyboard, as far as the panels tell keys apart.
#[derive(Debug, Copy, Clone, PartialEq, Eq, Structural)]
pub enum KeyCode {
    Backspace,
    Enter,
    Left,
    Right,
    Up,
    Down,
    Home,
    End,
    Esc,
    Char(char),
    /// Any other key.
    Other,
}

/// Whether a panel keeps the keys to itself.
#[derive(Debug, Copy, Clone, PartialEq, Eq, Structural)]
pub enum InputLock {
    Locked,
    Unlocked,
}

/// How one cycle of the interface ended.
#[derive(Debug, Clone, PartialEq, Eq)]
pub enum CycleResult {
    /// The interface goes on with the next cycle.
    Continue,
    Exit,
    /// The cycle failed, with the text of the failure.
    Error(String),
}

/// The key that leaves the program, where no panel keeps the keys.
pub const EXIT_KEY: char = 'q';

/// What a key does to the program once the main panel has seen it: nothing
/// while the panel keeps the keys to itself, and only the exit key ends the
/// program.
pub fn process_key(locked: InputLock, key: KeyCode) -> (result: CycleResult)
    ensures
        result == if locked == InputLock::Unlocked && key == KeyCode::Char(EXIT_KEY) {
            CycleResult::Exit
        } else {
            CycleResult::Continue
        },
{
    if locked == InputLock::Locked {
        return CycleResult::Continue;
    }
    if key == KeyCode::Char(EXIT_KEY) {
        return CycleResult::Exit;
    }
    CycleResult::Continue
}

/// How a cycle ends that brought the given event, once the main panel has
/// seen the key of a key event.
pub open spec fn cycle_outcome(event: Result<Option<EventKind>, ErrorKind>, lock: InputLock) -> CycleResult {
    match event {
        Ok(Some(EventKind::Key(key))) => if lock == InputLock::Unlocked && key == KeyCode::Char(
            EXIT_KEY,
        ) {
            CycleResult::Exit
        } else {
            CycleResult::Continue
        },
        Ok(_) => CycleResult::Continue,
        Err(ErrorKind::ExitRequest) => CycleResult::Exit,
        Err(ErrorKind::Other(text)) => CycleResult::Error(text),
    }
}

/// One cycle of the interface after it was drawn: a key goes to the main
/// panel first, a tick and an event that is none change nothing, a closed
/// terminal ends the program, and a failure ends the cycle with its text.
pub fn next_cycle(panel: &mut MainPanel, event: Result<Option<EventKind>, ErrorKind>) -> (done: (
    CycleResult,
    PanelAction,
))
    requires
        old(panel).wf(),
    ensures
        final(panel).wf(),
        final(panel).archive() == old(panel).archive(),
        match event {
            Ok(Some(EventKind::Key(key))) => {
                let outcome = after_key(
                    old(panel).archive().files@,
                    old(panel).path(),
                    old(panel).state(),
                    key,
                );
                &&& final(panel).path() == outcome.path
                &&& final(panel).state() == outcome.state
                &&& done.1@ == outcome.action
                &&& done.0 == cycle_outcome(event, outcome.lock)
                &&& match outcome.shown {
                    Some(id) => stats_show(
                        final(panel).stats(),
                        old(panel).archive().files@,
                        outcome.path.cur.directory,
                        id,
                        outcome.path.cur.position as usize,
                    ),
                    None => final(panel).stats() == old(panel).stats(),
                }
            },
            _ => {
                &&& final(panel).path() == old(panel).path()
                &&& final(panel).state() == old(panel).state()
                &&& final(panel).stats() == old(panel).stats()
                &&& done.1@ == PanelActionView::Nothing
                &&& done.0 == cycle_outcome(event, InputLock::Unlocked)
            },
        },
{
    match event {
        Ok(Some(EventKind::Key(key))) => {
            let (lock, action) = panel.process_key(key);
            (process_key(lock, key), action)
        },
        Ok(_) => (CycleResult::Continue, PanelAction::Nothing),
        Err(ErrorKind::ExitRequest) => (CycleResult::Exit, PanelAction::Nothing),
        Err(ErrorKind::Other(text)) => (CycleResult::Error(text), PanelAction::Nothing),
    }
}

} // verus!
