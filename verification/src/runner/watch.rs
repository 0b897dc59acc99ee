//! Watch mode as a state machine: each key press or file change is an
//! event; the state says which exercise is current, whether its last run
//! passed, and what is recorded as passed; each event yields the action for
//! the terminal loop to carry out.

use vstd::prelude::*;
use crate::runner::paths::{is_prefix, key_of, PathParts};
use crate::runner::progress::{first_pending, first_pending_idx, keys_of, lemma_first_pending_meaning, DoneSet};

verus! {

/// What a key press asks for.
#[derive(Clone, Copy, Debug, PartialEq, Eq, Structural)]
pub enum InputEvent {
    Run,
    Next,
    Hint,
    List,
    Quit,
}

/// Something that happened while watching.
#[derive(Debug)]
pub enum WatchEvent {
    /// A key was pressed.
    Key(InputEvent),
    /// A file under the exercises was created or changed.
    File(PathParts),
}

/// What the terminal loop does next.
#[derive(Clone, Copy, Debug, PartialEq, Eq, Structural)]
pub enum WatchAction {
    /// Clear the screen, say goodbye and stop watching.
    Quit,
    /// Run the current exercise's tests and show the outcome.
    RunAndRender,
    /// Repaint the screen from the current state.
    Render,
    /// Show the list of all exercises.
    ShowList,
    /// Nothing to do.
    Ignore,
    /// Wait a moment, drop the events queued meanwhile, then run the
    /// current exercise and show the outcome.
    RerunAfterBurst,
    /// Save the record of passed exercises, open the new current exercise
    /// in the editor, run it and show the outcome.
    Advance,
    /// Save the record of passed exercises, celebrate and stop watching.
    Finish,
}

/// The meaning of one key press (by its byte): `r` (114), `R` (82),
/// carriage return (13) and newline (10) run; `n` (110) and `N` (78) move
/// to the next exercise; `h` (104) and `H` (72) toggle the notes; `l` (108)
/// and `L` (76) list; `q` (113) and `Q` (81) quit; other bytes mean nothing.
pub open spec fn key_meaning(b: u8) -> Option<InputEvent> {
    if b == 114 || b == 82 || b == 13 || b == 10 {
        Some(InputEvent::Run)
    } else if b == 110 || b == 78 {
        Some(InputEvent::Next)
    } else if b == 104 || b == 72 {
        Some(InputEvent::Hint)
    } else if b == 108 || b == 76 {
        Some(InputEvent::List)
    } else if b == 113 || b == 81 {
        Some(InputEvent::Quit)
    } else {
        None
    }
}

/// The watch keys, by the characters they are: `r`, `R`, carriage return
/// and newline run; `n` and `N` move on; `h` and `H` toggle the notes; `l`
/// and `L` list; `q` and `Q` quit; no other byte means anything.
pub proof fn lemma_watch_keys(b: u8)
    ensures
        key_meaning(b) == Some(InputEvent::Run) <==> (b as int == 'r' as int || b as int == 'R' as int || b as int == '\r' as int || b as int == '\n' as int),
        key_meaning(b) == Some(InputEvent::Next) <==> (b as int == 'n' as int || b as int == 'N' as int),
        key_meaning(b) == Some(InputEvent::Hint) <==> (b as int == 'h' as int || b as int == 'H' as int),
        key_meaning(b) == Some(InputEvent::List) <==> (b as int == 'l' as int || b as int == 'L' as int),
        key_meaning(b) == Some(InputEvent::Quit) <==> (b as int == 'q' as int || b as int == 'Q' as int),
        key_meaning(b) is None <==> !(b as int == 'r' as int || b as int == 'R' as int || b as int == '\r' as int || b as int == '\n' as int
            || b as int == 'n' as int || b as int == 'N' as int || b as int == 'h' as int || b as int == 'H' as int
            || b as int == 'l' as int || b as int == 'L' as int || b as int == 'q' as int || b as int == 'Q' as int),
{
    assert('r' as int == 114 && 'R' as int == 82 && '\r' as int == 13 && '\n' as int == 10);
    assert('n' as int == 110 && 'N' as int == 78 && 'h' as int == 104 && 'H' as int == 72);
    assert('l' as int == 108 && 'L' as int == 76 && 'q' as int == 113 && 'Q' as int == 81);
}

/// Maps one byte read from the terminal to the event it asks for.
pub fn key_event(b: u8) -> (res: Option<InputEvent>)
    ensures
        res == key_meaning(b),
{
    if b == 114 || b == 82 || b == 13 || b == 10 {
        Some(InputEvent::Run)
    } else if b == 110 || b == 78 {
        Some(InputEvent::Next)
    } else if b == 104 || b == 72 {
        Some(InputEvent::Hint)
    } else if b == 108 || b == 76 {
        Some(InputEvent::List)
    } else if b == 113 || b == 81 {
        Some(InputEvent::Quit)
    } else {
        None
    }
}

/// The state of watch mode.
#[derive(Debug)]
pub struct WatchState {
    /// The index of the current exercise.
    pub cur_idx: usize,
    /// Whether the last run of the current exercise passed.
    pub passed: bool,
    /// Whether the current exercise's notes are shown.
    pub show_notes: bool,
    /// The exercises recorded as passed.
    pub done: DoneSet,
}

impl WatchState {
    /// The current exercise exists and is not recorded as passed.
    pub open spec fn inv(&self, root: Seq<Seq<char>>, exercises: Seq<PathParts>) -> bool {
        &&& self.done.wf()
        &&& self.cur_idx < exercises.len()
        &&& !self.done@.contains(keys_of(root, exercises)[self.cur_idx as int])
    }

    /// The state at the start of watch mode: the first exercise not passed
    /// is current, not yet run, with notes hidden. `None` when every
    /// exercise is passed already.
    pub fn start(root: &PathParts, exercises: &[PathParts], done: DoneSet) -> (res: Option<WatchState>)
        requires
            done.wf(),
        ensures
            match first_pending(keys_of(root@, exercises@), done@) {
                None => res is None,
                Some(i) => res matches Some(st) && st.cur_idx == i && !st.passed && !st.show_notes
                    && st.done@ == done@ && st.inv(root@, exercises@),
            },
    {
        proof {
            lemma_first_pending_meaning(keys_of(root@, exercises@), done@);
        }
        match first_pending_idx(root, exercises, &done) {
            None => None,
            Some(i) => Some(WatchState { cur_idx: i, passed: false, show_notes: false, done }),
        }
    }

    /// Takes in the outcome of a run of the current exercise; the notes are
    /// hidden again.
    pub fn record_run(&mut self, ok: bool)
        ensures
            final(self).passed == ok,
            !final(self).show_notes,
            final(self).cur_idx == old(self).cur_idx,
            final(self).done == old(self).done,
    {
        self.passed = ok;
        self.show_notes = false;
    }

    /// Handles one event. `q` quits; `r` runs again; `n` moves on only once
    /// the current exercise passed: it is then recorded and the first
    /// exercise not passed becomes current (or, when none is left, watch
    /// mode finishes); `h` shows or hides the notes; `l` lists the
    /// exercises; a change to a file of the current exercise runs it again,
    /// and other file changes are ignored.
    pub fn step(&mut self, root: &PathParts, exercises: &[PathParts], event: &WatchEvent) -> (action: WatchAction)
        requires
            old(self).inv(root@, exercises@),
        ensures
            final(self).done.wf(),
            action != WatchAction::Finish && action != WatchAction::Quit ==> final(self).inv(root@, exercises@),
            match event {
                WatchEvent::Key(InputEvent::Quit) => action == WatchAction::Quit
                    && *final(self) == *old(self),
                WatchEvent::Key(InputEvent::Run) => action == WatchAction::RunAndRender
                    && *final(self) == *old(self),
                WatchEvent::Key(InputEvent::Hint) => action == WatchAction::Render
                    && final(self).show_notes == !old(self).show_notes
                    && final(self).cur_idx == old(self).cur_idx
                    && final(self).passed == old(self).passed
                    && final(self).done == old(self).done,
                WatchEvent::Key(InputEvent::List) => action == WatchAction::ShowList
                    && *final(self) == *old(self),
                WatchEvent::File(p) => *final(self) == *old(self)
                    && if is_prefix(exercises@[old(self).cur_idx as int]@, p@) {
                        action == WatchAction::RerunAfterBurst
                    } else {
                        action == WatchAction::Ignore
                    },
                WatchEvent::Key(InputEvent::Next) => if !old(self).passed {
                    action == WatchAction::Render && *final(self) == *old(self)
                } else {
                    let keys = keys_of(root@, exercises@);
                    let done = old(self).done@.insert(keys[old(self).cur_idx as int]);
                    &&& final(self).done@ == done
                    &&& final(self).passed == old(self).passed
                    &&& final(self).show_notes == old(self).show_notes
                    &&& match first_pending(keys, done) {
                        None => action == WatchAction::Finish && final(self).cur_idx == old(self).cur_idx,
                        Some(i) => action == WatchAction::Advance && final(self).cur_idx == i,
                    }
                },
            },
    {
        match event {
            WatchEvent::Key(InputEvent::Quit) => WatchAction::Quit,
            WatchEvent::Key(InputEvent::Run) => WatchAction::RunAndRender,
            WatchEvent::Key(InputEvent::Hint) => {
                self.show_notes = !self.show_notes;
                WatchAction::Render
            },
            WatchEvent::Key(InputEvent::List) => WatchAction::ShowList,
            WatchEvent::File(p) => {
                if p.starts_with(&exercises[self.cur_idx]) {
                    WatchAction::RerunAfterBurst
                } else {
                    WatchAction::Ignore
                }
            },
            WatchEvent::Key(InputEvent::Next) => {
                if !self.passed {
                    return WatchAction::Render;
                }
                let key = key_of(root, &exercises[self.cur_idx]);
                self.done.insert(key);
                proof {
                    lemma_first_pending_meaning(keys_of(root@, exercises@), self.done@);
                }
                match first_pending_idx(root, exercises, &self.done) {
                    None => WatchAction::Finish,
                    Some(i) => {
                        self.cur_idx = i;
                        WatchAction::Advance
                    },
                }
            },
        }
    }
}

} // verus!
