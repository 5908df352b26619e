//! The file picker shown when no path is given.
use vstd::prelude::*;
use crate::log::scanner::CandidateLog;
use crate::ui::keys::{KeyCode, KeyEvent};

verus! {

pub struct PickerState {
    pub candidates: Vec<CandidateLog>,
    pub cursor: usize,
}

/// What a key press in the picker leads to.
#[derive(Debug, Clone)]
pub enum PickerOutcome {
    Pending,
    Selected(String),
    Cancelled,
}

impl PickerState {
    pub fn new(candidates: Vec<CandidateLog>) -> (r: PickerState)
        ensures
            r.candidates == candidates,
            r.cursor == 0,
    {
        PickerState { candidates, cursor: 0 }
    }

    /// Esc or `q` cancels; Down/`j` and Up/`k` move within the list; Enter
    /// picks the file under the cursor, if there is one.
    pub fn handle_key(&mut self, ev: KeyEvent) -> (r: PickerOutcome)
        ensures
            final(self).candidates == old(self).candidates,
            match ev.code {
                KeyCode::Esc | KeyCode::Char('q') => r is Cancelled && final(self).cursor == old(
                    self,
                ).cursor,
                KeyCode::Down | KeyCode::Char('j') => r is Pending && final(self).cursor == if old(
                    self,
                ).cursor + 1 < old(self).candidates@.len() {
                    (old(self).cursor + 1) as usize
                } else {
                    old(self).cursor
                },
                KeyCode::Up | KeyCode::Char('k') => r is Pending && final(self).cursor == if old(
                    self,
                ).cursor > 0 {
                    (old(self).cursor - 1) as usize
                } else {
                    old(self).cursor
                },
                KeyCode::Enter => final(self).cursor == old(self).cursor && if old(self).cursor
                    < old(self).candidates@.len() {
                    r matches PickerOutcome::Selected(p) && p@ == old(
                        self,
                    ).candidates@[old(self).cursor as int].path@
                } else {
                    r is Pending
                },
                _ => r is Pending && final(self).cursor == old(self).cursor,
            },
    {
        match ev.code {
            KeyCode::Esc | KeyCode::Char('q') => PickerOutcome::Cancelled,
            KeyCode::Down | KeyCode::Char('j') => {
                if self.cursor < self.candidates.len() && self.cursor + 1 < self.candidates.len() {
                    self.cursor = self.cursor + 1;
                }
                PickerOutcome::Pending
            },
            KeyCode::Up | KeyCode::Char('k') => {
                if self.cursor > 0 {
                    self.cursor = self.cursor - 1;
                }
                PickerOutcome::Pending
            },
            KeyCode::Enter => {
                if self.cursor < self.candidates.len() {
                    PickerOutcome::Selected(self.candidates[self.cursor].path.clone())
                } else {
                    PickerOutcome::Pending
                }
            },
            _ => PickerOutcome::Pending,
        }
    }
}

} // verus!
