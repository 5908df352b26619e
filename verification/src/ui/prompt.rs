//! The date-range question asked before loading a large file.
use vstd::prelude::*;
use crate::time::Timestamp;
use crate::ui::app::{drop_last_if_any, mv};
use crate::ui::daterange::{
    custom_range, preset_range, presets, reference_ok, CustomField, DateBound, DateRangeModal, Mode,
    Preset,
};
use crate::ui::keys::{KeyCode, KeyEvent};

verus! {

/// Files at least this large are asked about first.
pub const LARGE_FILE_BYTES: u64 = 100 * 1024 * 1024;

/// Whether to ask for a date range before loading: a large file, no bound
/// given, and loading everything not asked for.
pub fn needs_prompt(size: u64, has_from: bool, has_to: bool, all: bool) -> (r: bool)
    ensures
        r == (size >= LARGE_FILE_BYTES && !has_from && !has_to && !all),
{
    size >= LARGE_FILE_BYTES && !has_from && !has_to && !all
}

/// How the question ends, or that it goes on.
#[derive(Debug, Clone, Copy)]
pub enum PromptOutcome {
    Pending,
    Cancelled,
    Apply(DateBound, DateBound),
}

/// A key press on the question. On the presets: Esc or `q` cancels, `a`
/// loads everything, Up/`k` and Down/`j` move, Enter opens the custom form
/// on "Custom" and otherwise answers with the preset's range seen from
/// `reference`. On the custom form: Esc goes back, Tab/BackTab/Up/Down
/// switch input, Enter answers with the typed range when it reads (else the
/// form shows why not), Backspace and characters edit.
pub open spec fn prompt_step(
    m0: DateRangeModal,
    key: KeyEvent,
    reference: Timestamp,
    m1: DateRangeModal,
    out: PromptOutcome,
) -> bool {
    let m = mv(m0);
    match m0.mode {
        Mode::Presets => match key.code {
            KeyCode::Esc | KeyCode::Char('q') => out is Cancelled && m1 == m0,
            KeyCode::Char('a') => out == PromptOutcome::Apply(None, None) && m1 == m0,
            KeyCode::Up | KeyCode::Char('k') => out is Pending && mv(m1) == (
                if m.0 > 0 {
                    (m.0 - 1) as usize
                } else {
                    m.0
                },
                m.1,
                m.2,
                m.3,
                m.4,
                m.5,
            ),
            KeyCode::Down | KeyCode::Char('j') => out is Pending && mv(m1) == (
                if m.0 + 1 < 6 {
                    (m.0 + 1) as usize
                } else {
                    m.0
                },
                m.1,
                m.2,
                m.3,
                m.4,
                m.5,
            ),
            KeyCode::Enter => {
                let p = presets()[m.0 as int];
                if p == Preset::Custom {
                    out is Pending && mv(m1) == (
                        m.0,
                        Mode::Custom,
                        CustomField::From,
                        m.3,
                        m.4,
                        None::<Seq<char>>,
                    )
                } else {
                    out == PromptOutcome::Apply(preset_range(p, reference).0, preset_range(p, reference).1)
                        && m1 == m0
                }
            },
            _ => out is Pending && m1 == m0,
        },
        Mode::Custom => match key.code {
            KeyCode::Esc => out is Pending && mv(m1) == (m.0, Mode::Presets, m.2, m.3, m.4, None::<Seq<char>>),
            KeyCode::Tab | KeyCode::BackTab | KeyCode::Up | KeyCode::Down => out is Pending && mv(m1) == (
                m.0,
                m.1,
                match m.2 {
                    CustomField::From => CustomField::To,
                    CustomField::To => CustomField::From,
                },
                m.3,
                m.4,
                m.5,
            ),
            KeyCode::Enter => match custom_range(m.3, m.4) {
                Ok(range) => out == PromptOutcome::Apply(range.0, range.1) && mv(m1) == (
                    m.0,
                    m.1,
                    m.2,
                    m.3,
                    m.4,
                    None::<Seq<char>>,
                ),
                Err(msg) => out is Pending && mv(m1) == (m.0, m.1, m.2, m.3, m.4, Some(msg)),
            },
            KeyCode::Backspace => out is Pending && mv(m1) == (
                m.0,
                m.1,
                m.2,
                if m.2 == CustomField::From {
                    drop_last_if_any(m.3)
                } else {
                    m.3
                },
                if m.2 == CustomField::To {
                    drop_last_if_any(m.4)
                } else {
                    m.4
                },
                None::<Seq<char>>,
            ),
            KeyCode::Char(c) => out is Pending && mv(m1) == (
                m.0,
                m.1,
                m.2,
                if m.2 == CustomField::From {
                    m.3.push(c)
                } else {
                    m.3
                },
                if m.2 == CustomField::To {
                    m.4.push(c)
                } else {
                    m.4
                },
                None::<Seq<char>>,
            ),
            _ => out is Pending && m1 == m0,
        },
    }
}

/// Handles a key press on the question.
pub fn prompt_key(modal: &mut DateRangeModal, key: KeyEvent, reference: Timestamp) -> (out: PromptOutcome)
    requires
        old(modal).wf(),
        reference_ok(reference),
    ensures
        final(modal).wf(),
        prompt_step(*old(modal), key, reference, *final(modal), out),
{
    match modal.mode {
        Mode::Presets => match key.code {
            KeyCode::Esc | KeyCode::Char('q') => PromptOutcome::Cancelled,
            KeyCode::Char('a') => PromptOutcome::Apply(None, None),
            KeyCode::Up | KeyCode::Char('k') => {
                modal.up();
                PromptOutcome::Pending
            },
            KeyCode::Down | KeyCode::Char('j') => {
                modal.down();
                PromptOutcome::Pending
            },
            KeyCode::Enter => {
                let p = modal.selected();
                if p == Preset::Custom {
                    modal.enter_custom();
                    PromptOutcome::Pending
                } else {
                    let (from, to) = p.range(reference);
                    PromptOutcome::Apply(from, to)
                }
            },
            _ => PromptOutcome::Pending,
        },
        Mode::Custom => match key.code {
            KeyCode::Esc => {
                modal.exit_custom();
                PromptOutcome::Pending
            },
            KeyCode::Tab | KeyCode::BackTab | KeyCode::Up | KeyCode::Down => {
                modal.toggle_field();
                PromptOutcome::Pending
            },
            KeyCode::Enter => match modal.parse_custom() {
                Some((from, to)) => PromptOutcome::Apply(from, to),
                None => PromptOutcome::Pending,
            },
            KeyCode::Backspace => {
                modal.backspace();
                PromptOutcome::Pending
            },
            KeyCode::Char(c) => {
                modal.push(c);
                PromptOutcome::Pending
            },
            _ => PromptOutcome::Pending,
        },
    }
}

} // verus!
