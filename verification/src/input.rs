//! Input events: what a key press means, and what an event does to a
//! session.

use vstd::prelude::*;
use crate::text::lines_of;
use crate::generator::GenerateError;
use crate::session::{App, AppState, Session};

verus! {

/// What the user asked for.
#[derive(Clone, Copy, Debug, PartialEq, Eq, Structural)]
pub enum InputEvent {
    Character(char),
    Backspace,
    Restart,
    Quit,
}

/// The key of a key press, as far as the session tells keys apart.
#[derive(Clone, Copy, Debug, PartialEq, Eq, Structural)]
pub enum Key {
    Char(char),
    Backspace,
    Esc,
    Other,
}

/// A key press with the modifiers held: `other` stands for any modifier
/// besides shift and control.
#[derive(Clone, Copy, Debug, PartialEq, Eq, Structural)]
pub struct KeyPress {
    pub key: Key,
    pub shift: bool,
    pub control: bool,
    pub other: bool,
}

impl KeyPress {
    /// Whether no modifier is held.
    pub open spec fn plain(self) -> bool {
        !self.shift && !self.control && !self.other
    }

    /// Whether control is held, and nothing else.
    pub open spec fn control_only(self) -> bool {
        !self.shift && self.control && !self.other
    }

    /// Whether shift is held, and nothing else.
    pub open spec fn shift_only(self) -> bool {
        self.shift && !self.control && !self.other
    }

    /// The event that this key press stands for, if any: control with `c`,
    /// or a plain escape, quits; control with `r` restarts; a character,
    /// plain or shifted, is typed; a plain backspace takes one back.
    pub open spec fn meaning(self) -> Option<InputEvent> {
        match self.key {
            Key::Char(c) => if self.control_only() && c == 'c' {
                Some(InputEvent::Quit)
            } else if self.control_only() && c == 'r' {
                Some(InputEvent::Restart)
            } else if self.plain() || self.shift_only() {
                Some(InputEvent::Character(c))
            } else {
                None
            },
            Key::Esc => if self.plain() {
                Some(InputEvent::Quit)
            } else {
                None
            },
            Key::Backspace => if self.plain() {
                Some(InputEvent::Backspace)
            } else {
                None
            },
            Key::Other => None,
        }
    }
}

/// The event that a key press stands for, if any.
pub fn decode_key(press: KeyPress) -> (event: Option<InputEvent>)
    ensures
        event == press.meaning(),
{
    let plain = !press.shift && !press.control && !press.other;
    let control_only = !press.shift && press.control && !press.other;
    let shift_only = press.shift && !press.control && !press.other;
    match press.key {
        Key::Char(c) => {
            if control_only && c == 'c' {
                Some(InputEvent::Quit)
            } else if control_only && c == 'r' {
                Some(InputEvent::Restart)
            } else if plain || shift_only {
                Some(InputEvent::Character(c))
            } else {
                None
            }
        },
        Key::Esc => {
            if plain {
                Some(InputEvent::Quit)
            } else {
                None
            }
        },
        Key::Backspace => {
            if plain {
                Some(InputEvent::Backspace)
            } else {
                None
            }
        },
        Key::Other => None,
    }
}

/// Whether a step from `before` to `after` is the first scored keystroke,
/// at which the clock starts.
pub open spec fn clock_starts(before: Session, after: Session) -> bool {
    before.state == AppState::NotTyping && after.state == AppState::Typing
}

impl App {
    /// Applies one event to the session. A restart draws a new task text
    /// from `words`, and fails on an empty corpus, leaving the session as
    /// it is. The result says whether the clock starts with this event.
    pub fn handle_event(&mut self, event: InputEvent, words: &Vec<Vec<char>>) -> (r: Result<
        bool,
        GenerateError,
    >)
        requires
            old(self).wf(),
        ensures
            final(self).wf(),
            r is Err <==> event == InputEvent::Restart && words.len() == 0,
            r is Err ==> r == Err::<bool, GenerateError>(GenerateError::EmptyCorpus) && final(self)@ == old(self)@,
            r is Ok ==> r->Ok_0 == clock_starts(old(self)@, final(self)@),
            r is Ok ==> match event {
                InputEvent::Character(c) => final(self)@ == old(self)@.after_char(c),
                InputEvent::Backspace => final(self)@ == old(self)@.after_backspace(),
                InputEvent::Restart => final(self)@.exit == old(self)@.exit && final(self)@.fresh_from(lines_of(words@)),
                InputEvent::Quit => final(self)@ == (Session { exit: true, ..old(self)@ }),
            },
    {
        match event {
            InputEvent::Character(c) => {
                let idle = match self.state() {
                    AppState::NotTyping => true,
                    _ => false,
                };
                self.submit_char(c);
                let typing = match self.state() {
                    AppState::Typing => true,
                    _ => false,
                };
                Ok(idle && typing)
            },
            InputEvent::Backspace => {
                self.submit_backspace();
                Ok(false)
            },
            InputEvent::Restart => {
                match self.restart(words) {
                    Ok(_) => Ok(false),
                    Err(_) => Err(GenerateError::EmptyCorpus),
                }
            },
            InputEvent::Quit => {
                self.exit();
                Ok(false)
            },
        }
    }
}

} // verus!
