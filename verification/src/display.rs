//! What a frame shows of a session: how each character of the visible
//! window stands against what was typed, and where the parts of the
//! screen lie.

use vstd::prelude::*;
use crate::session::{App, WINDOW_SENTENCES};

verus! {

/// How a character of the visible window stands against what was typed.
#[derive(Clone, Copy, Debug, PartialEq, Eq, Structural)]
pub enum CharClass {
    /// Typed, and as expected.
    Matched,
    /// Typed, and not as expected.
    Mismatched,
    /// The next character to type.
    Cursor,
    /// Not reached yet.
    Pending,
}

/// The class of the character at `i` of `window`, given what was typed.
pub open spec fn class_at(window: Seq<char>, typed: Seq<char>, i: int) -> CharClass {
    if i < typed.len() {
        if window[i] == typed[i] {
            CharClass::Matched
        } else {
            CharClass::Mismatched
        }
    } else if i == typed.len() {
        CharClass::Cursor
    } else {
        CharClass::Pending
    }
}

/// The classes of all characters of `window`.
pub open spec fn classes_of(window: Seq<char>, typed: Seq<char>) -> Seq<CharClass> {
    Seq::new(window.len(), |i: int| class_at(window, typed, i))
}

/// The class of each character of `window`, given what was typed.
pub fn classify(window: &Vec<char>, typed: &Vec<char>) -> (classes: Vec<CharClass>)
    ensures
        classes@ == classes_of(window@, typed@),
{
    let mut classes: Vec<CharClass> = Vec::new();
    let mut i: usize = 0;
    while i < window.len()
        invariant
            i <= window.len(),
            classes.len() == i,
            forall|k: int| 0 <= k < i ==> #[trigger] classes[k] == class_at(window@, typed@, k),
        decreases window.len() - i,
    {
        let class = if i < typed.len() {
            if window[i] == typed[i] {
                CharClass::Matched
            } else {
                CharClass::Mismatched
            }
        } else if i == typed.len() {
            CharClass::Cursor
        } else {
            CharClass::Pending
        };
        classes.push(class);
        i += 1;
    }
    assert(classes@ =~= classes_of(window@, typed@));
    classes
}

impl App {
    /// The class of each character of the visible window.
    pub fn window_classes(&self) -> (classes: Vec<CharClass>)
        ensures
            classes@ == classes_of(self@.window(), self@.typed),
    {
        let window = self.get_visible_sentences();
        classify(&window, self.user_input())
    }

    /// The index behind the last sentence of the visible window.
    pub fn window_end(&self) -> (end: usize)
        ensures
            end == self@.window_end(),
    {
        let start = self.current_sentence_index();
        let total = self.sentence_count();
        if start <= total && total - start >= WINDOW_SENTENCES {
            start + WINDOW_SENTENCES
        } else {
            total
        }
    }
}

/// The widest the centred part of the screen gets, in cells.
pub const MAX_WIDTH: u16 = 62;

/// The rows that the title takes.
pub const TITLE_ROWS: u16 = 6;

/// The rows from the top of the inner area down to the content.
pub const CONTENT_TOP: u16 = 7;

/// A rectangle of screen cells.
#[derive(Clone, Copy, Debug, PartialEq, Eq, Structural)]
pub struct Area {
    pub x: u16,
    pub y: u16,
    pub width: u16,
    pub height: u16,
}

/// The smaller of `a` and `b`.
pub open spec fn least(a: int, b: int) -> int {
    if a < b {
        a
    } else {
        b
    }
}

/// The part of `area` that the exercise is drawn in: at most `MAX_WIDTH`
/// wide, centred from left to right, of the same height.
pub fn centered_area(area: Area) -> (inner: Area)
    requires
        area.x + area.width <= u16::MAX,
    ensures
        inner.width == least(area.width as int, MAX_WIDTH as int),
        inner.x == area.x + (area.width - inner.width) / 2,
        inner.y == area.y,
        inner.height == area.height,
{
    let width: u16 = if area.width < MAX_WIDTH {
        area.width
    } else {
        MAX_WIDTH
    };
    let shift: u16 = (area.width - width) / 2;
    Area { x: area.x + shift, y: area.y, width, height: area.height }
}

/// The rows of `inner` that hold the title: its first `TITLE_ROWS`.
pub fn title_area(inner: Area) -> (title: Area)
    ensures
        title == (Area { height: TITLE_ROWS, ..inner }),
{
    Area { x: inner.x, y: inner.y, width: inner.width, height: TITLE_ROWS }
}

/// The rows of `inner` that hold the text and the figures: what lies
/// `CONTENT_TOP` rows below its top.
pub fn content_area(inner: Area) -> (content: Area)
    requires
        inner.y + CONTENT_TOP <= u16::MAX,
    ensures
        content.x == inner.x,
        content.width == inner.width,
        content.y == inner.y + CONTENT_TOP,
        content.height == (if inner.height >= CONTENT_TOP {
            inner.height - CONTENT_TOP
        } else {
            0
        }),
{
    let height: u16 = if inner.height >= CONTENT_TOP {
        inner.height - CONTENT_TOP
    } else {
        0
    };
    Area { x: inner.x, y: inner.y + CONTENT_TOP, width: inner.width, height }
}

} // verus!
