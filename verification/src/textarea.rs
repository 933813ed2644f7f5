//! The multi-line inputs of the entry form: `tui_textarea`'s text areas, which
//! do the editing, reached through a few calls.
use vstd::prelude::*;

use tui_textarea::TextArea;

verus! {

/// A multi-line input: a `tui_textarea` text area, kept out of view of the
/// verifier, which reaches it only through the calls below.
#[verifier::external_body]
pub struct TextInput {
    area: TextArea<'static>,
}

/// The keys that a text area is given.
#[derive(Debug, Clone, Copy, PartialEq, Eq, Structural)]
pub enum TextKey {
    Char(char),
    Enter,
    Backspace,
    Delete,
    Left,
    Right,
    Up,
    Down,
    Home,
    End,
}

/// The lines a text area holds.
pub uninterp spec fn area_lines(t: TextInput) -> Seq<Seq<char>>;

/// Where a text area's cursor stands: row and column, counted in characters
/// from 0.
pub uninterp spec fn area_cursor_at(t: TextInput) -> (usize, usize);

/// The lines a text area holds after it is given a key with the modifiers held
/// (Ctrl, Alt, Shift); the editing is the text area's.
pub uninterp spec fn lines_after_key(t: TextInput, key: TextKey, ctrl: bool, alt: bool, shift: bool) -> Seq<
    Seq<char>,
>;

impl TextInput {
    /// A text area holding `lines`, or one empty line where there are none.
    pub fn from_lines(lines: Vec<String>) -> (r: TextInput)
        ensures
            area_lines(r) == if lines@.len() == 0 {
                seq![Seq::<char>::empty()]
            } else {
                lines_view(lines@)
            },
            area_cursor_at(r) == (0usize, 0usize),
    {
        area_new(lines)
    }

    /// The lines it holds.
    pub fn lines(&self) -> (r: Vec<String>)
        ensures
            lines_view(r@) == area_lines(*self),
    {
        area_text_lines(self)
    }

    /// Where its cursor stands: row and column.
    pub fn cursor(&self) -> (r: (usize, usize))
        ensures
            r == area_cursor_at(*self),
    {
        area_cursor(self)
    }

    /// Gives it a key with the modifiers held; it edits its lines as a text area
    /// does.
    pub fn input(&mut self, key: TextKey, ctrl: bool, alt: bool, shift: bool)
        ensures
            area_lines(*final(self)) == lines_after_key(*old(self), key, ctrl, alt, shift),
    {
        area_input(self, key, ctrl, alt, shift)
    }
}

/// The views of lines.
pub open spec fn lines_view(lines: Seq<String>) -> Seq<Seq<char>> {
    lines.map_values(|l: String| l@)
}

/// `TextArea::new`: a text area holding the lines, or one empty line where
/// there are none, with the cursor at the start.
#[verifier::external_body]
pub(crate) fn area_new(lines: Vec<String>) -> (r: TextInput)
    ensures
        area_lines(r) == if lines@.len() == 0 {
            seq![Seq::<char>::empty()]
        } else {
            lines_view(lines@)
        },
        area_cursor_at(r) == (0usize, 0usize),
{
    TextInput { area: TextArea::new(lines) }
}

/// `TextArea::lines`: the lines it holds, copied.
#[verifier::external_body]
pub(crate) fn area_text_lines(t: &TextInput) -> (r: Vec<String>)
    ensures
        lines_view(r@) == area_lines(*t),
{
    t.area.lines().to_vec()
}

/// `TextArea::cursor`: the cursor's row and column, in characters (the value is
/// only named here, as it follows the text area's own editing).
#[verifier::external_body]
pub(crate) fn area_cursor(t: &TextInput) -> (r: (usize, usize))
    ensures
        r == area_cursor_at(*t),
{
    t.area.cursor()
}

/// `TextArea::input` with a key and its modifiers: the text area edits itself.
/// What the lines become is named, as it depends on the text area's cursor and
/// history.
#[verifier::external_body]
pub(crate) fn area_input(t: &mut TextInput, key: TextKey, ctrl: bool, alt: bool, shift: bool)
    ensures
        area_lines(*final(t)) == lines_after_key(*old(t), key, ctrl, alt, shift),
{
    let key = match key {
        TextKey::Char(c) => tui_textarea::Key::Char(c),
        TextKey::Enter => tui_textarea::Key::Enter,
        TextKey::Backspace => tui_textarea::Key::Backspace,
        TextKey::Delete => tui_textarea::Key::Delete,
        TextKey::Left => tui_textarea::Key::Left,
        TextKey::Right => tui_textarea::Key::Right,
        TextKey::Up => tui_textarea::Key::Up,
        TextKey::Down => tui_textarea::Key::Down,
        TextKey::Home => tui_textarea::Key::Home,
        TextKey::End => tui_textarea::Key::End,
    };
    t.area.input(tui_textarea::Input { key, ctrl, alt, shift });
}

} // verus!
