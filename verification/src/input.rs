//! Input events, as plain values: what the terminal reports of the keyboard
//! and the mouse, with what the state machine needs beside it.

use crate::text::{append, decimal, to_decimal};
use vstd::prelude::*;

verus! {

/// The keys that the browser tells apart.
#[derive(Debug, Clone, Copy, PartialEq, Eq)]
pub enum KeyCode {
    Char(char),
    Esc,
    Enter,
    Up,
    Down,
    Left,
    Right,
    /// Any other key.
    Other,
}

/// What happened to a key.
#[derive(Debug, Clone, Copy, PartialEq, Eq)]
pub enum KeyEventKind {
    Press,
    Repeat,
    Release,
}

/// A mouse button.
#[derive(Debug, Clone, Copy, PartialEq, Eq)]
pub enum MouseButton {
    Left,
    Right,
    Middle,
}

/// What the mouse did.
#[derive(Debug, Clone, Copy, PartialEq, Eq)]
pub enum MouseEventKind {
    Down(MouseButton),
    Up(MouseButton),
    Drag(MouseButton),
    Moved,
    ScrollDown,
    ScrollUp,
    ScrollLeft,
    ScrollRight,
}

/// A mouse event and the cell of the terminal where it happened.
#[derive(Debug, Clone, Copy, PartialEq, Eq)]
pub struct MouseEvent {
    pub kind: MouseEventKind,
    pub column: u16,
    pub row: u16,
}

/// One input event.
#[derive(Debug, Clone, Copy, PartialEq, Eq)]
pub enum InputEvent {
    /// A key event.
    Key { code: KeyCode, kind: KeyEventKind },
    /// A mouse event, with the height of the terminal in rows and the time
    /// in milliseconds, on a clock that never runs backwards, at which the
    /// event was read.
    Mouse { event: MouseEvent, terminal_height: u16, at_millis: u64 },
    /// The terminal changed its size.
    Resize,
    /// Anything else.
    Other,
}

/// The name of a mouse button.
pub open spec fn button_name(button: MouseButton) -> Seq<char> {
    match button {
        MouseButton::Left => "Left"@,
        MouseButton::Right => "Right"@,
        MouseButton::Middle => "Middle"@,
    }
}

/// The words ` at (column, row)`.
pub open spec fn position_text(column: u16, row: u16) -> Seq<char> {
    " at ("@ + decimal(column as nat) + ", "@ + decimal(row as nat) + ")"@
}

/// A mouse event in words: what happened, with which button where one is
/// involved, and where. Sideways scrolling is not described.
pub open spec fn mouse_description(m: MouseEvent) -> Seq<char> {
    match m.kind {
        MouseEventKind::Down(b) => "Mouse Down "@ + button_name(b) + position_text(m.column, m.row),
        MouseEventKind::Up(b) => "Mouse Up "@ + button_name(b) + position_text(m.column, m.row),
        MouseEventKind::Drag(b) => "Mouse Drag "@ + button_name(b) + position_text(
            m.column,
            m.row,
        ),
        MouseEventKind::Moved => "Mouse Move"@ + position_text(m.column, m.row),
        MouseEventKind::ScrollUp => "Mouse ScrollUp"@ + position_text(m.column, m.row),
        MouseEventKind::ScrollDown => "Mouse ScrollDown"@ + position_text(m.column, m.row),
        _ => "Unknown mouse event"@,
    }
}

/// The name of a mouse button.
fn name_of(button: MouseButton) -> (name: &'static str)
    ensures
        name@ == button_name(button),
{
    match button {
        MouseButton::Left => "Left",
        MouseButton::Right => "Right",
        MouseButton::Middle => "Middle",
    }
}

/// Appends the words ` at (column, row)` to `text`.
fn append_position(text: &mut String, column: u16, row: u16)
    ensures
        final(text)@ == old(text)@ + position_text(column, row),
{
    let ghost before = text@;
    append(text, " at (");
    append(text, to_decimal(column).as_str());
    append(text, ", ");
    append(text, to_decimal(row).as_str());
    append(text, ")");
    assert(text@ =~= before + position_text(column, row));
}

/// Describes a mouse event in words, for the status line.
pub fn describe_mouse(m: MouseEvent) -> (text: String)
    ensures
        text@ == mouse_description(m),
{
    let (what, button): (&str, Option<MouseButton>) = match m.kind {
        MouseEventKind::Down(b) => ("Mouse Down ", Some(b)),
        MouseEventKind::Up(b) => ("Mouse Up ", Some(b)),
        MouseEventKind::Drag(b) => ("Mouse Drag ", Some(b)),
        MouseEventKind::Moved => ("Mouse Move", None),
        MouseEventKind::ScrollUp => ("Mouse ScrollUp", None),
        MouseEventKind::ScrollDown => ("Mouse ScrollDown", None),
        _ => {
            return "Unknown mouse event".to_owned();
        },
    };
    let mut text: String = what.to_owned();
    match button {
        Some(b) => {
            append(&mut text, name_of(b));
        },
        None => {},
    }
    append_position(&mut text, m.column, m.row);
    text
}

} // verus!
