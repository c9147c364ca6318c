//! What the renderer is told: where the parts of the screen lie, and the
//! text of each row.

use crate::icons::{get_icon, icon_of};
use crate::text::append;
use crate::tree::{FlatItem, RowView};
use vstd::prelude::*;

verus! {

/// A rectangle of terminal cells.
#[derive(Debug, Clone, Copy, PartialEq, Eq)]
pub struct Area {
    pub x: u16,
    pub y: u16,
    pub width: u16,
    pub height: u16,
}

/// The menu is never wider than this.
pub const POPUP_MAX_WIDTH: u16 = 60;

/// `a - b`, or zero where `b` is the greater.
pub open spec fn minus(a: int, b: int) -> int {
    if a >= b {
        a - b
    } else {
        0
    }
}

/// The lesser of two numbers.
pub open spec fn least(a: int, b: int) -> int {
    if a <= b {
        a
    } else {
        b
    }
}

/// The part of the screen for the list: all of it but the last row.
pub open spec fn body_of(screen: Area) -> Area {
    Area { height: minus(screen.height as int, 1) as u16, ..screen }
}

/// The part of the screen for the status line: one row at the left edge,
/// as far down as the screen is high less one.
pub open spec fn status_of(screen: Area) -> Area {
    Area { x: 0, y: minus(screen.height as int, 1) as u16, width: screen.width, height: 1 }
}

/// The part of the screen for a menu of `items` items, centred: as wide as
/// the screen less ten columns, but no wider than [`POPUP_MAX_WIDTH`]; as
/// high as its items and its border, but no higher than the screen less
/// four rows. No coordinate is greater than the greatest that a terminal
/// has.
pub open spec fn popup_of(screen: Area, items: nat) -> Area {
    let width = least(minus(screen.width as int, 10), POPUP_MAX_WIDTH as int);
    let height = least((items + 2) as int, minus(screen.height as int, 4));
    Area {
        x: least(screen.x + (screen.width - width) / 2, u16::MAX as int) as u16,
        y: least(screen.y + (screen.height - height) / 2, u16::MAX as int) as u16,
        width: width as u16,
        height: height as u16,
    }
}

/// Where the list is drawn.
pub fn body_area(screen: Area) -> (area: Area)
    ensures
        area == body_of(screen),
{
    Area { x: screen.x, y: screen.y, width: screen.width, height: screen.height.saturating_sub(1) }
}

/// Where the status line is drawn.
pub fn status_area(screen: Area) -> (area: Area)
    ensures
        area == status_of(screen),
{
    Area { x: 0, y: screen.height.saturating_sub(1), width: screen.width, height: 1 }
}

/// Where a menu of `items` items is drawn. On a screen whose right and
/// lower edges are terminal coordinates the menu lies inside the screen.
pub fn popup_area(screen: Area, items: usize) -> (area: Area)
    ensures
        area == popup_of(screen, items as nat),
        screen.x + screen.width <= u16::MAX ==> screen.x <= area.x && area.x + area.width
            <= screen.x + screen.width,
        screen.y + screen.height <= u16::MAX ==> screen.y <= area.y && area.y + area.height
            <= screen.y + screen.height,
{
    let narrowed: u16 = screen.width.saturating_sub(10);
    let width: u16 = if narrowed <= POPUP_MAX_WIDTH {
        narrowed
    } else {
        POPUP_MAX_WIDTH
    };
    let room: u16 = screen.height.saturating_sub(4);
    let height: u16 = if items < room as usize {
        if items + 2 <= room as usize {
            (items + 2) as u16
        } else {
            room
        }
    } else {
        room
    };
    Area {
        x: screen.x.saturating_add((screen.width - width) / 2),
        y: screen.y.saturating_add((screen.height - height) / 2),
        width,
        height,
    }
}

/// `count` spaces.
pub open spec fn spaces(count: nat) -> Seq<char> {
    Seq::new(count, |i: int| ' ')
}

/// The text of a row: two spaces for each level of depth, the icon, a
/// space and the name.
pub open spec fn row_text(row: RowView) -> Seq<char> {
    spaces(2 * row.indent) + icon_of(row.is_dir, row.is_expanded)@ + " "@ + row.name
}

/// The text by which a row is drawn.
pub fn row_label(item: &FlatItem) -> (label: String)
    ensures
        label@ == row_text(item@),
{
    let mut label = String::new();
    let mut level: usize = 0;
    assert(label@ =~= spaces(0));
    while level < item.indent
        invariant
            level <= item.indent,
            label@ == spaces(2 * (level as nat)),
        decreases item.indent - level,
    {
        label.push(' ');
        label.push(' ');
        level += 1;
        assert(label@ =~= spaces(2 * (level as nat)));
    }
    append(&mut label, get_icon(item.is_dir, item.is_expanded));
    append(&mut label, " ");
    append(&mut label, item.name.as_str());
    label
}

} // verus!
