//! What is drawn. Three panes, a grouped column message layout, and the
//! overlays.
//!
//! Everything here makes lines of styled text; a terminal puts them on the
//! screen.
pub mod clock;
pub mod members;
pub mod messages;
pub mod overlays;
pub mod panes;
pub mod splash;

use ratatui::layout::{Direction, Layout};
use vstd::prelude::*;

use crate::text::{chars_of, repeat, repeated, slice_of};

verus! {

pub const SIDEBAR_WIDTH: u16 = 22;

pub const MEMBERS_WIDTH: u16 = 18;

pub const TIME_WIDTH: usize = 5;

// ---------------------------------------------------------------------------
// text of a fixed width
// ---------------------------------------------------------------------------

/// A text cut or filled up to `width` characters.
pub open spec fn padded(text: Seq<char>, width: nat) -> Seq<char> {
    if text.len() >= width {
        text.take(width as int)
    } else {
        text + repeated(' ', (width - text.len()) as nat)
    }
}

/// A text of at most `width` characters; an ellipsis stands for what is left
/// out.
pub open spec fn truncated(text: Seq<char>, width: nat) -> Seq<char> {
    if text.len() <= width {
        text
    } else if width == 0 {
        seq!['\u{2026}']
    } else {
        text.take(width - 1).push('\u{2026}')
    }
}

pub fn pad(text: &str, width: usize) -> (r: String)
    ensures
        r@ == padded(text@, width as nat),
{
    let chars = chars_of(text);
    if chars.len() >= width {
        let r = slice_of(&chars, 0, width);
        assert(r@ =~= text@.take(width as int));
        r
    } else {
        let mut out = text.to_owned();
        let fill = repeat(' ', width - chars.len());
        out.append(fill.as_str());
        out
    }
}

pub fn truncate(text: &str, width: usize) -> (r: String)
    ensures
        r@ == truncated(text@, width as nat),
{
    let chars = chars_of(text);
    if chars.len() <= width {
        return text.to_owned();
    }
    let keep: usize = if width == 0 {
        0
    } else {
        width - 1
    };
    let mut out = slice_of(&chars, 0, keep);
    out.push('\u{2026}');
    proof {
        assert(text@.subrange(0, keep as int) =~= text@.take(keep as int));
        if width == 0 {
            assert(out@ =~= seq!['\u{2026}']);
        }
    }
    out
}

/// What is padded has exactly the width that was asked for.
pub proof fn padding_fits(text: Seq<char>, width: nat)
    ensures
        padded(text, width).len() == width,
{
}

/// What is truncated is never too wide, for any width at all.
pub proof fn truncation_fits(text: Seq<char>, width: nat)
    requires
        width > 0,
    ensures
        truncated(text, width).len() <= width,
{
}

// ---------------------------------------------------------------------------
// areas
// ---------------------------------------------------------------------------

#[derive(Debug, Clone, Copy, PartialEq, Eq, Structural)]
pub struct Rect {
    pub x: u16,
    pub y: u16,
    pub width: u16,
    pub height: u16,
}

/// How much of an area a part of it takes.
#[derive(Debug, Clone, Copy, PartialEq, Eq, Structural)]
pub enum Constraint {
    Length(u16),
    Min(u16),
}

/// Whether an area ends where the coordinates end, at the latest.
pub open spec fn on_grid(area: Rect) -> bool {
    area.x + area.width <= u16::MAX && area.y + area.height <= u16::MAX
}

/// Whether one area lies in another.
pub open spec fn inside(part: Rect, area: Rect) -> bool {
    &&& area.x <= part.x
    &&& area.y <= part.y
    &&& part.x + part.width <= area.x + area.width
    &&& part.y + part.height <= area.y + area.height
}

/// What the first `n` parts ask for, where those that ask for a minimum get
/// `grown`.
pub open spec fn taken(parts: Seq<Constraint>, n: int, grown: int) -> int
    decreases n,
{
    if n <= 0 {
        0
    } else {
        taken(parts, n - 1, grown) + match parts[n - 1] {
            Constraint::Length(size) => size as int,
            Constraint::Min(_) => grown,
        }
    }
}

/// Whether part `k` can grow, and each of the others asks for a length.
pub open spec fn only_grows(parts: Seq<Constraint>, k: int) -> bool {
    &&& 0 <= k < parts.len()
    &&& parts[k] is Min
    &&& forall|j: int| 0 <= j < parts.len() && j != k ==> (#[trigger] parts[j]) is Length
}

/// Whether exactly one part can grow.
pub open spec fn one_grows(parts: Seq<Constraint>) -> bool {
    exists|k: int| #[trigger] only_grows(parts, k)
}

/// Whether one area ends where the other starts, or before.
pub open spec fn precedes(vertical: bool, a: Rect, b: Rect) -> bool {
    if vertical {
        a.y + a.height <= b.y
    } else {
        a.x + a.width <= b.x
    }
}

/// Whether a part of an area reaches all the way across it.
pub open spec fn reaches_across(vertical: bool, part: Rect, area: Rect) -> bool {
    if vertical {
        part.x == area.x && part.width == area.width
    } else {
        part.y == area.y && part.height == area.height
    }
}

/// Whether exactly one part can grow, and there is room for all that is asked
/// for.
pub open spec fn has_room(parts: Seq<Constraint>, size: int) -> bool {
    exists|k: int| #[trigger]
        only_grows(parts, k) && taken(parts, parts.len() as int, parts[k]->Min_0 as int) <= size
}

/// Part `i` of an area, when there is room for all of them: one behind the
/// other, and the one that can grow takes what the others leave.
pub open spec fn part_of(vertical: bool, parts: Seq<Constraint>, area: Rect, i: int) -> Rect {
    let size = if vertical {
        area.height
    } else {
        area.width
    };
    let grown = size - taken(parts, parts.len() as int, 0);
    let (start, end) = (taken(parts, i, grown), taken(parts, i + 1, grown));
    if vertical {
        Rect { y: (area.y + start) as u16, height: (end - start) as u16, ..area }
    } else {
        Rect { x: (area.x + start) as u16, width: (end - start) as u16, ..area }
    }
}

/// [`ratatui::layout::Layout::split`]: there is one part for each constraint,
/// and all of them lie in the area and reach across it. Where one of them can
/// grow, they stand one behind the other: that nothing comes between two parts
/// outweighs all that an overlap could gain. Where there is room, each part
/// gets the length it asks for, and the one that asks for a minimum takes the
/// rest. Where there is not, which of them gives way is up to its solver, and
/// nothing is claimed of it.
#[verifier::external_body]
fn split(vertical: bool, parts: &Vec<Constraint>, area: Rect) -> (r: Vec<Rect>)
    requires
        on_grid(area),
    ensures
        r@.len() == parts@.len(),
        forall|i: int|
            0 <= i < r@.len() ==> inside(#[trigger] r@[i], area) && reaches_across(
                vertical,
                r@[i],
                area,
            ),
        one_grows(parts@) ==> forall|i: int, j: int|
            0 <= i < j < r@.len() ==> precedes(vertical, #[trigger] r@[i], #[trigger] r@[j]),
        has_room(
            parts@,
            if vertical {
                area.height as int
            } else {
                area.width as int
            },
        ) ==> forall|i: int|
            0 <= i < r@.len() ==> #[trigger] r@[i] == part_of(vertical, parts@, area, i),
{
    let direction = if vertical { Direction::Vertical } else { Direction::Horizontal };
    let parts = parts.iter().map(|part| match part {
        Constraint::Length(n) => ratatui::layout::Constraint::Length(*n),
        Constraint::Min(n) => ratatui::layout::Constraint::Min(*n),
    });
    let whole = ratatui::layout::Rect::new(area.x, area.y, area.width, area.height);
    let areas = Layout::new(direction, parts).split(whole);
    areas.iter().map(|a| Rect { x: a.x, y: a.y, width: a.width, height: a.height }).collect()
}

/// Where everything goes.
#[derive(Debug, Clone, Copy, PartialEq, Eq)]
pub struct Panes {
    pub sidebar: Rect,
    pub header: Rect,
    pub messages: Rect,
    pub input: Rect,
    pub members: Rect,
    pub status: Rect,
}

/// Where everything goes on a screen with room for all of it: a status bar
/// below, and above it the sidebar, the conversation and the members.
pub open spec fn panes_of(area: Rect) -> Panes {
    let (x, y, width, height) = (
        area.x as int,
        area.y as int,
        area.width as int,
        area.height as int,
    );
    let side = SIDEBAR_WIDTH as int;
    let center = width - SIDEBAR_WIDTH - MEMBERS_WIDTH;
    Panes {
        sidebar: rect(x, y, side, height - 1),
        header: rect(x + side, y, center, 1),
        messages: rect(x + side, y + 1, center, height - 4),
        input: rect(x + side, y + height - 3, center, 2),
        members: rect(x + side + center, y, MEMBERS_WIDTH as int, height - 1),
        status: rect(x, y + height - 1, width, 1),
    }
}

pub open spec fn rect(x: int, y: int, width: int, height: int) -> Rect {
    Rect { x: x as u16, y: y as u16, width: width as u16, height: height as u16 }
}

/// Whether everything is where it belongs, on a screen of any size: the status
/// bar below the rest; from left to right the sidebar, the conversation and the
/// members; and in the conversation the header, the messages and the input from
/// top to bottom.
pub open spec fn arranged(p: Panes, area: Rect) -> bool {
    &&& p.status.x == area.x && p.status.width == area.width
    &&& precedes(true, p.sidebar, p.status)
    &&& p.members.y == p.sidebar.y && p.members.height == p.sidebar.height
    &&& precedes(false, p.sidebar, p.header)
    &&& precedes(false, p.header, p.members)
    &&& p.messages.x == p.header.x && p.messages.width == p.header.width
    &&& p.input.x == p.header.x && p.input.width == p.header.width
    &&& p.sidebar.y <= p.header.y
    &&& precedes(true, p.header, p.messages)
    &&& precedes(true, p.messages, p.input)
    &&& p.input.y + p.input.height <= p.sidebar.y + p.sidebar.height
}

/// Divide the screen.
pub fn panes(area: Rect) -> (r: Panes)
    requires
        on_grid(area),
    ensures
        inside(r.sidebar, area),
        inside(r.header, area),
        inside(r.messages, area),
        inside(r.input, area),
        inside(r.members, area),
        inside(r.status, area),
        arranged(r, area),
        area.width >= SIDEBAR_WIDTH + 24 + MEMBERS_WIDTH && area.height >= 5 ==> r == panes_of(
            area,
        ),
{
    let outer: Vec<Constraint> = vec![Constraint::Min(1), Constraint::Length(1)];
    let rows = split(true, &outer, area);
    let across: Vec<Constraint> = vec![
        Constraint::Length(SIDEBAR_WIDTH),
        Constraint::Min(24),
        Constraint::Length(MEMBERS_WIDTH),
    ];
    let body = rows[0];
    let columns = split(false, &across, body);
    let inner: Vec<Constraint> = vec![
        Constraint::Length(1),
        Constraint::Min(1),
        Constraint::Length(2),
    ];
    let middle = columns[1];
    let center = split(true, &inner, middle);
    proof {
        assert(only_grows(outer@, 0));
        assert(only_grows(across@, 1));
        assert(only_grows(inner@, 1));
        assert(precedes(true, rows@[0], rows@[1]));
        assert(precedes(false, columns@[0], columns@[1]));
        assert(precedes(false, columns@[1], columns@[2]));
        assert(precedes(true, center@[0], center@[1]));
        assert(precedes(true, center@[1], center@[2]));
        if area.width >= SIDEBAR_WIDTH + 24 + MEMBERS_WIDTH && area.height >= 5 {
            reveal_with_fuel(taken, 4);
            assert(has_room(outer@, area.height as int));
            assert(rows[0] == part_of(true, outer@, area, 0));
            assert(rows[1] == part_of(true, outer@, area, 1));
            assert(body == rect(area.x as int, area.y as int, area.width as int, area.height - 1));
            assert(has_room(across@, body.width as int));
            assert(columns[0] == part_of(false, across@, body, 0));
            assert(columns[1] == part_of(false, across@, body, 1));
            assert(columns[2] == part_of(false, across@, body, 2));
            assert(has_room(inner@, middle.height as int));
            assert(center[0] == part_of(true, inner@, middle, 0));
            assert(center[1] == part_of(true, inner@, middle, 1));
            assert(center[2] == part_of(true, inner@, middle, 2));
        }
    }
    Panes {
        sidebar: columns[0],
        header: center[0],
        messages: center[1],
        input: center[2],
        members: columns[2],
        status: rows[1],
    }
}

/// The query line of the switcher, and its list.
pub fn switcher_panes(inner: Rect) -> (r: (Rect, Rect))
    requires
        on_grid(inner),
    ensures
        inside(r.0, inner),
        inside(r.1, inner),
        reaches_across(true, r.0, inner),
        reaches_across(true, r.1, inner),
        precedes(true, r.0, r.1),
        inner.height >= 3 ==> r.0 == (Rect { height: 2, ..inner }) && r.1 == (Rect {
            y: (inner.y + 2) as u16,
            height: (inner.height - 2) as u16,
            ..inner
        }),
{
    let parts: Vec<Constraint> = vec![Constraint::Length(2), Constraint::Min(1)];
    let areas = split(true, &parts, inner);
    proof {
        assert(only_grows(parts@, 1));
        assert(precedes(true, areas@[0], areas@[1]));
        if inner.height >= 3 {
            reveal_with_fuel(taken, 3);
            assert(has_room(parts@, inner.height as int));
            assert(areas[0] == part_of(true, parts@, inner, 0));
            assert(areas[1] == part_of(true, parts@, inner, 1));
        }
    }
    (areas[0], areas[1])
}

pub open spec fn smaller(a: u16, b: int) -> int {
    if b <= 0 {
        0
    } else if a < b {
        a as int
    } else {
        b
    }
}

/// An area of this size in the middle of another, or as much of it as leaves a
/// margin. It never leaves the other.
pub fn centered(area: Rect, width: u16, height: u16) -> (r: Rect)
    requires
        on_grid(area),
    ensures
        r.width == smaller(width, area.width - 2),
        r.height == smaller(height, area.height - 2),
        r.x == area.x + (area.width - r.width) / 2,
        r.y == area.y + (area.height - r.height) / 2,
        inside(r, area),
{
    let room: u16 = area.width.saturating_sub(2);
    let width: u16 = if width < room {
        width
    } else {
        room
    };
    let tall: u16 = area.height.saturating_sub(2);
    let height: u16 = if height < tall {
        height
    } else {
        tall
    };
    Rect {
        x: area.x + (area.width - width) / 2,
        y: area.y + (area.height - height) / 2,
        width,
        height,
    }
}

/// What is padded begins with the text, as far as it fits, and is filled up
/// with blanks; what is truncated is the text itself if it fits, and otherwise
/// the beginning of it and an ellipsis.
pub proof fn texts_are_kept_from_the_front(text: Seq<char>, width: nat)
    ensures
        text.len() <= width ==> padded(text, width).take(text.len() as int) == text,
        text.len() > width ==> padded(text, width) == text.take(width as int),
        forall|i: int| text.len() <= i < width ==> #[trigger] padded(text, width)[i] == ' ',
        text.len() <= width ==> truncated(text, width) == text,
        0 < width < text.len() ==> truncated(text, width).len() == width && truncated(
            text,
            width,
        ).last() == '\u{2026}' && truncated(text, width).drop_last() == text.take(width - 1),
{
    if text.len() <= width {
        assert(padded(text, width).take(text.len() as int) =~= text);
    }
    if 0 < width < text.len() {
        assert(truncated(text, width).drop_last() =~= text.take(width - 1));
    }
}

/// On a screen with room for everything no two panes share a cell, together
/// they fill the screen, and the conversation gets what the sides leave.
pub proof fn panes_fill_the_screen(area: Rect)
    requires
        on_grid(area),
        area.width >= SIDEBAR_WIDTH + 24 + MEMBERS_WIDTH,
        area.height >= 5,
    ensures
        ({
            let p = panes_of(area);
            &&& p.sidebar.width + p.messages.width + p.members.width == area.width
            &&& p.header.height + p.messages.height + p.input.height + p.status.height
                == area.height
            &&& p.sidebar.x == area.x && p.header.x == p.sidebar.x + p.sidebar.width && p.members.x
                == p.header.x + p.header.width
            &&& p.header.y == area.y && p.messages.y == p.header.y + p.header.height && p.input.y
                == p.messages.y + p.messages.height && p.status.y == p.input.y + p.input.height
            &&& p.status.width == area.width && p.status.height == 1 && p.header.height == 1
            &&& p.messages.height >= 1
        }),
{
}

/// On a screen of any size no two panes share a cell.
pub proof fn panes_do_not_overlap(p: Panes, area: Rect, x: int, y: int)
    requires
        arranged(p, area),
    ensures
        ({
            let at = |a: Rect| a.x <= x < a.x + a.width && a.y <= y < a.y + a.height;
            &&& at(p.sidebar) ==> !at(p.header) && !at(p.messages) && !at(p.input) && !at(p.members)
                && !at(p.status)
            &&& at(p.header) ==> !at(p.messages) && !at(p.input) && !at(p.members) && !at(p.status)
            &&& at(p.messages) ==> !at(p.input) && !at(p.members) && !at(p.status)
            &&& at(p.input) ==> !at(p.members) && !at(p.status)
            &&& at(p.members) ==> !at(p.status)
        }),
{
}

/// What is put in the middle is as large as it wants to be, where a margin of
/// one cell is left on each side, and else as large as that margin lets it be.
pub proof fn a_margin_is_left(wanted: u16, room: u16)
    ensures
        wanted + 2 <= room ==> smaller(wanted, room - 2) == wanted,
        wanted + 2 > room >= 2 ==> smaller(wanted, room - 2) == room - 2,
        room < 2 ==> smaller(wanted, room - 2) == 0,
{
}

} // verus!
