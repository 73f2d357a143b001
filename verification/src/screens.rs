//! What the wizard screens compute before drawing: the progress bar text,
//! the key hints of a selection screen, and a centred area.

use vstd::prelude::*;
use crate::selections::SelectionMode;

verus! {

/// The text of a decimal digit.
pub open spec fn digit_text(d: nat) -> Seq<char> {
    if d == 0 {
        "0"@
    } else if d == 1 {
        "1"@
    } else if d == 2 {
        "2"@
    } else if d == 3 {
        "3"@
    } else if d == 4 {
        "4"@
    } else if d == 5 {
        "5"@
    } else if d == 6 {
        "6"@
    } else if d == 7 {
        "7"@
    } else if d == 8 {
        "8"@
    } else {
        "9"@
    }
}

/// The decimal text of `n`.
pub open spec fn decimal(n: nat) -> Seq<char>
    decreases n,
{
    if n < 10 {
        digit_text(n)
    } else {
        decimal(n / 10) + digit_text(n % 10)
    }
}

fn digit(d: u16) -> (r: &'static str)
    requires
        d < 10,
    ensures
        r@ == digit_text(d as nat),
{
    if d == 0 {
        "0"
    } else if d == 1 {
        "1"
    } else if d == 2 {
        "2"
    } else if d == 3 {
        "3"
    } else if d == 4 {
        "4"
    } else if d == 5 {
        "5"
    } else if d == 6 {
        "6"
    } else if d == 7 {
        "7"
    } else if d == 8 {
        "8"
    } else {
        "9"
    }
}

/// Appends the decimal text of `n` to `out`.
fn push_decimal(out: &mut String, n: u16)
    ensures
        final(out)@ == old(out)@ + decimal(n as nat),
    decreases n,
{
    if n < 10 {
        out.append(digit(n));
    } else {
        push_decimal(out, n / 10);
        out.append(digit(n % 10));
    }
}

/// The decimal text of `n`.
pub fn decimal_string(n: u16) -> (r: String)
    ensures
        r@ == decimal(n as nat),
{
    let mut r = String::new();
    push_decimal(&mut r, n);
    r
}

/// `n` copies of `s`, one after the other.
pub open spec fn repeat_text(s: Seq<char>, n: nat) -> Seq<char>
    decreases n,
{
    if n == 0 {
        Seq::empty()
    } else {
        repeat_text(s, (n - 1) as nat) + s
    }
}

/// The number of filled cells of the 40-cell progress bar.
pub open spec fn filled_cells(percent: u16) -> nat {
    (percent as nat * 40) / 100
}

/// The progress line: a 40-cell bar, the percentage and the status.
pub open spec fn spec_progress_bar(percent: u16, status: Seq<char>) -> Seq<char> {
    " ["@ + repeat_text("█"@, filled_cells(percent)) + repeat_text("░"@, (40 - filled_cells(percent)) as nat)
        + "] "@ + decimal(percent as nat) + "% — "@ + status
}

/// The progress line shown while scaffolding: a bar of 40 cells, filled in
/// proportion to `progress_percent`, then the percentage and the status.
pub fn progress_bar(progress_percent: u16, status: &str) -> (r: String)
    requires
        progress_percent as int * 40 / 100 <= 40,
    ensures
        r@ == spec_progress_bar(progress_percent, status@),
{
    let filled = (progress_percent as usize * 40) / 100;
    let empty = 40 - filled;
    let mut r = " [".to_owned();
    let mut i: usize = 0;
    while i < filled
        invariant
            i <= filled,
            r@ == " ["@ + repeat_text("█"@, i as nat),
        decreases filled - i,
    {
        r.append("█");
        i += 1;
    }
    let mut j: usize = 0;
    while j < empty
        invariant
            j <= empty,
            r@ == " ["@ + repeat_text("█"@, filled as nat) + repeat_text("░"@, j as nat),
        decreases empty - j,
    {
        r.append("░");
        assert(r@ =~= " ["@ + repeat_text("█"@, filled as nat) + repeat_text("░"@, (j + 1) as nat));
        j += 1;
    }
    r.append("] ");
    push_decimal(&mut r, progress_percent);
    r.append("% — ");
    r.append(status);
    assert(r@ =~= spec_progress_bar(progress_percent, status@));
    r
}


/// The key hints of a selection screen, by selection mode.
pub open spec fn spec_key_hints(mode: SelectionMode) -> Seq<(Seq<char>, Seq<char>)> {
    match mode {
        SelectionMode::Single => seq![
            ("↑↓"@, "Navigate"@),
            ("Enter"@, "Select & Continue"@),
            ("Space"@, "Select"@),
            ("Esc"@, "Back"@),
            ("q"@, "Quit"@),
        ],
        SelectionMode::OptionalSingle => seq![
            ("↑↓"@, "Navigate"@),
            ("Space"@, "Toggle"@),
            ("Enter"@, "Continue (skip if none)"@),
            ("Esc"@, "Back"@),
            ("q"@, "Quit"@),
        ],
        SelectionMode::Multi => seq![
            ("↑↓"@, "Navigate"@),
            ("Space"@, "Toggle"@),
            ("a"@, "Select All"@),
            ("Enter"@, "Continue (skip if none)"@),
            ("Esc"@, "Back"@),
            ("q"@, "Quit"@),
        ],
    }
}

/// The (key, action) hints shown at the bottom of a selection screen.
pub fn key_hints(mode: SelectionMode) -> (r: Vec<(&'static str, &'static str)>)
    ensures
        r@.map_values(|p: (&'static str, &'static str)| (p.0@, p.1@)) == spec_key_hints(mode),
{
    let mut r: Vec<(&'static str, &'static str)> = Vec::new();
    match mode {
        SelectionMode::Single => {
            r.push(("↑↓", "Navigate"));
            r.push(("Enter", "Select & Continue"));
            r.push(("Space", "Select"));
            r.push(("Esc", "Back"));
            r.push(("q", "Quit"));
        },
        SelectionMode::OptionalSingle => {
            r.push(("↑↓", "Navigate"));
            r.push(("Space", "Toggle"));
            r.push(("Enter", "Continue (skip if none)"));
            r.push(("Esc", "Back"));
            r.push(("q", "Quit"));
        },
        SelectionMode::Multi => {
            r.push(("↑↓", "Navigate"));
            r.push(("Space", "Toggle"));
            r.push(("a", "Select All"));
            r.push(("Enter", "Continue (skip if none)"));
            r.push(("Esc", "Back"));
            r.push(("q", "Quit"));
        },
    }
    assert(r@.map_values(|p: (&'static str, &'static str)| (p.0@, p.1@)) =~= spec_key_hints(mode));
    r
}

/// A rectangle of the terminal, in cells.
#[derive(Clone, Copy, Debug, PartialEq, Eq, Structural)]
pub struct ScreenArea {
    pub x: u16,
    pub y: u16,
    pub width: u16,
    pub height: u16,
}

/// The direction in which an area is split.
#[derive(Clone, Copy, Debug, PartialEq, Eq, Structural)]
pub enum Axis {
    Vertical,
    Horizontal,
}

/// The extent `len` from `start` as ratatui's `Rect::new` keeps it: cut so
/// that the end does not pass `u16::MAX`.
pub open spec fn clamped_extent(start: u16, len: u16) -> int {
    if len > u16::MAX - start {
        u16::MAX - start
    } else {
        len as int
    }
}

/// Where `a` starts along `axis`.
pub open spec fn axis_start(axis: Axis, a: ScreenArea) -> u16 {
    match axis {
        Axis::Vertical => a.y,
        Axis::Horizontal => a.x,
    }
}

/// How far `a` extends along `axis`.
pub open spec fn axis_len(axis: Axis, a: ScreenArea) -> u16 {
    match axis {
        Axis::Vertical => a.height,
        Axis::Horizontal => a.width,
    }
}

/// The other axis.
pub open spec fn across(axis: Axis) -> Axis {
    match axis {
        Axis::Vertical => Axis::Horizontal,
        Axis::Horizontal => Axis::Vertical,
    }
}

/// `cells` is `hundredths` / 100 rounded to the nearest cell.
pub open spec fn rounds_to(cells: int, hundredths: int) -> bool {
    -50 <= 100 * cells - hundredths <= 50
}

/// `part` is the piece of `area` along `axis` that follows `before` percent
/// of it and takes `pct` percent: it spans the area (as `Rect::new` keeps it)
/// across the axis, and along the axis it begins and ends where those
/// percentages of the area's extent fall, rounded to cells, inside the area.
pub open spec fn part_of(axis: Axis, area: ScreenArea, before: int, pct: int, part: ScreenArea) -> bool {
    let s = axis_start(axis, area);
    let w = clamped_extent(s, axis_len(axis, area));
    let p = axis_start(axis, part);
    &&& axis_start(across(axis), part) == axis_start(across(axis), area)
    &&& axis_len(across(axis), part) == clamped_extent(
        axis_start(across(axis), area),
        axis_len(across(axis), area),
    )
    &&& s <= p
    &&& p + axis_len(axis, part) <= s + w
    &&& rounds_to(p as int, 100 * s + w * before)
    &&& rounds_to(p + axis_len(axis, part), 100 * s + w * (before + pct))
}

/// Splits `area` along `axis` into three parts of `first`, `second` and
/// `third` percent with `ratatui::layout::Layout::new` and `Layout::split`
/// (no margin, no spacing, the default `Flex::Start`). Claimed, as the source
/// shows it: the solver must keep every part inside the area and in order,
/// the first spacer empty and (nearly required) the spacers between parts
/// empty; each part's size is a strong constraint of its percentage of the
/// area's extent, which only weaker constraints oppose, so with percentages
/// that fit the parts lie one after the other from the area's start at their
/// percentage sizes. Positions are computed in hundredths of a cell and
/// rounded to cells; across the axis each part spans the area as `Rect::new`
/// keeps it.
#[verifier::external_body]
fn split_three(axis: Axis, first: u16, second: u16, third: u16, area: ScreenArea) -> (r: (
    ScreenArea,
    ScreenArea,
    ScreenArea,
))
    requires
        first + second + third <= 100,
    ensures
        part_of(axis, area, 0, first as int, r.0),
        part_of(axis, area, first as int, second as int, r.1),
        part_of(axis, area, first + second, third as int, r.2),
{
    let direction = match axis {
        Axis::Vertical => ratatui::layout::Direction::Vertical,
        Axis::Horizontal => ratatui::layout::Direction::Horizontal,
    };
    let c = [first, second, third].map(ratatui::layout::Constraint::Percentage);
    let rect = ratatui::layout::Rect::new(area.x, area.y, area.width, area.height);
    let p = ratatui::layout::Layout::new(direction, c).split(rect);
    let part = |i: usize| ScreenArea { x: p[i].x, y: p[i].y, width: p[i].width, height: p[i].height };
    (part(0), part(1), part(2))
}

/// A rectangle centred in `area`, `percent_x` of its width and `percent_y` of
/// its height: the middle of three vertical parts of `(100 - percent_y) / 2`,
/// `percent_y` and `(100 - percent_y) / 2` percent, split likewise across.
/// It lies within `area`, begins after the first `(100 - percent) / 2`
/// percent on each axis, and ends after `percent` more, rounded to cells.
pub fn centered_rect(percent_x: u16, percent_y: u16, area: ScreenArea) -> (r: ScreenArea)
    requires
        percent_x <= 100,
        percent_y <= 100,
    ensures
        ({
            let w = clamped_extent(area.x, area.width);
            let h = clamped_extent(area.y, area.height);
            let ox = (100 - percent_x) / 2;
            let oy = (100 - percent_y) / 2;
            &&& area.x <= r.x && r.x + r.width <= area.x + w
            &&& area.y <= r.y && r.y + r.height <= area.y + h
            &&& rounds_to(r.x as int, 100 * area.x + w * ox)
            &&& rounds_to(r.x + r.width, 100 * area.x + w * (ox + percent_x))
            &&& rounds_to(r.y as int, 100 * area.y + h * oy)
            &&& rounds_to(r.y + r.height, 100 * area.y + h * (oy + percent_y))
        }),
{
    let outer_y = (100 - percent_y) / 2;
    let (_, band, _) = split_three(Axis::Vertical, outer_y, percent_y, outer_y, area);
    let outer_x = (100 - percent_x) / 2;
    let (_, r, _) = split_three(Axis::Horizontal, outer_x, percent_x, outer_x, band);
    r
}

} // verus!
