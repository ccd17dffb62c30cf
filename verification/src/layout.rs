//! Where the clock and the message go on the screen.

use vstd::prelude::*;

verus! {

/// Widest that the clock is drawn, in columns.
pub const CLOCK_WIDTH: u16 = 126;

/// Width that the clock is centred by, in columns.
pub const CLOCK_SPAN: u16 = 127;

/// Height of the clock, in rows.
pub const CLOCK_HEIGHT: u16 = 5;

/// Widest that the message is drawn, in columns.
pub const MESSAGE_WIDTH: u16 = 60;

/// A rectangle of screen cells: its top left corner and its size.
#[derive(Debug, Clone, Copy, PartialEq, Eq, Structural)]
pub struct Area {
    pub x: u16,
    pub y: u16,
    pub width: u16,
    pub height: u16,
}

/// `a` less `b`, and zero where `b` is the larger.
pub open spec fn less(a: int, b: int) -> int {
    if a >= b {
        a - b
    } else {
        0
    }
}

/// The smaller of `a` and `b`.
pub open spec fn smaller(a: int, b: int) -> int {
    if a <= b {
        a
    } else {
        b
    }
}

impl Area {
    /// The right and bottom edges are coordinates too: they fit a `u16`.
    pub open spec fn fits(self) -> bool {
        self.x + self.width <= u16::MAX && self.y + self.height <= u16::MAX
    }

    /// Every cell of `self` is a cell of `outer`.
    pub open spec fn within(self, outer: Area) -> bool {
        &&& outer.x <= self.x
        &&& outer.y <= self.y
        &&& self.x + self.width <= outer.x + outer.width
        &&& self.y + self.height <= outer.y + outer.height
    }

    /// The rectangle at `x`, `y`, with its width and height cut down as far as
    /// the right and bottom edges need to fit a `u16`.
    pub fn new(x: u16, y: u16, width: u16, height: u16) -> (area: Self)
        ensures
            area.x == x,
            area.y == y,
            area.width == smaller(width as int, u16::MAX - x),
            area.height == smaller(height as int, u16::MAX - y),
            area.fits(),
    {
        rect_new(x, y, width, height)
    }

    /// The first row below the rectangle, or the last row there is where the
    /// rectangle reaches beyond it.
    pub fn bottom(&self) -> (row: u16)
        ensures
            row == smaller(self.y + self.height, u16::MAX as int),
    {
        rect_bottom(*self)
    }
}

/// Makes the rectangle with ratatui's `Rect::new`, which keeps `x` and `y` as
/// they are and replaces the width by `x.saturating_add(width) - x`, that is
/// by the smaller of `width` and `u16::MAX - x`, and the height likewise.
#[verifier::external_body]
fn rect_new(x: u16, y: u16, width: u16, height: u16) -> (area: Area)
    ensures
        area.x == x,
        area.y == y,
        area.width == smaller(width as int, u16::MAX - x),
        area.height == smaller(height as int, u16::MAX - y),
{
    let rect = ratatui::layout::Rect::new(x, y, width, height);
    Area { x: rect.x, y: rect.y, width: rect.width, height: rect.height }
}

/// Asks ratatui's `Rect::bottom`, which is `y.saturating_add(height)`: the
/// sum of the two, or `u16::MAX` where the sum is larger.
#[verifier::external_body]
fn rect_bottom(area: Area) -> (row: u16)
    ensures
        row == smaller(area.y + area.height, u16::MAX as int),
{
    let rect = ratatui::layout::Rect {
        x: area.x,
        y: area.y,
        width: area.width,
        height: area.height,
    };
    rect.bottom()
}

/// Where the clock goes in `area`: centred, at most `CLOCK_WIDTH` columns by
/// `CLOCK_HEIGHT` rows.
pub open spec fn clock_place(area: Area) -> Area {
    Area {
        x: (area.x + less(area.width as int, CLOCK_SPAN as int) / 2) as u16,
        y: (area.y + less(area.height as int, CLOCK_HEIGHT as int) / 2) as u16,
        width: smaller(CLOCK_WIDTH as int, area.width as int) as u16,
        height: smaller(CLOCK_HEIGHT as int, area.height as int) as u16,
    }
}

/// Where the message goes in `area`: centred, at most `MESSAGE_WIDTH` columns
/// wide, from the first row below the clock, and as high as the height of
/// `area` exceeds that row.
pub open spec fn message_place(area: Area) -> Area {
    let below = clock_place(area).y + clock_place(area).height;
    Area {
        x: (area.x + less(area.width as int, MESSAGE_WIDTH as int) / 2) as u16,
        y: below as u16,
        width: smaller(MESSAGE_WIDTH as int, area.width as int) as u16,
        height: less(area.height as int, below) as u16,
    }
}

/// The rectangle for the clock.
pub fn timer_area(area: Area) -> (place: Area)
    requires
        area.fits(),
    ensures
        place == clock_place(area),
        place.fits(),
        place.within(area),
{
    let dx: u16 = if area.width >= CLOCK_SPAN {
        (area.width - CLOCK_SPAN) / 2
    } else {
        0
    };
    let dy: u16 = if area.height >= CLOCK_HEIGHT {
        (area.height - CLOCK_HEIGHT) / 2
    } else {
        0
    };
    let width: u16 = if area.width >= CLOCK_WIDTH {
        CLOCK_WIDTH
    } else {
        area.width
    };
    let height: u16 = if area.height >= CLOCK_HEIGHT {
        CLOCK_HEIGHT
    } else {
        area.height
    };
    Area::new(area.x + dx, area.y + dy, width, height)
}

/// The rectangle for the message.
pub fn message_area(area: Area) -> (place: Area)
    requires
        area.fits(),
    ensures
        place == message_place(area),
        place.fits(),
        place.within(area),
{
    let below = timer_area(area).bottom();
    let dx: u16 = if area.width >= MESSAGE_WIDTH {
        (area.width - MESSAGE_WIDTH) / 2
    } else {
        0
    };
    let width: u16 = if area.width >= MESSAGE_WIDTH {
        MESSAGE_WIDTH
    } else {
        area.width
    };
    let height: u16 = if area.height >= below {
        area.height - below
    } else {
        0
    };
    Area::new(area.x + dx, below, width, height)
}

} // verus!
