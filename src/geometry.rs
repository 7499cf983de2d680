use vstd::prelude::*;

use crate::config::{SNAPPING_WIDTH, WINDOW_BORDER_WIDTH};

verus! {

/// An axis-aligned rectangle: origin `(x, y)`, width `w`, height `h`.
#[derive(Clone, Copy, Debug, PartialEq, Eq, Structural)]
pub struct Rect {
    pub x: i32,
    pub y: i32,
    pub w: i32,
    pub h: i32,
}

/// The empty rectangle at the origin.
pub open spec fn empty_rect() -> Rect {
    Rect { x: 0, y: 0, w: 0, h: 0 }
}

impl Rect {
    /// The rectangle at the origin with no extent.
    pub fn empty() -> (r: Rect)
        ensures
            r == empty_rect(),
    {
        Rect { x: 0, y: 0, w: 0, h: 0 }
    }

    /// A rectangle that the display server can describe: a 16-bit signed origin
    /// and a 16-bit unsigned extent.
    pub open spec fn is_screen_rect(self) -> bool {
        &&& i16::MIN <= self.x <= i16::MAX
        &&& i16::MIN <= self.y <= i16::MAX
        &&& 0 <= self.w <= u16::MAX
        &&& 0 <= self.h <= u16::MAX
    }

    /// Whether the point `(x, y)` lies in the half-open region of the rectangle.
    pub open spec fn holds(self, x: int, y: int) -> bool {
        &&& self.x <= x < self.x + self.w
        &&& self.y <= y < self.y + self.h
    }

    pub fn top(&self) -> (r: i32)
        ensures
            r == self.y,
    {
        self.y
    }

    pub fn bottom(&self) -> (r: i32)
        requires
            i32::MIN <= self.y + self.h <= i32::MAX,
        ensures
            r == self.y + self.h,
    {
        self.y + self.h
    }

    pub fn left(&self) -> (r: i32)
        ensures
            r == self.x,
    {
        self.x
    }

    pub fn right(&self) -> (r: i32)
        requires
            i32::MIN <= self.x + self.w <= i32::MAX,
        ensures
            r == self.x + self.w,
    {
        self.x + self.w
    }

    pub fn contains(&self, x: i32, y: i32) -> (r: bool)
        ensures
            r == self.holds(x as int, y as int),
    {
        let right = self.x as i64 + self.w as i64;
        let bottom = self.y as i64 + self.h as i64;
        self.x <= x && (x as i64) < right && self.y <= y && (y as i64) < bottom
    }
}

/// Which part of a monitor's extent, along one axis, a snapped window takes.
#[derive(Clone, Copy, Debug, PartialEq, Eq, Structural)]
pub enum Span {
    /// the first half
    Low,
    /// the second half, which takes the odd pixel
    High,
    /// the whole extent
    Full,
}

/// Start of `span` on an axis that begins at `start` and has length `len`.
pub open spec fn span_start(start: int, len: int, span: Span) -> int {
    match span {
        Span::High => start + len / 2,
        _ => start,
    }
}

/// Length of `span` on an axis of length `len`.
pub open spec fn span_len(len: int, span: Span) -> int {
    match span {
        Span::Low => len / 2,
        Span::High => len - len / 2,
        Span::Full => len,
    }
}

/// The rectangle of a window that fills the given spans of the monitor `mg`,
/// borders included, in absolute coordinates.
pub open spec fn region(mg: Rect, col: Span, row: Span) -> Rect {
    let b = WINDOW_BORDER_WIDTH as int;
    Rect {
        x: span_start(mg.x as int, mg.w as int, col) as i32,
        y: span_start(mg.y as int, mg.h as int, row) as i32,
        w: (span_len(mg.w as int, col) - 2 * b) as i32,
        h: (span_len(mg.h as int, row) - 2 * b) as i32,
    }
}

/// Pointer within the snapping margin of the monitor's left edge.
pub open spec fn near_left(mg: Rect, x: int) -> bool {
    mg.x <= x < mg.x + SNAPPING_WIDTH
}

/// Pointer within the snapping margin of the monitor's right edge.
pub open spec fn near_right(mg: Rect, x: int) -> bool {
    mg.x + mg.w - SNAPPING_WIDTH <= x < mg.x + mg.w
}

/// Pointer within the snapping margin of the monitor's top edge.
pub open spec fn near_top(mg: Rect, y: int) -> bool {
    mg.y <= y < mg.y + SNAPPING_WIDTH
}

/// Pointer within the snapping margin of the monitor's bottom edge.
pub open spec fn near_bottom(mg: Rect, y: int) -> bool {
    mg.y + mg.h - SNAPPING_WIDTH <= y < mg.y + mg.h
}

/// Pointer within the snapping margin of the monitor's center, on both axes.
pub open spec fn near_center(mg: Rect, x: int, y: int) -> bool {
    &&& mg.x + mg.w / 2 - SNAPPING_WIDTH <= x <= mg.x + mg.w / 2 + SNAPPING_WIDTH
    &&& mg.y + mg.h / 2 - SNAPPING_WIDTH <= y <= mg.y + mg.h / 2 + SNAPPING_WIDTH
}

/// The horizontal span picked by the pointer: a left edge before a right edge.
pub open spec fn col_of(mg: Rect, x: int) -> Span {
    if near_left(mg, x) {
        Span::Low
    } else if near_right(mg, x) {
        Span::High
    } else {
        Span::Full
    }
}

/// The vertical span picked by the pointer: a top edge before a bottom edge.
pub open spec fn row_of(mg: Rect, y: int) -> Span {
    if near_top(mg, y) {
        Span::Low
    } else if near_bottom(mg, y) {
        Span::High
    } else {
        Span::Full
    }
}

/// The snap target for a pointer at `(x, y)` over the monitor `mg`: a quarter
/// near a corner, a half near one edge, the whole monitor near its center.
pub open spec fn snap_target(mg: Rect, x: int, y: int) -> Option<Rect> {
    if near_left(mg, x) || near_right(mg, x) || near_top(mg, y) || near_bottom(mg, y)
        || near_center(mg, x, y) {
        Some(region(mg, col_of(mg, x), row_of(mg, y)))
    } else {
        None
    }
}

/// A pointer near a horizontal edge and a vertical edge at once snaps to the
/// quarter of that corner, never to a half.
pub proof fn corner_beats_edge(mg: Rect, x: int, y: int)
    requires
        near_left(mg, x) || near_right(mg, x),
        near_top(mg, y) || near_bottom(mg, y),
    ensures
        snap_target(mg, x, y) == Some(
            region(
                mg,
                if near_left(mg, x) { Span::Low } else { Span::High },
                if near_top(mg, y) { Span::Low } else { Span::High },
            ),
        ),
        col_of(mg, x) != Span::Full,
        row_of(mg, y) != Span::Full,
{
}

/// Computes the snap target of a pointer at `(x, y)` over the monitor region
/// `monitor_geometry`, in absolute coordinates; `None` away from every snap zone.
pub fn snap(monitor_geometry: Rect, x: i32, y: i32) -> (r: Option<Rect>)
    requires
        monitor_geometry.is_screen_rect(),
    ensures
        r == snap_target(monitor_geometry, x as int, y as int),
{
    let mg = monitor_geometry;
    let d = SNAPPING_WIDTH as i32;
    let bwidth = WINDOW_BORDER_WIDTH as i32;

    let left = mg.left() <= x && x < mg.left() + d;
    let right = mg.right() - d <= x && x < mg.right();
    let top = mg.top() <= y && y < mg.top() + d;
    let bottom = mg.bottom() - d <= y && y < mg.bottom();
    let x_center = mg.x + mg.w / 2 - d <= x && x <= mg.x + mg.w / 2 + d;
    let y_center = mg.y + mg.h / 2 - d <= y && y <= mg.y + mg.h / 2 + d;

    let mut geometry = Rect::empty();
    if left && top {
        geometry.x = mg.x;
        geometry.y = mg.y;
        geometry.w = mg.w / 2 - bwidth * 2;
        geometry.h = mg.h / 2 - bwidth * 2;
    } else if left && bottom {
        geometry.x = mg.x;
        geometry.y = mg.y + mg.h / 2;
        geometry.w = mg.w / 2 - bwidth * 2;
        geometry.h = mg.h - mg.h / 2 - bwidth * 2;
    } else if right && top {
        geometry.x = mg.x + mg.w / 2;
        geometry.y = mg.y;
        geometry.w = mg.w - mg.w / 2 - bwidth * 2;
        geometry.h = mg.h / 2 - bwidth * 2;
    } else if right && bottom {
        geometry.x = mg.x + mg.w / 2;
        geometry.y = mg.y + mg.h / 2;
        geometry.w = mg.w - mg.w / 2 - bwidth * 2;
        geometry.h = mg.h - mg.h / 2 - bwidth * 2;
    } else if left {
        geometry.x = mg.x;
        geometry.y = mg.y;
        geometry.w = mg.w / 2 - bwidth * 2;
        geometry.h = mg.h - bwidth * 2;
    } else if right {
        geometry.x = mg.x + mg.w / 2;
        geometry.y = mg.y;
        geometry.w = mg.w - mg.w / 2 - bwidth * 2;
        geometry.h = mg.h - bwidth * 2;
    } else if top {
        geometry.x = mg.x;
        geometry.y = mg.y;
        geometry.w = mg.w - bwidth * 2;
        geometry.h = mg.h / 2 - bwidth * 2;
    } else if bottom {
        geometry.x = mg.x;
        geometry.y = mg.y + mg.h / 2;
        geometry.w = mg.w - bwidth * 2;
        geometry.h = mg.h - mg.h / 2 - bwidth * 2;
    } else if x_center && y_center {
        geometry.x = mg.x;
        geometry.y = mg.y;
        geometry.w = mg.w - bwidth * 2;
        geometry.h = mg.h - bwidth * 2;
    } else {
        return None;
    }

    Some(geometry)
}

} // verus!
