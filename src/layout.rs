use vstd::prelude::*;

use crate::config::WINDOW_BORDER_WIDTH;
use crate::geometry::Rect;

verus! {

/// Left end of the `k`-th of `n` columns that share a width `w`, relative to the monitor.
pub open spec fn column_x(w: int, n: int, k: int) -> int {
    (w / n) * k
}

/// Width of the `k`-th of `n` columns, borders included: `w / n` for all but
/// the last, which takes what remains.
pub open spec fn column_w(w: int, n: int, k: int) -> int {
    if k < n - 1 {
        w / n
    } else {
        w - (n - 1) * (w / n)
    }
}

/// Geometry of the `k`-th of `n` tiled windows on a monitor of width `w` and
/// height `h`, relative to the monitor and without the borders.
pub open spec fn tile_rect(w: int, h: int, n: int, k: int) -> Rect {
    let b = WINDOW_BORDER_WIDTH as int;
    Rect {
        x: column_x(w, n, k) as i32,
        y: 0,
        w: (column_w(w, n, k) - 2 * b) as i32,
        h: (h - 2 * b) as i32,
    }
}

pub proof fn column_bounds(w: int, n: int, k: int)
    requires
        0 <= w,
        0 <= k < n,
    ensures
        0 <= (w / n) * k <= (w / n) * (n - 1),
        (w / n) * (n - 1) + (w / n) <= w,
        (n - 1) * (w / n) == (w / n) * (n - 1),
        0 <= w / n <= w,
        column_w(w, n, k) >= 0,
{
    assert(0 <= w / n) by (nonlinear_arith)
        requires 0 <= w, 0 < n;
    assert((w / n) * n <= w) by (nonlinear_arith)
        requires 0 <= w, 0 < n;
    assert(w / n <= w) by (nonlinear_arith)
        requires 0 <= w, 0 < n;
    assert(0 <= (w / n) * k <= (w / n) * (n - 1)) by (nonlinear_arith)
        requires 0 <= w / n, 0 <= k <= n - 1;
    assert((w / n) * (n - 1) + (w / n) == (w / n) * n) by (nonlinear_arith);
    assert((n - 1) * (w / n) == (w / n) * (n - 1)) by (nonlinear_arith);
}

/// Tiled columns are laid side by side from the monitor's left edge to its
/// right edge: none overlaps another, together they cover `[0, w)`, all but the
/// last are `w / n` wide and the last takes the remainder.
pub proof fn tiling_partition(w: int, n: int)
    requires
        0 <= w,
        1 <= n,
    ensures
        column_x(w, n, 0) == 0,
        column_x(w, n, n - 1) + column_w(w, n, n - 1) == w,
        forall|k: int| 0 <= k < n ==> column_w(w, n, k) >= 0,
        forall|k: int| 0 <= k < n - 1 ==> #[trigger] column_w(w, n, k) == w / n,
        column_w(w, n, n - 1) == w - (n - 1) * (w / n),
        forall|k: int|
            0 <= k < n - 1 ==> #[trigger] column_x(w, n, k) + column_w(w, n, k) == column_x(
                w,
                n,
                k + 1,
            ),
        forall|j: int, k: int|
            0 <= j < k < n ==> #[trigger] column_x(w, n, j) + column_w(w, n, j)
                <= #[trigger] column_x(w, n, k),
{
    column_bounds(w, n, 0);
    assert forall|k: int| 0 <= k < n implies column_w(w, n, k) >= 0 by {
        column_bounds(w, n, k);
    }
    assert forall|k: int| 0 <= k < n - 1 implies #[trigger] column_x(w, n, k) + column_w(w, n, k)
        == column_x(w, n, k + 1) by {
        assert((w / n) * k + (w / n) == (w / n) * (k + 1)) by (nonlinear_arith);
    }
    assert forall|j: int, k: int| 0 <= j < k < n implies #[trigger] column_x(w, n, j) + column_w(
        w,
        n,
        j,
    ) <= #[trigger] column_x(w, n, k) by {
        column_bounds(w, n, 0);
        assert((w / n) * j + (w / n) == (w / n) * (j + 1)) by (nonlinear_arith);
        assert((w / n) * (j + 1) <= (w / n) * k) by (nonlinear_arith)
            requires 0 <= w / n, j + 1 <= k;
    }
}

/// Geometry of the `k`-th of `n` windows tiled side by side on a monitor of
/// width `width` and height `height`, relative to the monitor.
pub fn tile(width: i32, height: i32, n: usize, k: usize) -> (r: Rect)
    requires
        0 <= width <= u16::MAX,
        0 <= height <= u16::MAX,
        k < n,
    ensures
        r == tile_rect(width as int, height as int, n as int, k as int),
        0 <= r.x <= width,
        r.y == 0,
{
    proof {
        column_bounds(width as int, n as int, k as int);
    }
    let bwidth = WINDOW_BORDER_WIDTH as i32;
    let each_w = (width as usize) / n;
    let x = each_w * k;
    let last_w = (width as usize) - (n - 1) * each_w;
    let w = if k < n - 1 { each_w } else { last_w };
    Rect { x: x as i32, y: 0, w: w as i32 - bwidth * 2, h: height - bwidth * 2 }
}

} // verus!
