//! Master/stack tiling: the first window takes the master column; the rest
//! stack vertically beside it, sharing the height evenly with the division
//! remainder going to the last row. A lone window takes the full viewport.
//!
//! The master column's width is a fraction of the viewport width chosen by a
//! ratio; that scaling is done by the caller, which hands the resulting
//! width in. Everything that follows from it is computed here.

use vstd::prelude::*;

use crate::geometry::{Rect, WindowId};

verus! {

/// Integer division rounding toward zero, as Rust's `/` on `i32` does.
pub open spec fn trunc_div(a: int, b: int) -> int {
    if a >= 0 { a / b } else { -((-a) / b) }
}

/// Remainder matching `trunc_div`, as Rust's `%` on `i32` does.
pub open spec fn trunc_rem(a: int, b: int) -> int {
    a - b * trunc_div(a, b)
}

/// Quotient and remainder of `a / b` rounding toward zero.
pub fn trunc_div_rem(a: i32, b: i32) -> (qr: (i32, i32))
    requires
        b > 0,
    ensures
        qr.0 == trunc_div(a as int, b as int),
        qr.1 == trunc_rem(a as int, b as int),
{
    if a >= 0 {
        let q: i32 = a / b;
        let r: i32 = a % b;
        proof {
            assert(a == b * q + r) by (nonlinear_arith)
                requires b > 0, a >= 0, q == a / b, r == a % b;
        }
        (q, r)
    } else {
        let na: i64 = -(a as i64);
        let q64: i64 = na / (b as i64);
        let r64: i64 = na % (b as i64);
        proof {
            assert(na == b * q64 + r64 && 0 <= q64 <= na && 0 <= r64 < b) by (nonlinear_arith)
                requires b > 0, na > 0, q64 == na / (b as i64), r64 == na % (b as i64);
        }
        let q64n: i64 = -q64;
        let r64n: i64 = -r64;
        proof {
            assert(a == b * q64n + r64n) by (nonlinear_arith)
                requires na == -a, na == b * q64 + r64, q64n == -q64, r64n == -r64;
        }
        let q: i32 = q64n as i32;
        let r: i32 = r64n as i32;
        (q, r)
    }
}

/// Number of stack rows for `n` windows.
pub open spec fn stack_rows(n: int) -> int {
    n - 1
}

/// Height of a regular stack row.
pub open spec fn row_height(n: int, viewport: Rect) -> int {
    trunc_div(viewport.height as int, stack_rows(n))
}

/// Leftover height, given to the last stack row.
pub open spec fn row_remainder(n: int, viewport: Rect) -> int {
    trunc_rem(viewport.height as int, stack_rows(n))
}

/// Geometry of tile `i` when `n >= 2` windows are tiled: tile 0 is the
/// master column, tiles `1..n` the stack rows from top to bottom.
pub open spec fn master_stack_rect(n: int, viewport: Rect, master_width: int, i: int) -> Rect {
    let rh = row_height(n, viewport);
    if i == 0 {
        Rect { x: viewport.x, y: viewport.y, width: master_width as i32, height: viewport.height }
    } else {
        Rect {
            x: (viewport.x + master_width) as i32,
            y: (viewport.y + (i - 1) * rh) as i32,
            width: (viewport.width - master_width) as i32,
            height: (rh + if i == n - 1 { row_remainder(n, viewport) } else { 0 }) as i32,
        }
    }
}

/// Master/stack placement of `windows`, in order.
pub open spec fn master_stack_spec(windows: Seq<WindowId>, viewport: Rect, master_width: int) -> Seq<
    (WindowId, Rect),
> {
    if windows.len() == 0 {
        Seq::empty()
    } else if windows.len() == 1 {
        seq![(windows[0], viewport)]
    } else {
        Seq::new(
            windows.len(),
            |i: int| (windows[i], master_stack_rect(windows.len() as int, viewport, master_width, i)),
        )
    }
}

/// Every coordinate the master/stack placement of `n >= 2` windows computes
/// fits in `i32`.
pub open spec fn master_stack_fits(n: int, viewport: Rect, master_width: int) -> bool {
    let rh = row_height(n, viewport);
    &&& i32::MIN <= viewport.x + master_width <= i32::MAX
    &&& i32::MIN <= viewport.width - master_width <= i32::MAX
    &&& i32::MIN <= viewport.y + (stack_rows(n) - 1) * rh <= i32::MAX
    &&& i32::MIN <= rh + row_remainder(n, viewport) <= i32::MAX
    &&& i32::MIN <= viewport.y + viewport.height <= i32::MAX
}

proof fn lemma_row_offset_between(vy: int, rh: int, k: int, rows: int)
    requires
        0 <= k <= rows - 1,
        i32::MIN <= vy <= i32::MAX,
        i32::MIN <= vy + (rows - 1) * rh <= i32::MAX,
    ensures
        i32::MIN <= vy + k * rh <= i32::MAX,
{
    if rh >= 0 {
        assert(0 <= k * rh <= (rows - 1) * rh) by (nonlinear_arith)
            requires rh >= 0, 0 <= k <= rows - 1;
    } else {
        assert((rows - 1) * rh <= k * rh <= 0) by (nonlinear_arith)
            requires rh < 0, 0 <= k <= rows - 1;
    }
}

/// Whether `master_stack_tiles` can place `n` windows in `viewport` with a
/// master column `master_width` wide without leaving `i32`.
pub fn master_stack_in_range(n: usize, viewport: Rect, master_width: i32) -> (ok: bool)
    ensures
        ok == (n <= i32::MAX && (n >= 2 ==> master_stack_fits(n as int, viewport, master_width as int))),
{
    if n > i32::MAX as usize {
        return false;
    }
    if n < 2 {
        return true;
    }
    let rows: i32 = (n - 1) as i32;
    let (rh, rem) = trunc_div_rem(viewport.height, rows);
    let min: i64 = i32::MIN as i64;
    let max: i64 = i32::MAX as i64;
    let stack_x: i64 = viewport.x as i64 + master_width as i64;
    let stack_width: i64 = viewport.width as i64 - master_width as i64;
    proof {
        if rh >= 0 {
            assert(0 <= (rows - 1) * rh <= 0x7fff_ffff * 0x7fff_ffff) by (nonlinear_arith)
                requires 1 <= rows <= 0x7fff_ffff, 0 <= rh <= 0x7fff_ffff;
        } else {
            assert(-0x8000_0000 * 0x7fff_ffff <= (rows - 1) * rh <= 0) by (nonlinear_arith)
                requires 1 <= rows <= 0x7fff_ffff, -0x8000_0000 <= rh < 0;
        }
    }
    let last_y: i64 = viewport.y as i64 + (rows as i64 - 1) * rh as i64;
    let last_height: i64 = rh as i64 + rem as i64;
    let bottom: i64 = viewport.y as i64 + viewport.height as i64;
    min <= stack_x && stack_x <= max && min <= stack_width && stack_width <= max && min <= last_y
        && last_y <= max && min <= last_height && last_height <= max && min <= bottom && bottom <= max
}

/// Master/stack tiling with the master column `master_width` wide.
pub fn master_stack_tiles(windows: &[WindowId], viewport: Rect, master_width: i32) -> (placed: Vec<
    (WindowId, Rect),
>)
    requires
        windows.len() <= i32::MAX,
        windows.len() >= 2 ==> master_stack_fits(windows.len() as int, viewport, master_width as int),
    ensures
        placed@ == master_stack_spec(windows@, viewport, master_width as int),
        placed@.len() == windows@.len(),
        forall|i: int| 0 <= i < windows@.len() ==> (#[trigger] placed@[i]).0 == windows@[i],
        windows@.len() == 1 ==> placed@[0].1 == viewport,
        windows@.len() >= 2 ==> placed@[0].1 == (Rect {
            x: viewport.x,
            y: viewport.y,
            width: master_width,
            height: viewport.height,
        }),
        windows@.len() >= 2 ==> forall|i: int| 1 <= i < windows@.len() ==> (#[trigger] placed@[i]).1.x
            == viewport.x + master_width && placed@[i].1.width == viewport.width - master_width,
{
    proof {
        if windows@.len() >= 2 {
            lemma_master_stack_columns(windows@, viewport, master_width);
        }
    }
    let n: usize = windows.len();
    let mut placed: Vec<(WindowId, Rect)> = Vec::new();
    if n == 0 {
        return placed;
    }
    if n == 1 {
        placed.push((windows[0], viewport));
        proof {
            assert(placed@ =~= master_stack_spec(windows@, viewport, master_width as int));
        }
        return placed;
    }
    let ghost spec = master_stack_spec(windows@, viewport, master_width as int);
    placed.push((windows[0], Rect::new(viewport.x, viewport.y, master_width, viewport.height)));
    let stack_width: i32 = viewport.width - master_width;
    let stack_x: i32 = viewport.x + master_width;
    let rows: i32 = (n - 1) as i32;
    let (row_h, remainder) = trunc_div_rem(viewport.height, rows);
    let mut y: i32 = viewport.y;
    let mut index: usize = 0;
    while index < n - 1
        invariant
            n == windows.len(),
            2 <= n <= i32::MAX,
            rows == n - 1,
            row_h == row_height(n as int, viewport),
            remainder == row_remainder(n as int, viewport),
            stack_width == viewport.width - master_width,
            stack_x == viewport.x + master_width,
            master_stack_fits(n as int, viewport, master_width as int),
            spec == master_stack_spec(windows@, viewport, master_width as int),
            index <= n - 1,
            index < n - 1 ==> y == viewport.y + index * row_h,
            placed@ == spec.take(index + 1),
        decreases n - 1 - index,
    {
        let last = index as i32 == rows - 1;
        proof {
            lemma_row_offset_between(viewport.y as int, row_h as int, index as int, rows as int);
        }
        let height: i32 = if last { row_h + remainder } else { row_h };
        placed.push((windows[index + 1], Rect::new(stack_x, y, stack_width, height)));
        proof {
            assert(viewport.height == rows * row_h + remainder);
            if last {
                assert(y + height == viewport.y + viewport.height) by (nonlinear_arith)
                    requires
                        y == viewport.y + index * row_h,
                        index == rows - 1,
                        height == row_h + remainder,
                        viewport.height == rows * row_h + remainder;
            } else {
                assert(y + height == viewport.y + (index + 1) * row_h) by (nonlinear_arith)
                    requires y == viewport.y + index * row_h, height == row_h;
                lemma_row_offset_between(viewport.y as int, row_h as int, index + 1, rows as int);
            }
            assert(placed@ =~= spec.take(index + 2));
        }
        y = y + height;
        index = index + 1;
        proof {
            if index < n - 1 {
                assert(y == viewport.y + index * row_h);
            }
        }
    }
    proof {
        assert(spec.take(n as int) =~= spec);
    }
    placed
}

/// With two or more windows the first window's tile is the master column:
/// at the viewport's top-left corner, exactly `master_width` wide and as
/// tall as the viewport. Every other window sits in the stack column to its
/// right, which starts `master_width` past the viewport's left edge and
/// takes the rest of the width. The stack rows share the height: every row
/// but the last is `height / (n - 1)` tall (rounding toward zero), and the
/// last row also takes the remainder.
pub proof fn lemma_master_stack_columns(windows: Seq<WindowId>, viewport: Rect, master_width: i32)
    requires
        2 <= windows.len() <= i32::MAX,
        master_stack_fits(windows.len() as int, viewport, master_width as int),
    ensures
        ({
            let placed = master_stack_spec(windows, viewport, master_width as int);
            let n = windows.len() as int;
            &&& placed.len() == n
            &&& placed[0] == (windows[0], Rect {
                x: viewport.x,
                y: viewport.y,
                width: master_width,
                height: viewport.height,
            })
            &&& forall|i: int| 1 <= i < n ==> (#[trigger] placed[i]).0 == windows[i]
                && placed[i].1.x == viewport.x + master_width
                && placed[i].1.width == viewport.width - master_width
            &&& viewport.height >= 0 ==> forall|i: int| 1 <= i < n - 1 ==> (#[trigger] placed[i]).1.height
                == viewport.height as int / (n - 1)
            &&& viewport.height >= 0 ==> placed[n - 1].1.height == viewport.height as int / (n - 1)
                + viewport.height as int % (n - 1)
        }),
{
    let placed = master_stack_spec(windows, viewport, master_width as int);
    let n = windows.len() as int;
    let rh = row_height(n, viewport);
    let rem = row_remainder(n, viewport);
    if viewport.height >= 0 {
        assert(rem == viewport.height as int % (n - 1)) by (nonlinear_arith)
            requires
                n >= 2,
                viewport.height >= 0,
                rh == viewport.height as int / (n - 1),
                rem == viewport.height - (n - 1) * rh;
        assert(0 <= rh <= viewport.height) by (nonlinear_arith)
            requires n >= 2, viewport.height >= 0, rh == viewport.height as int / (n - 1);
        assert(0 <= rem < n - 1);
    }
}

/// Master/stack tiles cover the viewport without gaps or overlaps: the
/// stack column starts where the master column ends and reaches the
/// viewport's right edge, the first stack row starts at the viewport's top,
/// every further row starts where the previous one ends, and the last row
/// ends at the viewport's bottom. Windows keep their order.
pub proof fn lemma_master_stack_tiles_viewport(windows: Seq<WindowId>, viewport: Rect, master_width: i32)
    requires
        2 <= windows.len() <= i32::MAX,
        master_stack_fits(windows.len() as int, viewport, master_width as int),
    ensures
        ({
            let placed = master_stack_spec(windows, viewport, master_width as int);
            let n = windows.len() as int;
            &&& placed.len() == n
            &&& forall|i: int| 0 <= i < n ==> #[trigger] placed[i].0 == windows[i]
            &&& placed[0].1.x == viewport.x && placed[0].1.y == viewport.y
            &&& placed[0].1.height == viewport.height
            &&& placed[0].1.right() == placed[1].1.x
            &&& forall|i: int| 1 <= i < n ==> (#[trigger] placed[i].1).x == placed[1].1.x
                && placed[i].1.right() == viewport.right()
            &&& placed[1].1.y == viewport.y
            &&& forall|i: int| 1 <= i < n - 1 ==> (#[trigger] placed[i + 1].1).y == placed[i].1.bottom()
            &&& placed[n - 1].1.bottom() == viewport.bottom()
        }),
{
    let placed = master_stack_spec(windows, viewport, master_width as int);
    let n = windows.len() as int;
    let rows = stack_rows(n);
    let rh = row_height(n, viewport);
    let rem = row_remainder(n, viewport);
    assert(viewport.height == rows * rh + rem);
    assert forall|i: int| 1 <= i < n - 1 implies (#[trigger] placed[i + 1].1).y == placed[i].1.bottom() by {
        lemma_row_offset_between(viewport.y as int, rh, i - 1, rows);
        lemma_row_offset_between(viewport.y as int, rh, i, rows);
        assert(viewport.y + (i - 1) * rh + rh == viewport.y + i * rh) by (nonlinear_arith);
    }
    lemma_row_offset_between(viewport.y as int, rh, n - 2, rows);
    assert(viewport.y + (n - 2) * rh + rh + rem == viewport.y + viewport.height) by (nonlinear_arith)
        requires viewport.height == rows * rh + rem, rows == n - 1;
}

} // verus!
