use vstd::prelude::*;

use crate::screen::controller::{
    lemma_painted_ext, lemma_painted_refl, lemma_painted_trans, painted, ScreenController,
};
use crate::screen::framebuffer::on_screen;

verus! {

pub open spec fn abs(v: int) -> int {
    if v < 0 {
        -v
    } else {
        v
    }
}

/// The points that Bresenham's line algorithm visits from (x, y) towards (x1, y1),
/// with error term `err`, for the line's `dx >= 0`, `dy <= 0` and steps `sx`, `sy`,
/// within `fuel` points.
pub open spec fn line_trace(
    x: int,
    y: int,
    x1: int,
    y1: int,
    err: int,
    dx: int,
    dy: int,
    sx: int,
    sy: int,
    fuel: nat,
) -> Seq<(int, int)>
    decreases fuel,
{
    if fuel == 0 {
        Seq::empty()
    } else if x == x1 && y == y1 {
        seq![(x, y)]
    } else {
        let e2 = 2 * err;
        let err2 = if e2 >= dy { err + dy } else { err };
        let nx = if e2 >= dy { x + sx } else { x };
        let err3 = if e2 <= dx { err2 + dx } else { err2 };
        let ny = if e2 <= dx { y + sy } else { y };
        seq![(x, y)] + line_trace(nx, ny, x1, y1, err3, dx, dy, sx, sy, (fuel - 1) as nat)
    }
}

/// The points of the Bresenham line from (x0, y0) to (x1, y1), in drawing order.
pub open spec fn line_points(x0: int, y0: int, x1: int, y1: int) -> Seq<(int, int)> {
    let dx = abs(x1 - x0);
    let dy = -abs(y1 - y0);
    line_trace(
        x0,
        y0,
        x1,
        y1,
        dx + dy,
        dx,
        dy,
        if x0 < x1 { 1 } else { -1 },
        if y0 < y1 { 1 } else { -1 },
        (dx - dy + 1) as nat,
    )
}

/// Whether the Bresenham line from (x0, y0) to (x1, y1) goes through (px, py).
pub open spec fn line_covers(x0: int, y0: int, x1: int, y1: int, px: int, py: int) -> bool {
    line_points(x0, y0, x1, y1).contains((px, py))
}

/// The state of Bresenham's loop: position (x, y) lies between the start and (x1, y1),
/// and the error term is determined by how far the loop has come.
pub open spec fn line_state_ok(
    x: int,
    y: int,
    x1: int,
    y1: int,
    err: int,
    dx: int,
    dy: int,
    sx: int,
    sy: int,
) -> bool {
    &&& (sx == 1 && x <= x1) || (sx == -1 && x >= x1)
    &&& (sy == 1 && y <= y1) || (sy == -1 && y >= y1)
    &&& 0 <= abs(x1 - x) <= dx
    &&& 0 <= abs(y1 - y) <= -dy
    &&& err == dx * (-dy - abs(y1 - y) + 1) + dy * (dx - abs(x1 - x) + 1)
}

/// One step of Bresenham's loop moves towards the end point, never past it, and
/// at least one coordinate moves.
proof fn lemma_line_step(x: int, y: int, x1: int, y1: int, err: int, dx: int, dy: int, sx: int, sy: int)
    requires
        line_state_ok(x, y, x1, y1, err, dx, dy, sx, sy),
        !(x == x1 && y == y1),
    ensures
        ({
            let e2 = 2 * err;
            let err2 = if e2 >= dy { err + dy } else { err };
            let nx = if e2 >= dy { x + sx } else { x };
            let err3 = if e2 <= dx { err2 + dx } else { err2 };
            let ny = if e2 <= dx { y + sy } else { y };
            &&& line_state_ok(nx, ny, x1, y1, err3, dx, dy, sx, sy)
            &&& abs(x1 - nx) + abs(y1 - ny) < abs(x1 - x) + abs(y1 - y)
        }),
{
    let a = abs(x1 - x);
    let b = abs(y1 - y);
    let e2 = 2 * err;
    if e2 >= dy && a == 0 {
        assert(b >= 1);
        assert(dx * (-dy - b + 1) <= dx * (-dy)) by (nonlinear_arith)
            requires
                dx >= 0,
                b >= 1,
        ;
        assert(dy * (dx + 1) == dy * dx + dy) by (nonlinear_arith);
        assert(dx * (-dy) == -(dy * dx)) by (nonlinear_arith);
        assert(false);
    }
    if e2 <= dx && b == 0 {
        assert(a >= 1);
        assert(dy * (dx - a + 1) >= dy * dx) by (nonlinear_arith)
            requires
                dy <= 0,
                a >= 1,
        ;
        assert(dx * (-dy + 1) == -(dy * dx) + dx) by (nonlinear_arith);
        assert(false);
    }
    assert(dx * (-dy - (b - 1) + 1) == dx * (-dy - b + 1) + dx) by (nonlinear_arith);
    assert(dy * (dx - (a - 1) + 1) == dy * (dx - a + 1) + dy) by (nonlinear_arith);
}

/// A horizontal Bresenham line covers exactly the points between its end points.
pub proof fn lemma_hline(x0: int, x1: int, y: int, px: int, py: int)
    ensures
        line_covers(x0, y, x1, y, px, py) <==> (py == y && ((x0 <= px <= x1) || (x1 <= px <= x0))),
{
    let dx = abs(x1 - x0);
    let sx: int = if x0 < x1 { 1 } else { -1 };
    lemma_hline_trace(x0, x1, y, dx, sx, (dx + 1) as nat, px, py);
}

proof fn lemma_hline_trace(x: int, x1: int, y: int, dx: int, sx: int, fuel: nat, px: int, py: int)
    requires
        (sx == 1 && x <= x1) || (sx == -1 && x >= x1),
        dx >= abs(x1 - x),
        fuel >= abs(x1 - x) + 1,
    ensures
        line_trace(x, y, x1, y, dx, dx, 0, sx, -1, fuel).contains((px, py)) <==> (py == y && ((x
            <= px <= x1) || (x1 <= px <= x))),
    decreases fuel,
{
    let t = line_trace(x, y, x1, y, dx, dx, 0, sx, -1, fuel);
    if x == x1 {
        assert(t == seq![(x, y)]);
        if py == y && px == x {
            assert(t[0] == (px, py));
        }
    } else {
        assert(dx > 0);
        lemma_hline_trace(x + sx, x1, y, dx, sx, (fuel - 1) as nat, px, py);
        let rest = line_trace(x + sx, y, x1, y, dx, dx, 0, sx, -1, (fuel - 1) as nat);
        assert(t == seq![(x, y)] + rest);
        if rest.contains((px, py)) {
            let k = choose|k: int| 0 <= k < rest.len() && rest[k] == (px, py);
            assert(t[k + 1] == (px, py));
        }
        if py == y && px == x {
            assert(t[0] == (px, py));
        }
        if t.contains((px, py)) {
            let k = choose|k: int| 0 <= k < t.len() && t[k] == (px, py);
            if k > 0 {
                assert(rest[k - 1] == (px, py));
            }
        }
    }
}

/// A vertical Bresenham line covers exactly the points between its end points.
pub proof fn lemma_vline(x: int, y0: int, y1: int, px: int, py: int)
    ensures
        line_covers(x, y0, x, y1, px, py) <==> (px == x && ((y0 <= py <= y1) || (y1 <= py <= y0))),
{
    let dy = -abs(y1 - y0);
    let sy: int = if y0 < y1 { 1 } else { -1 };
    lemma_vline_trace(x, y0, y1, dy, sy, (-dy + 1) as nat, px, py);
}

proof fn lemma_vline_trace(x: int, y: int, y1: int, dy: int, sy: int, fuel: nat, px: int, py: int)
    requires
        (sy == 1 && y <= y1) || (sy == -1 && y >= y1),
        -dy >= abs(y1 - y),
        fuel >= abs(y1 - y) + 1,
    ensures
        line_trace(x, y, x, y1, dy, 0, dy, -1, sy, fuel).contains((px, py)) <==> (px == x && ((y
            <= py <= y1) || (y1 <= py <= y))),
    decreases fuel,
{
    let t = line_trace(x, y, x, y1, dy, 0, dy, -1, sy, fuel);
    if y == y1 {
        assert(t == seq![(x, y)]);
        if px == x && py == y {
            assert(t[0] == (px, py));
        }
    } else {
        assert(dy < 0);
        lemma_vline_trace(x, y + sy, y1, dy, sy, (fuel - 1) as nat, px, py);
        let rest = line_trace(x, y + sy, x, y1, dy, 0, dy, -1, sy, (fuel - 1) as nat);
        assert(t == seq![(x, y)] + rest);
        if rest.contains((px, py)) {
            let k = choose|k: int| 0 <= k < rest.len() && rest[k] == (px, py);
            assert(t[k + 1] == (px, py));
        }
        if px == x && py == y {
            assert(t[0] == (px, py));
        }
        if t.contains((px, py)) {
            let k = choose|k: int| 0 <= k < t.len() && t[k] == (px, py);
            if k > 0 {
                assert(rest[k - 1] == (px, py));
            }
        }
    }
}

/// The larger of two integers.
pub open spec fn larger(a: int, b: int) -> int {
    if a >= b {
        a
    } else {
        b
    }
}

/// How far (px, py) lies off the straight segment from (x0, y0) to (x1, y1), scaled by
/// the segment's length along the axis it runs farther in: the absolute value of the
/// cross product `(px - x0) * (y1 - y0) - (py - y0) * (x1 - x0)`.
pub open spec fn line_deviation(x0: int, y0: int, x1: int, y1: int, px: int, py: int) -> int {
    abs((px - x0) * (y1 - y0) - (py - y0) * (x1 - x0))
}

/// A trace point lies towards the end point and within half a pixel of the segment,
/// measured from the end point.
spec fn trace_point_ok(p: (int, int), x1: int, y1: int, dx: int, dy: int, sx: int, sy: int) -> bool {
    &&& (sx == 1 && p.0 <= x1) || (sx == -1 && p.0 >= x1)
    &&& (sy == 1 && p.1 <= y1) || (sy == -1 && p.1 >= y1)
    &&& 2 * abs(abs(x1 - p.0) * (-dy) - abs(y1 - p.1) * dx) <= larger(dx, -dy)
}

proof fn lemma_err_deviation(a: int, b: int, dx: int, dy: int, err: int)
    requires
        err == dx * (-dy - b + 1) + dy * (dx - a + 1),
    ensures
        err == a * (-dy) - b * dx + dx + dy,
{
    assert(dx * (-dy - b + 1) + dy * (dx - a + 1) == a * (-dy) - b * dx + dx + dy) by (nonlinear_arith);
}

proof fn lemma_trace_near(x: int, y: int, x1: int, y1: int, err: int, dx: int, dy: int, sx: int, sy: int, fuel: nat)
    requires
        line_state_ok(x, y, x1, y1, err, dx, dy, sx, sy),
        2 * abs(abs(x1 - x) * (-dy) - abs(y1 - y) * dx) <= larger(dx, -dy),
    ensures
        forall|k: int|
            0 <= k < line_trace(x, y, x1, y1, err, dx, dy, sx, sy, fuel).len() ==> trace_point_ok(
                #[trigger] line_trace(x, y, x1, y1, err, dx, dy, sx, sy, fuel)[k],
                x1,
                y1,
                dx,
                dy,
                sx,
                sy,
            ),
    decreases fuel,
{
    let t = line_trace(x, y, x1, y1, err, dx, dy, sx, sy, fuel);
    if fuel == 0 {
    } else if x == x1 && y == y1 {
        assert(t == seq![(x, y)]);
    } else {
        lemma_line_step(x, y, x1, y1, err, dx, dy, sx, sy);
        let e2 = 2 * err;
        let err2 = if e2 >= dy { err + dy } else { err };
        let nx = if e2 >= dy { x + sx } else { x };
        let err3 = if e2 <= dx { err2 + dx } else { err2 };
        let ny = if e2 <= dx { y + sy } else { y };
        let c = abs(x1 - x) * (-dy) - abs(y1 - y) * dx;
        let c2 = abs(x1 - nx) * (-dy) - abs(y1 - ny) * dx;
        lemma_err_deviation(abs(x1 - x), abs(y1 - y), dx, dy, err);
        lemma_err_deviation(abs(x1 - nx), abs(y1 - ny), dx, dy, err3);
        assert(err == c + dx + dy);
        assert(err3 == c2 + dx + dy);
        assert(2 * abs(c2) <= larger(dx, -dy));
        lemma_trace_near(nx, ny, x1, y1, err3, dx, dy, sx, sy, (fuel - 1) as nat);
        let rest = line_trace(nx, ny, x1, y1, err3, dx, dy, sx, sy, (fuel - 1) as nat);
        assert(t == seq![(x, y)] + rest);
        assert forall|k: int| 0 <= k < t.len() implies trace_point_ok(#[trigger] t[k], x1, y1, dx, dy, sx, sy) by {
            if k > 0 {
                assert(t[k] == rest[k - 1]);
            }
        }
    }
}

/// Every pixel of a Bresenham line lies within half a pixel of the straight segment
/// between its end points, along the axis that the segment runs less far in:
/// twice its deviation from the segment is at most the segment's larger extent.
pub proof fn lemma_line_near_segment(x0: int, y0: int, x1: int, y1: int, k: int)
    requires
        0 <= k < line_points(x0, y0, x1, y1).len(),
    ensures
        2 * line_deviation(x0, y0, x1, y1, line_points(x0, y0, x1, y1)[k].0, line_points(x0, y0, x1, y1)[k].1)
            <= larger(abs(x1 - x0), abs(y1 - y0)),
{
    let dx = abs(x1 - x0);
    let dy = -abs(y1 - y0);
    let sx: int = if x0 < x1 { 1 } else { -1 };
    let sy: int = if y0 < y1 { 1 } else { -1 };
    assert(dx * (-dy - abs(y1 - y0) + 1) == dx) by (nonlinear_arith)
        requires
            dy == -abs(y1 - y0),
    ;
    assert(dy * (dx - abs(x1 - x0) + 1) == dy) by (nonlinear_arith)
        requires
            dx == abs(x1 - x0),
    ;
    assert(abs(x1 - x0) * (-dy) - abs(y1 - y0) * dx == 0) by (nonlinear_arith)
        requires
            dx == abs(x1 - x0),
            dy == -abs(y1 - y0),
    ;
    let fuel = (dx - dy + 1) as nat;
    lemma_trace_near(x0, y0, x1, y1, dx + dy, dx, dy, sx, sy, fuel);
    let p = line_points(x0, y0, x1, y1)[k];
    assert(trace_point_ok(p, x1, y1, dx, dy, sx, sy));
    let a = abs(x1 - p.0);
    let b = abs(y1 - p.1);
    assert(x1 - x0 == sx * dx && y1 - y0 == sy * (-dy));
    assert(x1 - p.0 == sx * a && y1 - p.1 == sy * b);
    assert((p.0 - x0) * (y1 - y0) - (p.1 - y0) * (x1 - x0) == sx * sy * (b * dx - a * (-dy))) by (nonlinear_arith)
        requires
            x1 - x0 == sx * dx,
            y1 - y0 == sy * (-dy),
            x1 - p.0 == sx * a,
            y1 - p.1 == sy * b,
            sx == 1 || sx == -1,
            sy == 1 || sy == -1,
    ;
    assert(abs(sx * sy * (b * dx - a * (-dy))) == abs(a * (-dy) - b * dx)) by (nonlinear_arith)
        requires
            sx == 1 || sx == -1,
            sy == 1 || sy == -1,
    ;
}

/// The Bresenham line always ends at its end point, after starting at its start point.
pub proof fn lemma_line_ends(x0: int, y0: int, x1: int, y1: int)
    ensures
        line_points(x0, y0, x1, y1).len() > 0,
        line_points(x0, y0, x1, y1)[0] == (x0, y0),
        line_points(x0, y0, x1, y1).last() == (x1, y1),
{
    let dx = abs(x1 - x0);
    let dy = -abs(y1 - y0);
    let sx: int = if x0 < x1 { 1 } else { -1 };
    let sy: int = if y0 < y1 { 1 } else { -1 };
    assert(dx * (-dy - abs(y1 - y0) + 1) == dx) by (nonlinear_arith)
        requires
            dy == -abs(y1 - y0),
    ;
    assert(dy * (dx - abs(x1 - x0) + 1) == dy) by (nonlinear_arith)
        requires
            dx == abs(x1 - x0),
    ;
    lemma_trace_ends(x0, y0, x1, y1, dx + dy, dx, dy, sx, sy, (dx - dy + 1) as nat);
}

proof fn lemma_trace_ends(x: int, y: int, x1: int, y1: int, err: int, dx: int, dy: int, sx: int, sy: int, fuel: nat)
    requires
        line_state_ok(x, y, x1, y1, err, dx, dy, sx, sy),
        fuel >= abs(x1 - x) + abs(y1 - y) + 1,
    ensures
        line_trace(x, y, x1, y1, err, dx, dy, sx, sy, fuel).len() > 0,
        line_trace(x, y, x1, y1, err, dx, dy, sx, sy, fuel)[0] == (x, y),
        line_trace(x, y, x1, y1, err, dx, dy, sx, sy, fuel).last() == (x1, y1),
    decreases fuel,
{
    if !(x == x1 && y == y1) {
        lemma_line_step(x, y, x1, y1, err, dx, dy, sx, sy);
        let e2 = 2 * err;
        let err2 = if e2 >= dy { err + dy } else { err };
        let nx = if e2 >= dy { x + sx } else { x };
        let err3 = if e2 <= dx { err2 + dx } else { err2 };
        let ny = if e2 <= dx { y + sy } else { y };
        lemma_trace_ends(nx, ny, x1, y1, err3, dx, dy, sx, sy, (fuel - 1) as nat);
    }
}

/// Whether `v` lies between `a` and `b`, in either order.
pub open spec fn between(v: int, a: int, b: int) -> bool {
    (a <= v <= b) || (b <= v <= a)
}

/// A coordinate that the drawing code handles without overflow.
pub open spec fn coord_ok(v: int) -> bool {
    -0x10_0000 <= v <= 0x10_0000
}

/// What the outline (and, when filled, the rows between its top and bottom edges)
/// of the rectangle with corners (x, y) and (right, bottom) covers.
pub open spec fn rect_covers(x: int, y: int, right: int, bottom: int, filled: bool, px: int, py: int) -> bool {
    ||| (py == y || py == bottom) && between(px, x, right)
    ||| (px == x || px == right) && between(py, y, bottom)
    ||| filled && y + 1 <= py < bottom && between(px, x, right)
}

/// Whether (px, py) belongs to the `width` x `height` rectangle with top-left corner
/// (x, y): anywhere inside it when `filled`, on its border otherwise.
pub open spec fn in_rect(x: int, y: int, width: int, height: int, filled: bool, px: int, py: int) -> bool {
    &&& x <= px < x + width
    &&& y <= py < y + height
    &&& filled || px == x || px == x + width - 1 || py == y || py == y + height - 1
}

/// A rectangle covers only its own pixels: with (x, y) its top-left and (right,
/// bottom) its bottom-right corner, filled it covers exactly the pixels between the
/// corners, and its outline exactly those on its four edges.
pub proof fn lemma_rect_covers_rectangle(x: int, y: int, right: int, bottom: int, filled: bool, px: int, py: int)
    requires
        x <= right,
        y <= bottom,
    ensures
        filled ==> (rect_covers(x, y, right, bottom, filled, px, py) <==> (x <= px <= right && y <= py <= bottom)),
        !filled ==> (rect_covers(x, y, right, bottom, filled, px, py) <==> (x <= px <= right && y <= py <= bottom
            && (px == x || px == right || py == y || py == bottom))),
{
}

/// `v as i16` for a `u16`: values above `i16::MAX` wrap to negative ones.
pub open spec fn u16_as_i16(v: u16) -> int {
    if v <= 32767 {
        v as int
    } else {
        v - 65536
    }
}

impl ScreenController {
    /// The horizontal line from (xa, y) to (xb, y).
    pub fn hline(&mut self, xa: i64, xb: i64, y: i64)
        requires
            coord_ok(xa as int),
            coord_ok(xb as int),
            coord_ok(y as int),
        ensures
            painted(*old(self), *final(self), |px: int, py: int| py == y && between(px, xa as int, xb as int), true),
    {
        let ghost s0 = *self;
        self.draw_line_wide(xa, y, xb, y);
        proof {
            assert forall|px: int, py: int| on_screen(px, py) implies (py == y && between(px, xa as int, xb as int))
                == line_covers(xa as int, y as int, xb as int, y as int, px, py) by {
                lemma_hline(xa as int, xb as int, y as int, px, py);
            }
            lemma_painted_ext(
                s0,
                *self,
                |px: int, py: int| line_covers(xa as int, y as int, xb as int, y as int, px, py),
                |px: int, py: int| py == y && between(px, xa as int, xb as int),
                true,
            );
        }
    }

    /// The vertical line from (x, ya) to (x, yb).
    pub fn vline(&mut self, x: i64, ya: i64, yb: i64)
        requires
            coord_ok(x as int),
            coord_ok(ya as int),
            coord_ok(yb as int),
        ensures
            painted(*old(self), *final(self), |px: int, py: int| px == x && between(py, ya as int, yb as int), true),
    {
        let ghost s0 = *self;
        self.draw_line_wide(x, ya, x, yb);
        proof {
            assert forall|px: int, py: int| on_screen(px, py) implies (px == x && between(py, ya as int, yb as int))
                == line_covers(x as int, ya as int, x as int, yb as int, px, py) by {
                lemma_vline(x as int, ya as int, yb as int, px, py);
            }
            lemma_painted_ext(
                s0,
                *self,
                |px: int, py: int| line_covers(x as int, ya as int, x as int, yb as int, px, py),
                |px: int, py: int| px == x && between(py, ya as int, yb as int),
                true,
            );
        }
    }

    /// Draws the outline of the `width` x `height` rectangle whose top-left corner
    /// is `anchor`, and fills its inside when `filled`. An empty rectangle draws nothing.
    pub fn draw_rect(&mut self, anchor: (i16, i16), width: u16, height: u16, filled: bool)
        ensures
            painted(
                *old(self),
                *final(self),
                |px: int, py: int|
                    width >= 1 && height >= 1 && rect_covers(
                        anchor.0 as int,
                        anchor.1 as int,
                        anchor.0 + u16_as_i16(width) - 1,
                        anchor.1 + u16_as_i16(height) - 1,
                        filled,
                        px,
                        py,
                    ),
                true,
            ),
            1 <= width <= 32767 && 1 <= height <= 32767 ==> forall|px: int, py: int|
                on_screen(px, py) ==> #[trigger] final(self).pixel(px, py) == (if in_rect(
                    anchor.0 as int,
                    anchor.1 as int,
                    width as int,
                    height as int,
                    filled,
                    px,
                    py,
                ) {
                    true
                } else {
                    old(self).pixel(px, py)
                }),
    {
        proof {
            if 1 <= width <= 32767 && 1 <= height <= 32767 {
                assert forall|px: int, py: int| #[trigger] rect_covers(
                    anchor.0 as int,
                    anchor.1 as int,
                    anchor.0 + u16_as_i16(width) - 1,
                    anchor.1 + u16_as_i16(height) - 1,
                    filled,
                    px,
                    py,
                ) == in_rect(anchor.0 as int, anchor.1 as int, width as int, height as int, filled, px, py) by {
                    lemma_rect_covers_rectangle(
                        anchor.0 as int,
                        anchor.1 as int,
                        anchor.0 + width - 1,
                        anchor.1 + height - 1,
                        filled,
                        px,
                        py,
                    );
                }
            }
        }
        let ghost s0 = *self;
        if width < 1 || height < 1 {
            proof {
                lemma_painted_refl(*self, |px: int, py: int| width >= 1 && height >= 1, true);
            }
            return;
        }
        let x = anchor.0 as i64;
        let y = anchor.1 as i64;
        let w: i64 = if width <= 32767 { width as i64 } else { width as i64 - 65536 };
        let h: i64 = if height <= 32767 { height as i64 } else { height as i64 - 65536 };
        let right = x + w - 1;
        let bottom = y + h - 1;
        let ghost c1 = |px: int, py: int| py == y && between(px, x as int, right as int);
        let ghost c2 = |px: int, py: int| py == bottom && between(px, x as int, right as int);
        let ghost c3 = |px: int, py: int| px == x && between(py, y as int, bottom as int);
        let ghost c4 = |px: int, py: int| px == right && between(py, y as int, bottom as int);
        let ghost c12 = |px: int, py: int| c1(px, py) || c2(px, py);
        let ghost c123 = |px: int, py: int| c12(px, py) || c3(px, py);
        let ghost outline = |px: int, py: int| c123(px, py) || c4(px, py);
        self.hline(x, right, y);
        let ghost s1 = *self;
        self.hline(x, right, bottom);
        proof {
            lemma_painted_trans(s0, s1, *self, c1, c2, c12, true);
        }
        let ghost s2 = *self;
        self.vline(x, y, bottom);
        proof {
            lemma_painted_trans(s0, s2, *self, c12, c3, c123, true);
        }
        let ghost s3 = *self;
        self.vline(right, y, bottom);
        proof {
            lemma_painted_trans(s0, s3, *self, c123, c4, outline, true);
        }
        let ghost target = |px: int, py: int| rect_covers(x as int, y as int, right as int, bottom as int, filled, px, py);
        if filled {
            let mut line_offset = y + 1;
            let ghost inner = |px: int, py: int| y + 1 <= py < line_offset && between(px, x as int, right as int);
            let ghost so_far = |px: int, py: int| outline(px, py) || inner(px, py);
            proof {
                lemma_painted_ext(s0, *self, outline, so_far, true);
            }
            while line_offset < bottom
                invariant
                    -0x8000 <= x <= 0x7fff,
                    -0x8000 <= y <= 0x7fff,
                    -0x20000 <= right <= 0x20000,
                    -0x20000 <= bottom <= 0x20000,
                    y + 1 <= line_offset,
                    line_offset <= bottom || line_offset == y + 1,
                    so_far == (|px: int, py: int| outline(px, py) || (y + 1 <= py < line_offset && between(px, x as int, right as int))),
                    painted(s0, *self, so_far, true),
                decreases bottom - line_offset,
            {
                let ghost before = *self;
                self.hline(x, right, line_offset);
                proof {
                    let next = |px: int, py: int| outline(px, py) || (y + 1 <= py < line_offset + 1 && between(px, x as int, right as int));
                    lemma_painted_trans(
                        s0,
                        before,
                        *self,
                        so_far,
                        |px: int, py: int| py == line_offset && between(px, x as int, right as int),
                        next,
                        true,
                    );
                    so_far = next;
                }
                line_offset = line_offset + 1;
            }
            proof {
                lemma_painted_ext(s0, *self, so_far, target, true);
            }
        } else {
            proof {
                lemma_painted_ext(s0, *self, outline, target, true);
            }
        }
        proof {
            lemma_painted_ext(
                s0,
                *self,
                target,
                |px: int, py: int|
                    width >= 1 && height >= 1 && rect_covers(
                        anchor.0 as int,
                        anchor.1 as int,
                        anchor.0 + u16_as_i16(width) - 1,
                        anchor.1 + u16_as_i16(height) - 1,
                        filled,
                        px,
                        py,
                    ),
                true,
            );
        }
    }
}

/// The four quarters of a circle, or all of them.
#[derive(Clone, Copy, Debug, PartialEq, Eq, Structural)]
pub enum Corner {
    TopLeft,
    TopRight,
    BottomLeft,
    BottomRight,
    All,
}

/// The points (x, y), x <= y, of one octant that the midpoint circle algorithm
/// visits from (x, y) with error term `err`, within `fuel` points.
pub open spec fn arc_trace(x: int, y: int, err: int, fuel: nat) -> Seq<(int, int)>
    decreases fuel,
{
    if fuel == 0 || x > y {
        Seq::empty()
    } else {
        let nx = x + 1;
        let ny = if err < 0 { y } else { y - 1 };
        let nerr = if err < 0 { err + 2 * nx + 1 } else { err + 2 * (nx - ny) + 1 };
        seq![(x, y)] + arc_trace(nx, ny, nerr, (fuel - 1) as nat)
    }
}

/// The octant points of the midpoint circle of radius `r`.
pub open spec fn arc_points(r: int) -> Seq<(int, int)> {
    if r < 0 {
        Seq::empty()
    } else {
        arc_trace(0, r, 1 - r, (r + 1) as nat)
    }
}

/// The midpoint test value of the circle of radius `r` at (x, y): `x^2 + y^2 - y - r^2`,
/// that is `x^2 + (y - 1/2)^2 - r^2 - 1/4`; not positive while the point halfway down
/// to the next row lies inside the circle.
spec fn midpoint_value(x: int, y: int, r: int) -> int {
    x * x + y * y - y - r * r
}

/// A point of the circle's octant: at or below the diagonal's upper side, within the
/// radius, and off the ideal circle by at most the radius in `x^2 + y^2 - r^2`.
spec fn octant_point_ok(p: (int, int), r: int) -> bool {
    &&& 0 <= p.0 <= p.1 <= r
    &&& -r <= p.0 * p.0 + p.1 * p.1 - r * r <= r
}

proof fn lemma_midpoint_steps(x: int, y: int, r: int)
    ensures
        midpoint_value(x + 1, y, r) == midpoint_value(x, y, r) + 2 * x + 1,
        midpoint_value(x, y - 1, r) == midpoint_value(x, y, r) - 2 * y + 2,
        midpoint_value(x, y + 1, r) == midpoint_value(x, y, r) + 2 * y,
        x * x + y * y - r * r == midpoint_value(x, y, r) + y,
{
    assert((x + 1) * (x + 1) == x * x + 2 * x + 1) by (nonlinear_arith);
    assert((y - 1) * (y - 1) == y * y - 2 * y + 1) by (nonlinear_arith);
    assert((y + 1) * (y + 1) == y * y + 2 * y + 1) by (nonlinear_arith);
}

proof fn lemma_arc_trace_ok(x: int, y: int, err: int, fuel: nat, r: int)
    requires
        0 <= x,
        y <= r,
        err == midpoint_value(x + 1, y, r),
        x <= y ==> midpoint_value(x, y, r) <= 0,
        midpoint_value(x, y + 1, r) >= 0,
        x <= y ==> fuel >= y - x + 1,
    ensures
        ({
            let t = arc_trace(x, y, err, fuel);
            &&& x <= y ==> t.len() >= 1 && t[0] == (x, y)
            &&& x > y ==> t.len() == 0
            &&& forall|k: int| 0 <= k < t.len() ==> octant_point_ok(#[trigger] t[k], r)
            &&& forall|k: int|
                0 <= k < t.len() - 1 ==> #[trigger] t[k + 1] == (t[k].0 + 1, t[k].1) || t[k + 1] == (t[k].0 + 1, t[k].1 - 1)
            &&& t.len() > 0 ==> t.last().0 >= t.last().1 - 1
        }),
    decreases fuel,
{
    let t = arc_trace(x, y, err, fuel);
    if x <= y {
        lemma_midpoint_steps(x, y, r);
        lemma_midpoint_steps(x + 1, y, r);
        lemma_midpoint_steps(x + 1, y - 1, r);
        lemma_midpoint_steps(x, y + 1, r);
        lemma_midpoint_steps(x + 1, y + 1, r);
        let nx = x + 1;
        let ny = if err < 0 { y } else { y - 1 };
        let nerr = if err < 0 { err + 2 * nx + 1 } else { err + 2 * (nx - ny) + 1 };
        assert(nerr == midpoint_value(nx + 1, ny, r));
        assert(midpoint_value(nx, ny + 1, r) >= 0);
        assert(nx <= ny ==> midpoint_value(nx, ny, r) <= 0);
        lemma_arc_trace_ok(nx, ny, nerr, (fuel - 1) as nat, r);
        let rest = arc_trace(nx, ny, nerr, (fuel - 1) as nat);
        assert(t == seq![(x, y)] + rest);
        assert(octant_point_ok((x, y), r));
        assert forall|k: int| 0 <= k < t.len() implies octant_point_ok(#[trigger] t[k], r) by {
            if k > 0 {
                assert(t[k] == rest[k - 1]);
            }
        }
        assert forall|k: int| 0 <= k < t.len() - 1 implies #[trigger] t[k + 1] == (t[k].0 + 1, t[k].1) || t[k + 1] == (
            t[k].0 + 1,
            t[k].1 - 1,
        ) by {
            if k > 0 {
                let j = k - 1;
                assert(t[k] == rest[j] && t[k + 1] == rest[j + 1]);
                assert(rest[j + 1] == (rest[j].0 + 1, rest[j].1) || rest[j + 1] == (rest[j].0 + 1, rest[j].1 - 1));
            } else {
                assert(rest.len() > 0);
                assert(nx <= ny);
                assert(t[1] == rest[0]);
            }
        }
        if rest.len() > 0 {
            assert(t.last() == rest.last());
        }
    }
}

/// The midpoint circle's octant: for a radius `r >= 0` its points run from (0, r),
/// one column at a time, each one row down at most, until the diagonal (the last
/// point has `x >= y - 1`); every point has `0 <= x <= y <= r` and lies off the ideal
/// circle by at most `r` in `x^2 + y^2 - r^2`. Mirrored into the eight octants they
/// form a closed ring.
pub proof fn lemma_arc_points_ring(r: int)
    requires
        r >= 0,
    ensures
        arc_points(r).len() >= 1,
        arc_points(r)[0] == (0int, r),
        forall|k: int|
            0 <= k < arc_points(r).len() ==> {
                let p = #[trigger] arc_points(r)[k];
                &&& 0 <= p.0 <= p.1 <= r
                &&& -r <= p.0 * p.0 + p.1 * p.1 - r * r <= r
            },
        forall|k: int|
            0 <= k < arc_points(r).len() - 1 ==> #[trigger] arc_points(r)[k + 1] == (arc_points(r)[k].0 + 1, arc_points(
                r,
            )[k].1) || arc_points(r)[k + 1] == (arc_points(r)[k].0 + 1, arc_points(r)[k].1 - 1),
        arc_points(r).last().0 >= arc_points(r).last().1 - 1,
{
    lemma_midpoint_steps(0, r, r);
    lemma_midpoint_steps(1, r, r);
    lemma_midpoint_steps(0, r + 1, r);
    assert(r * r - r - r * r == -r);
    lemma_arc_trace_ok(0, r, 1 - r, (r + 1) as nat, r);
    let t = arc_points(r);
    assert forall|k: int| 0 <= k < t.len() implies {
        let p = #[trigger] t[k];
        &&& 0 <= p.0 <= p.1 <= r
        &&& -r <= p.0 * p.0 + p.1 * p.1 - r * r <= r
    } by {
        assert(octant_point_ok(t[k], r));
    }
}

/// `v` with the sign given by `positive`.
pub open spec fn signed(positive: bool, v: int) -> int {
    if positive {
        v
    } else {
        -v
    }
}

/// What the quarter towards (right, down) of the circle around (cx, cy) covers for
/// the octant point (x, y): its two mirrored points, or, when filled, the horizontal
/// runs from the centre column to them.
pub open spec fn quarter_covers(
    right: bool,
    down: bool,
    cx: int,
    cy: int,
    x: int,
    y: int,
    filled: bool,
    px: int,
    py: int,
) -> bool {
    let ax = cx + signed(right, x);
    let ay = cy + signed(down, y);
    let bx = cx + signed(right, y);
    let by = cy + signed(down, x);
    if filled {
        (py == ay && between(px, cx, ax)) || (py == by && between(px, cx, bx))
    } else {
        (px == ax && py == ay) || (px == bx && py == by)
    }
}

/// What `corner` of the circle around (cx, cy) covers for the octant point (x, y).
pub open spec fn corner_point_covers(
    corner: Corner,
    cx: int,
    cy: int,
    x: int,
    y: int,
    filled: bool,
    px: int,
    py: int,
) -> bool {
    match corner {
        Corner::TopLeft => quarter_covers(false, false, cx, cy, x, y, filled, px, py),
        Corner::TopRight => quarter_covers(true, false, cx, cy, x, y, filled, px, py),
        Corner::BottomLeft => quarter_covers(false, true, cx, cy, x, y, filled, px, py),
        Corner::BottomRight => quarter_covers(true, true, cx, cy, x, y, filled, px, py),
        Corner::All => {
            ||| quarter_covers(false, false, cx, cy, x, y, filled, px, py)
            ||| quarter_covers(true, false, cx, cy, x, y, filled, px, py)
            ||| quarter_covers(false, true, cx, cy, x, y, filled, px, py)
            ||| quarter_covers(true, true, cx, cy, x, y, filled, px, py)
        },
    }
}

/// What `corner` of the midpoint circle of radius `r` around (cx, cy) covers.
pub open spec fn arc_covers(corner: Corner, cx: int, cy: int, r: int, filled: bool, px: int, py: int) -> bool {
    exists|k: int|
        0 <= k < arc_points(r).len() && #[trigger] corner_point_covers(
            corner,
            cx,
            cy,
            arc_points(r)[k].0,
            arc_points(r)[k].1,
            filled,
            px,
            py,
        )
}

/// Whether some point of `pts` covers (px, py) for `corner` around (cx, cy).
pub open spec fn points_cover(pts: Seq<(int, int)>, corner: Corner, cx: int, cy: int, filled: bool, px: int, py: int) -> bool {
    exists|k: int|
        0 <= k < pts.len() && #[trigger] corner_point_covers(corner, cx, cy, pts[k].0, pts[k].1, filled, px, py)
}

proof fn lemma_points_cover_push(
    pts: Seq<(int, int)>,
    p: (int, int),
    corner: Corner,
    cx: int,
    cy: int,
    filled: bool,
    px: int,
    py: int,
)
    ensures
        points_cover(pts.push(p), corner, cx, cy, filled, px, py) == (points_cover(pts, corner, cx, cy, filled, px, py)
            || corner_point_covers(corner, cx, cy, p.0, p.1, filled, px, py)),
{
    let q = pts.push(p);
    if points_cover(q, corner, cx, cy, filled, px, py) {
        let k = choose|k: int| 0 <= k < q.len() && #[trigger] corner_point_covers(corner, cx, cy, q[k].0, q[k].1, filled, px, py);
        if k < pts.len() {
            assert(pts[k] == q[k]);
        }
    }
    if points_cover(pts, corner, cx, cy, filled, px, py) {
        let k = choose|k: int| 0 <= k < pts.len() && #[trigger] corner_point_covers(corner, cx, cy, pts[k].0, pts[k].1, filled, px, py);
        assert(q[k] == pts[k]);
    }
    if corner_point_covers(corner, cx, cy, p.0, p.1, filled, px, py) {
        assert(q[pts.len() as int] == p);
    }
}

/// What the rounded rectangle with corners (x, y) and (right, bottom) and corner
/// radius `r` covers: four straight sides between the corner arcs, the four arcs,
/// and, when filled, the rows between the arcs' centres and the runs between the arcs.
pub open spec fn round_rect_covers(x: int, y: int, right: int, bottom: int, r: int, filled: bool, px: int, py: int) -> bool {
    ||| (py == y || py == bottom) && between(px, x + r, right - r)
    ||| (px == x || px == right) && between(py, y + r, bottom - r)
    ||| arc_covers(Corner::TopLeft, x + r, y + r, r, filled, px, py)
    ||| arc_covers(Corner::TopRight, right - r, y + r, r, filled, px, py)
    ||| arc_covers(Corner::BottomLeft, x + r, bottom - r, r, filled, px, py)
    ||| arc_covers(Corner::BottomRight, right - r, bottom - r, r, filled, px, py)
    ||| filled && y + r <= py <= bottom - r && between(px, x, right)
    ||| filled && (0 <= py - y < r || 0 <= bottom - py < r) && between(px, x + r, right - r)
}

/// `c` mirrored left to right.
pub open spec fn corner_mirror_x(c: Corner) -> Corner {
    match c {
        Corner::TopLeft => Corner::TopRight,
        Corner::TopRight => Corner::TopLeft,
        Corner::BottomLeft => Corner::BottomRight,
        Corner::BottomRight => Corner::BottomLeft,
        Corner::All => Corner::All,
    }
}

/// `c` mirrored top to bottom.
pub open spec fn corner_mirror_y(c: Corner) -> Corner {
    match c {
        Corner::TopLeft => Corner::BottomLeft,
        Corner::TopRight => Corner::BottomRight,
        Corner::BottomLeft => Corner::TopLeft,
        Corner::BottomRight => Corner::TopRight,
        Corner::All => Corner::All,
    }
}

proof fn lemma_corner_point_mirror(c: Corner, cx: int, cy: int, a: int, b: int, filled: bool, px: int, py: int, sx: int, sy: int)
    ensures
        corner_point_covers(c, cx, cy, a, b, filled, px, py) == corner_point_covers(
            corner_mirror_x(c),
            sx - cx,
            cy,
            a,
            b,
            filled,
            sx - px,
            py,
        ),
        corner_point_covers(c, cx, cy, a, b, filled, px, py) == corner_point_covers(
            corner_mirror_y(c),
            cx,
            sy - cy,
            a,
            b,
            filled,
            px,
            sy - py,
        ),
{
}

/// A corner arc mirrored left to right about `sx / 2` (or top to bottom about
/// `sy / 2`) is the mirrored corner's arc around the mirrored centre.
pub proof fn lemma_arc_mirror(c: Corner, cx: int, cy: int, r: int, filled: bool, px: int, py: int, sx: int, sy: int)
    ensures
        arc_covers(c, cx, cy, r, filled, px, py) == arc_covers(corner_mirror_x(c), sx - cx, cy, r, filled, sx - px, py),
        arc_covers(c, cx, cy, r, filled, px, py) == arc_covers(corner_mirror_y(c), cx, sy - cy, r, filled, px, sy - py),
{
    let pts = arc_points(r);
    if arc_covers(c, cx, cy, r, filled, px, py) {
        let k = choose|k: int| 0 <= k < pts.len() && #[trigger] corner_point_covers(c, cx, cy, pts[k].0, pts[k].1, filled, px, py);
        lemma_corner_point_mirror(c, cx, cy, pts[k].0, pts[k].1, filled, px, py, sx, sy);
    }
    if arc_covers(corner_mirror_x(c), sx - cx, cy, r, filled, sx - px, py) {
        let k = choose|k: int|
            0 <= k < pts.len() && #[trigger] corner_point_covers(corner_mirror_x(c), sx - cx, cy, pts[k].0, pts[k].1, filled, sx - px, py);
        lemma_corner_point_mirror(c, cx, cy, pts[k].0, pts[k].1, filled, px, py, sx, sy);
    }
    if arc_covers(corner_mirror_y(c), cx, sy - cy, r, filled, px, sy - py) {
        let k = choose|k: int|
            0 <= k < pts.len() && #[trigger] corner_point_covers(corner_mirror_y(c), cx, sy - cy, pts[k].0, pts[k].1, filled, px, sy - py);
        lemma_corner_point_mirror(c, cx, cy, pts[k].0, pts[k].1, filled, px, py, sx, sy);
    }
}

/// A rounded rectangle is symmetric: with corners (x, y) and (right, bottom), pixel
/// (px, py) is covered exactly when its mirror image left to right, (x + right - px, py),
/// is, and exactly when its mirror image top to bottom, (px, y + bottom - py), is;
/// filled or not.
pub proof fn lemma_round_rect_symmetric(x: int, y: int, right: int, bottom: int, r: int, filled: bool, px: int, py: int)
    ensures
        round_rect_covers(x, y, right, bottom, r, filled, px, py) == round_rect_covers(x, y, right, bottom, r, filled, x + right - px, py),
        round_rect_covers(x, y, right, bottom, r, filled, px, py) == round_rect_covers(x, y, right, bottom, r, filled, px, y + bottom - py),
{
    let sx = x + right;
    let sy = y + bottom;
    lemma_arc_mirror(Corner::TopLeft, x + r, y + r, r, filled, px, py, sx, sy);
    lemma_arc_mirror(Corner::TopRight, right - r, y + r, r, filled, px, py, sx, sy);
    lemma_arc_mirror(Corner::BottomLeft, x + r, bottom - r, r, filled, px, py, sx, sy);
    lemma_arc_mirror(Corner::BottomRight, right - r, bottom - r, r, filled, px, py, sx, sy);
}

proof fn lemma_arc_within(c: Corner, cx: int, cy: int, r: int, filled: bool, px: int, py: int)
    requires
        r >= 0,
        arc_covers(c, cx, cy, r, filled, px, py),
    ensures
        cx - r <= px <= cx + r,
        cy - r <= py <= cy + r,
        c == Corner::TopLeft ==> px <= cx && py <= cy,
        c == Corner::TopRight ==> px >= cx && py <= cy,
        c == Corner::BottomLeft ==> px <= cx && py >= cy,
        c == Corner::BottomRight ==> px >= cx && py >= cy,
{
    lemma_arc_points_ring(r);
    let pts = arc_points(r);
    let k = choose|k: int| 0 <= k < pts.len() && #[trigger] corner_point_covers(c, cx, cy, pts[k].0, pts[k].1, filled, px, py);
    let p = pts[k];
    assert(0 <= p.0 <= p.1 <= r);
}

/// A rounded rectangle lies within its bounding box, and filled it covers the whole
/// cross between its corner arcs: every row between the arcs' centres from edge to
/// edge, and every column between the arcs' centres from top to bottom. Here the
/// radius is at most half of each side, as `draw_round_rect` limits it.
pub proof fn lemma_round_rect_in_box(x: int, y: int, right: int, bottom: int, r: int, filled: bool, px: int, py: int)
    requires
        x <= right,
        y <= bottom,
        r >= 0,
        2 * r <= right - x + 1,
        2 * r <= bottom - y + 1,
    ensures
        round_rect_covers(x, y, right, bottom, r, filled, px, py) ==> x <= px <= right && y <= py <= bottom,
        filled && y + r <= py <= bottom - r && x <= px <= right ==> round_rect_covers(x, y, right, bottom, r, filled, px, py),
        filled && y <= py <= bottom && x + r <= px <= right - r ==> round_rect_covers(x, y, right, bottom, r, filled, px, py),
{
    if round_rect_covers(x, y, right, bottom, r, filled, px, py) {
        if arc_covers(Corner::TopLeft, x + r, y + r, r, filled, px, py) {
            lemma_arc_within(Corner::TopLeft, x + r, y + r, r, filled, px, py);
        }
        if arc_covers(Corner::TopRight, right - r, y + r, r, filled, px, py) {
            lemma_arc_within(Corner::TopRight, right - r, y + r, r, filled, px, py);
        }
        if arc_covers(Corner::BottomLeft, x + r, bottom - r, r, filled, px, py) {
            lemma_arc_within(Corner::BottomLeft, x + r, bottom - r, r, filled, px, py);
        }
        if arc_covers(Corner::BottomRight, right - r, bottom - r, r, filled, px, py) {
            lemma_arc_within(Corner::BottomRight, right - r, bottom - r, r, filled, px, py);
        }
    }
}

proof fn lemma_round_rect_row_left(x: int, y: int, right: int, bottom: int, r: int, q: int, py: int, p: int)
    requires
        x <= right,
        y <= bottom,
        r >= 0,
        2 * r <= right - x + 1,
        2 * r <= bottom - y + 1,
        round_rect_covers(x, y, right, bottom, r, true, q, py),
        q <= p <= x + r,
        p <= right - r,
    ensures
        round_rect_covers(x, y, right, bottom, r, true, p, py),
{
    lemma_arc_points_ring(r);
    let pts = arc_points(r);
    let cx = x + r;
    if y + r <= py <= bottom - r {
        lemma_round_rect_in_box(x, y, right, bottom, r, true, q, py);
    } else if arc_covers(Corner::TopLeft, cx, y + r, r, true, q, py) {
        let k = choose|k: int| 0 <= k < pts.len() && #[trigger] corner_point_covers(Corner::TopLeft, cx, y + r, pts[k].0, pts[k].1, true, q, py);
        assert(0 <= pts[k].0 <= pts[k].1);
        assert(corner_point_covers(Corner::TopLeft, cx, y + r, pts[k].0, pts[k].1, true, p, py));
    } else if arc_covers(Corner::BottomLeft, cx, bottom - r, r, true, q, py) {
        let k = choose|k: int|
            0 <= k < pts.len() && #[trigger] corner_point_covers(Corner::BottomLeft, cx, bottom - r, pts[k].0, pts[k].1, true, q, py);
        assert(0 <= pts[k].0 <= pts[k].1);
        assert(corner_point_covers(Corner::BottomLeft, cx, bottom - r, pts[k].0, pts[k].1, true, p, py));
    } else if arc_covers(Corner::TopRight, right - r, y + r, r, true, q, py) {
        lemma_arc_within(Corner::TopRight, right - r, y + r, r, true, q, py);
    } else if arc_covers(Corner::BottomRight, right - r, bottom - r, r, true, q, py) {
        lemma_arc_within(Corner::BottomRight, right - r, bottom - r, r, true, q, py);
    } else if q == x && between(py, y + r, bottom - r) {
        if py == y + r {
            assert(corner_point_covers(Corner::TopLeft, cx, y + r, pts[0].0, pts[0].1, true, p, py));
        } else {
            assert(corner_point_covers(Corner::BottomLeft, cx, bottom - r, pts[0].0, pts[0].1, true, p, py));
        }
    }
}

/// A filled rounded rectangle has no holes along its rows: every pixel between two
/// covered pixels of the same row is covered (radius at most half of each side, as
/// `draw_round_rect` limits it).
pub proof fn lemma_round_rect_rows_solid(x: int, y: int, right: int, bottom: int, r: int, p1: int, p2: int, p: int, py: int)
    requires
        x <= right,
        y <= bottom,
        r >= 0,
        2 * r <= right - x + 1,
        2 * r <= bottom - y + 1,
        round_rect_covers(x, y, right, bottom, r, true, p1, py),
        round_rect_covers(x, y, right, bottom, r, true, p2, py),
        p1 <= p <= p2,
    ensures
        round_rect_covers(x, y, right, bottom, r, true, p, py),
{
    let a = x + r;
    let b = right - r;
    let lo = if a <= b { a } else { b };
    let hi = if a <= b { b } else { a };
    lemma_round_rect_in_box(x, y, right, bottom, r, true, p1, py);
    if lo <= p <= hi {
        if !(y + r <= py <= bottom - r) {
            assert(0 <= py - y < r || 0 <= bottom - py < r);
        }
    } else if p < lo {
        lemma_round_rect_row_left(x, y, right, bottom, r, p1, py, p);
    } else {
        let sx = x + right;
        lemma_round_rect_symmetric(x, y, right, bottom, r, true, p2, py);
        lemma_round_rect_symmetric(x, y, right, bottom, r, true, p, py);
        lemma_round_rect_row_left(x, y, right, bottom, r, sx - p2, py, sx - p);
    }
}

impl ScreenController {
    /// Draws the two mirrored points `corner` and `invert_corner`, or, when
    /// `fill_from` gives their starting points, the lines from there to them.
    pub fn draw_round_quarter(
        &mut self,
        corner: (i64, i64),
        invert_corner: (i64, i64),
        fill_from: Option<((i64, i64), (i64, i64))>,
    )
        requires
            coord_ok(corner.0 as int) && coord_ok(corner.1 as int),
            coord_ok(invert_corner.0 as int) && coord_ok(invert_corner.1 as int),
            fill_from matches Some(f) ==> f.0.1 == corner.1 && f.1.1 == invert_corner.1 && coord_ok(f.0.0 as int)
                && coord_ok(f.1.0 as int),
        ensures
            painted(
                *old(self),
                *final(self),
                |px: int, py: int|
                    match fill_from {
                        Some(f) => (py == corner.1 && between(px, f.0.0 as int, corner.0 as int)) || (py
                            == invert_corner.1 && between(px, f.1.0 as int, invert_corner.0 as int)),
                        None => (px == corner.0 && py == corner.1) || (px == invert_corner.0 && py
                            == invert_corner.1),
                    },
                true,
            ),
    {
        let ghost s0 = *self;
        if let Some(fill_from) = fill_from {
            self.hline(fill_from.0.0, corner.0, corner.1);
            let ghost s1 = *self;
            self.hline(fill_from.1.0, invert_corner.0, invert_corner.1);
            proof {
                lemma_painted_trans(
                    s0,
                    s1,
                    *self,
                    |px: int, py: int| py == corner.1 && between(px, fill_from.0.0 as int, corner.0 as int),
                    |px: int, py: int| py == invert_corner.1 && between(px, fill_from.1.0 as int, invert_corner.0 as int),
                    |px: int, py: int|
                        match Some(fill_from) {
                            Some(f) => (py == corner.1 && between(px, f.0.0 as int, corner.0 as int)) || (py
                                == invert_corner.1 && between(px, f.1.0 as int, invert_corner.0 as int)),
                            None => (px == corner.0 && py == corner.1) || (px == invert_corner.0 && py
                                == invert_corner.1),
                        },
                    true,
                );
            }
        } else {
            self.plot(corner.0, corner.1, false);
            let ghost s1 = *self;
            self.plot(invert_corner.0, invert_corner.1, false);
            proof {
                lemma_painted_trans(
                    s0,
                    s1,
                    *self,
                    |px: int, py: int| px == corner.0 && py == corner.1,
                    |px: int, py: int| px == invert_corner.0 && py == invert_corner.1,
                    |px: int, py: int|
                        match fill_from {
                            Some(f) => (py == corner.1 && between(px, f.0.0 as int, corner.0 as int)) || (py
                                == invert_corner.1 && between(px, f.1.0 as int, invert_corner.0 as int)),
                            None => (px == corner.0 && py == corner.1) || (px == invert_corner.0 && py
                                == invert_corner.1),
                        },
                    true,
                );
            }
        }
    }

    fn draw_quarter_of(&mut self, right: bool, down: bool, cx: i64, cy: i64, x: i64, y: i64, filled: bool)
        requires
            -0x8_0000 <= cx <= 0x8_0000,
            -0x8_0000 <= cy <= 0x8_0000,
            -0x2_0000 <= x <= 0x2_0000,
            -0x2_0000 <= y <= 0x2_0000,
        ensures
            painted(*old(self), *final(self), |px: int, py: int| quarter_covers(right, down, cx as int, cy as int, x as int, y as int, filled, px, py), true),
    {
        let ax = if right { cx + x } else { cx - x };
        let ay = if down { cy + y } else { cy - y };
        let bx = if right { cx + y } else { cx - y };
        let by = if down { cy + x } else { cy - x };
        let ghost s0 = *self;
        if filled {
            self.draw_round_quarter((ax, ay), (bx, by), Some(((cx, ay), (cx, by))));
        } else {
            self.draw_round_quarter((ax, ay), (bx, by), None);
        }
        proof {
            let f = if filled { Some(((cx, ay), (cx, by))) } else { None };
            lemma_painted_ext(
                s0,
                *self,
                |px: int, py: int|
                    match f {
                        Some(f) => (py == ay && between(px, f.0.0 as int, ax as int)) || (py == by
                            && between(px, f.1.0 as int, bx as int)),
                        None => (px == ax && py == ay) || (px == bx && py == by),
                    },
                |px: int, py: int| quarter_covers(right, down, cx as int, cy as int, x as int, y as int, filled, px, py),
                true,
            );
        }
    }

    /// Draws what `corner` of the circle around (cx, cy) covers for the octant point (x, y).
    pub fn draw_round_corner_px(&mut self, cx: i64, cy: i64, x: i64, y: i64, filled: bool, corner: &Corner)
        requires
            -0x8_0000 <= cx <= 0x8_0000,
            -0x8_0000 <= cy <= 0x8_0000,
            -0x2_0000 <= x <= 0x2_0000,
            -0x2_0000 <= y <= 0x2_0000,
        ensures
            painted(*old(self), *final(self), |px: int, py: int| corner_point_covers(*corner, cx as int, cy as int, x as int, y as int, filled, px, py), true),
        decreases (if *corner is All { 1int } else { 0int }),
    {
        let ghost s0 = *self;
        match corner {
            Corner::TopLeft => self.draw_quarter_of(false, false, cx, cy, x, y, filled),
            Corner::TopRight => self.draw_quarter_of(true, false, cx, cy, x, y, filled),
            Corner::BottomLeft => self.draw_quarter_of(false, true, cx, cy, x, y, filled),
            Corner::BottomRight => self.draw_quarter_of(true, true, cx, cy, x, y, filled),
            Corner::All => {
                let ghost q1 = |px: int, py: int| quarter_covers(false, false, cx as int, cy as int, x as int, y as int, filled, px, py);
                let ghost q2 = |px: int, py: int| quarter_covers(true, false, cx as int, cy as int, x as int, y as int, filled, px, py);
                let ghost q3 = |px: int, py: int| quarter_covers(false, true, cx as int, cy as int, x as int, y as int, filled, px, py);
                let ghost q4 = |px: int, py: int| quarter_covers(true, true, cx as int, cy as int, x as int, y as int, filled, px, py);
                let ghost q12 = |px: int, py: int| q1(px, py) || q2(px, py);
                let ghost q123 = |px: int, py: int| q12(px, py) || q3(px, py);
                self.draw_round_corner_px(cx, cy, x, y, filled, &Corner::TopLeft);
                let ghost s1 = *self;
                self.draw_round_corner_px(cx, cy, x, y, filled, &Corner::TopRight);
                proof {
                    lemma_painted_trans(s0, s1, *self, q1, q2, q12, true);
                }
                let ghost s2 = *self;
                self.draw_round_corner_px(cx, cy, x, y, filled, &Corner::BottomLeft);
                proof {
                    lemma_painted_trans(s0, s2, *self, q12, q3, q123, true);
                }
                let ghost s3 = *self;
                self.draw_round_corner_px(cx, cy, x, y, filled, &Corner::BottomRight);
                proof {
                    lemma_painted_trans(
                        s0,
                        s3,
                        *self,
                        q123,
                        q4,
                        |px: int, py: int| corner_point_covers(*corner, cx as int, cy as int, x as int, y as int, filled, px, py),
                        true,
                    );
                }
            },
        }
    }

    /// Draws `corner` of the midpoint circle of radius `r` around `center`.
    pub fn draw_arc_quadrants(&mut self, center: (i64, i64), r: i64, filled: bool, corner: Corner)
        requires
            -0x8_0000 <= center.0 <= 0x8_0000,
            -0x8_0000 <= center.1 <= 0x8_0000,
            -0x1_0000 <= r <= 0x1_0000,
        ensures
            painted(*old(self), *final(self), |px: int, py: int| arc_covers(corner, center.0 as int, center.1 as int, r as int, filled, px, py), true),
    {
        let ghost s0 = *self;
        let mut x: i64 = 0;
        let mut y: i64 = r;
        let mut err: i64 = 1 - r;
        let ghost all = arc_points(r as int);
        let ghost mut visited: Seq<(int, int)> = Seq::empty();
        let ghost mut fuel: nat = if r < 0 { 0 } else { (r + 1) as nat };
        let ghost cx = center.0 as int;
        let ghost cy = center.1 as int;
        proof {
            lemma_painted_refl(*self, |px: int, py: int| points_cover(visited, corner, cx, cy, filled, px, py), true);
            assert(all == visited + arc_trace(x as int, y as int, err as int, fuel));
        }
        while x <= y
            invariant
                -0x8_0000 <= center.0 <= 0x8_0000,
                -0x8_0000 <= center.1 <= 0x8_0000,
                -0x1_0000 <= r <= 0x1_0000,
                cx == center.0 && cy == center.1,
                0 <= x <= 0x1_0001,
                -0x1_0001 <= y <= r,
                -(0x10_0000 + x * 0x4_0000) <= err <= 0x10_0000 + x * 0x4_0000,
                x <= y ==> fuel >= y - x + 1,
                all == visited + arc_trace(x as int, y as int, err as int, fuel),
                all == arc_points(r as int),
                painted(s0, *self, |px: int, py: int| points_cover(visited, corner, cx, cy, filled, px, py), true),
            decreases r - x + 1,
        {
            let ghost before = *self;
            self.draw_round_corner_px(center.0, center.1, x, y, filled, &corner);
            proof {
                let v2 = visited.push((x as int, y as int));
                assert forall|px: int, py: int| on_screen(px, py) implies #[trigger] points_cover(v2, corner, cx, cy, filled, px, py)
                    == (points_cover(visited, corner, cx, cy, filled, px, py) || corner_point_covers(corner, cx, cy, x as int, y as int, filled, px, py)) by {
                    lemma_points_cover_push(visited, (x as int, y as int), corner, cx, cy, filled, px, py);
                }
                lemma_painted_trans(
                    s0,
                    before,
                    *self,
                    |px: int, py: int| points_cover(visited, corner, cx, cy, filled, px, py),
                    |px: int, py: int| corner_point_covers(corner, cx, cy, x as int, y as int, filled, px, py),
                    |px: int, py: int| points_cover(v2, corner, cx, cy, filled, px, py),
                    true,
                );
                assert(all == v2 + arc_trace(x + 1, if err < 0 { y as int } else { y - 1 }, if err < 0 { err + 2 * (x + 1) + 1 } else { err + 2 * ((x + 1) - (y - 1)) + 1 }, (fuel - 1) as nat));
                visited = v2;
                fuel = (fuel - 1) as nat;
            }
            x = x + 1;
            if err < 0 {
                err = err + 2 * x + 1;
            } else {
                y = y - 1;
                err = err + 2 * (x - y) + 1;
            }
        }
        proof {
            assert(all == visited);
            lemma_painted_ext(
                s0,
                *self,
                |px: int, py: int| points_cover(visited, corner, cx, cy, filled, px, py),
                |px: int, py: int| arc_covers(corner, center.0 as int, center.1 as int, r as int, filled, px, py),
                true,
            );
        }
    }

    /// Draws the `width` x `height` rectangle with top-left corner `anchor` whose
    /// corners are quarter circles of radius `corner_radius`, limited to half of the
    /// shorter side; filled or not. An empty rectangle draws nothing.
    pub fn draw_round_rect(
        &mut self,
        anchor: (i16, i16),
        width: u16,
        height: u16,
        corner_radius: u16,
        filled: bool,
    )
        ensures
            painted(
                *old(self),
                *final(self),
                |px: int, py: int|
                    width >= 1 && height >= 1 && round_rect_covers(
                        anchor.0 as int,
                        anchor.1 as int,
                        anchor.0 + u16_as_i16(width) - 1,
                        anchor.1 + u16_as_i16(height) - 1,
                        if corner_radius <= (if width <= height { width } else { height }) / 2 {
                            corner_radius as int
                        } else {
                            ((if width <= height { width } else { height }) / 2) as int
                        },
                        filled,
                        px,
                        py,
                    ),
                true,
            ),
    {
        let ghost s0 = *self;
        if width < 1 || height < 1 {
            proof {
                lemma_painted_refl(*self, |px: int, py: int| width >= 1 && height >= 1, true);
            }
            return;
        }
        let max_radius = if width <= height { width } else { height } / 2;
        let r: i64 = if corner_radius <= max_radius { corner_radius as i64 } else { max_radius as i64 };
        let x = anchor.0 as i64;
        let y = anchor.1 as i64;
        let w: i64 = if width <= 32767 { width as i64 } else { width as i64 - 65536 };
        let h: i64 = if height <= 32767 { height as i64 } else { height as i64 - 65536 };
        let right = x + w - 1;
        let bottom = y + h - 1;
        let ghost c1 = |px: int, py: int| py == y && between(px, x + r, right - r);
        let ghost c2 = |px: int, py: int| px == x && between(py, y + r, bottom - r);
        let ghost c3 = |px: int, py: int| py == bottom && between(px, x + r, right - r);
        let ghost c4 = |px: int, py: int| px == right && between(py, y + r, bottom - r);
        let ghost a1 = |px: int, py: int| arc_covers(Corner::TopLeft, x + r, y + r, r as int, filled, px, py);
        let ghost a2 = |px: int, py: int| arc_covers(Corner::TopRight, right - r, y + r, r as int, filled, px, py);
        let ghost a3 = |px: int, py: int| arc_covers(Corner::BottomLeft, x + r, bottom - r, r as int, filled, px, py);
        let ghost a4 = |px: int, py: int| arc_covers(Corner::BottomRight, right - r, bottom - r, r as int, filled, px, py);
        let ghost k2 = |px: int, py: int| c1(px, py) || c2(px, py);
        let ghost k3 = |px: int, py: int| k2(px, py) || c3(px, py);
        let ghost k4 = |px: int, py: int| k3(px, py) || c4(px, py);
        let ghost k5 = |px: int, py: int| k4(px, py) || a1(px, py);
        let ghost k6 = |px: int, py: int| k5(px, py) || a2(px, py);
        let ghost k7 = |px: int, py: int| k6(px, py) || a3(px, py);
        let ghost outline = |px: int, py: int| k7(px, py) || a4(px, py);
        self.hline(x + r, right - r, y);
        let ghost s1 = *self;
        self.vline(x, y + r, bottom - r);
        proof {
            lemma_painted_trans(s0, s1, *self, c1, c2, k2, true);
        }
        let ghost s2 = *self;
        self.hline(x + r, right - r, bottom);
        proof {
            lemma_painted_trans(s0, s2, *self, k2, c3, k3, true);
        }
        let ghost s3 = *self;
        self.vline(right, y + r, bottom - r);
        proof {
            lemma_painted_trans(s0, s3, *self, k3, c4, k4, true);
        }
        let ghost s4 = *self;
        self.draw_arc_quadrants((x + r, y + r), r, filled, Corner::TopLeft);
        proof {
            lemma_painted_trans(s0, s4, *self, k4, a1, k5, true);
        }
        let ghost s5 = *self;
        self.draw_arc_quadrants((right - r, y + r), r, filled, Corner::TopRight);
        proof {
            lemma_painted_trans(s0, s5, *self, k5, a2, k6, true);
        }
        let ghost s6 = *self;
        self.draw_arc_quadrants((x + r, bottom - r), r, filled, Corner::BottomLeft);
        proof {
            lemma_painted_trans(s0, s6, *self, k6, a3, k7, true);
        }
        let ghost s7 = *self;
        self.draw_arc_quadrants((right - r, bottom - r), r, filled, Corner::BottomRight);
        proof {
            lemma_painted_trans(s0, s7, *self, k7, a4, outline, true);
        }
        let ghost target = |px: int, py: int| round_rect_covers(x as int, y as int, right as int, bottom as int, r as int, filled, px, py);
        if filled {
            let ghost mid = |px: int, py: int| y + r <= py <= bottom - r && between(px, x as int, right as int);
            let ghost with_mid = |px: int, py: int| outline(px, py) || mid(px, py);
            let mut line_offset = y + r;
            let ghost so_far = |px: int, py: int| outline(px, py) || (y + r <= py < line_offset && between(px, x as int, right as int));
            proof {
                lemma_painted_ext(s0, *self, outline, so_far, true);
            }
            while line_offset <= bottom - r
                invariant
                    -0x8000 <= x <= 0x7fff,
                    -0x8000 <= y <= 0x7fff,
                    -0x20000 <= right <= 0x20000,
                    -0x20000 <= bottom <= 0x20000,
                    0 <= r <= 0x8000,
                    y + r <= line_offset,
                    line_offset <= bottom - r + 1 || line_offset == y + r,
                    so_far == (|px: int, py: int| outline(px, py) || (y + r <= py < line_offset && between(px, x as int, right as int))),
                    painted(s0, *self, so_far, true),
                decreases bottom - r + 1 - line_offset,
            {
                let ghost before = *self;
                self.hline(x, right, line_offset);
                proof {
                    let next = |px: int, py: int| outline(px, py) || (y + r <= py < line_offset + 1 && between(px, x as int, right as int));
                    lemma_painted_trans(
                        s0,
                        before,
                        *self,
                        so_far,
                        |px: int, py: int| py == line_offset && between(px, x as int, right as int),
                        next,
                        true,
                    );
                    so_far = next;
                }
                line_offset = line_offset + 1;
            }
            proof {
                lemma_painted_ext(s0, *self, so_far, with_mid, true);
            }
            let mut lo: i64 = 0;
            let ghost so_far2 = |px: int, py: int| with_mid(px, py) || ((0 <= py - y < lo || 0 <= bottom - py < lo) && between(px, x + r, right - r));
            proof {
                lemma_painted_ext(s0, *self, with_mid, so_far2, true);
            }
            while lo < r
                invariant
                    -0x8000 <= x <= 0x7fff,
                    -0x8000 <= y <= 0x7fff,
                    -0x20000 <= right <= 0x20000,
                    -0x20000 <= bottom <= 0x20000,
                    0 <= r <= 0x8000,
                    0 <= lo <= r,
                    so_far2 == (|px: int, py: int| with_mid(px, py) || ((0 <= py - y < lo || 0 <= bottom - py < lo) && between(px, x + r, right - r))),
                    painted(s0, *self, so_far2, true),
                decreases r - lo,
            {
                let ghost before = *self;
                self.hline(x + r, right - r, y + lo);
                let ghost mid1 = *self;
                self.hline(x + r, right - r, bottom - lo);
                proof {
                    let up = |px: int, py: int| py == y + lo && between(px, x + r, right - r);
                    let down = |px: int, py: int| py == bottom - lo && between(px, x + r, right - r);
                    let both = |px: int, py: int| up(px, py) || down(px, py);
                    lemma_painted_trans(before, mid1, *self, up, down, both, true);
                    let next = |px: int, py: int| with_mid(px, py) || ((0 <= py - y < lo + 1 || 0 <= bottom - py < lo + 1) && between(px, x + r, right - r));
                    lemma_painted_trans(s0, before, *self, so_far2, both, next, true);
                    so_far2 = next;
                }
                lo = lo + 1;
            }
            proof {
                lemma_painted_ext(s0, *self, so_far2, target, true);
            }
        } else {
            proof {
                lemma_painted_ext(s0, *self, outline, target, true);
            }
        }
        proof {
            lemma_painted_ext(
                s0,
                *self,
                target,
                |px: int, py: int|
                    width >= 1 && height >= 1 && round_rect_covers(
                        anchor.0 as int,
                        anchor.1 as int,
                        anchor.0 + u16_as_i16(width) - 1,
                        anchor.1 + u16_as_i16(height) - 1,
                        if corner_radius <= (if width <= height { width } else { height }) / 2 {
                            corner_radius as int
                        } else {
                            ((if width <= height { width } else { height }) / 2) as int
                        },
                        filled,
                        px,
                        py,
                    ),
                true,
            );
        }
    }

    /// Draws the midpoint circle of the given radius around `center`, filled or not.
    /// A radius above `i16::MAX` is taken as the negative `i16` it wraps to, which draws nothing.
    pub fn draw_circle(&mut self, center: (i16, i16), radius: u16, filled: bool)
        ensures
            painted(
                *old(self),
                *final(self),
                |px: int, py: int| arc_covers(Corner::All, center.0 as int, center.1 as int, u16_as_i16(radius), filled, px, py),
                true,
            ),
    {
        let r: i64 = if radius <= 32767 { radius as i64 } else { radius as i64 - 65536 };
        self.draw_arc_quadrants((center.0 as i64, center.1 as i64), r, filled, Corner::All);
    }

    /// Draws the line from `start` to `end` with Bresenham's algorithm: every point
    /// of the line that lies on the display is switched on.
    pub fn draw_line(&mut self, start: (i16, i16), end: (i16, i16))
        ensures
            painted(
                *old(self),
                *final(self),
                |px: int, py: int| line_covers(start.0 as int, start.1 as int, end.0 as int, end.1 as int, px, py),
                true,
            ),
    {
        self.draw_line_wide(start.0 as i64, start.1 as i64, end.0 as i64, end.1 as i64);
    }

    /// Bresenham's line between points whose coordinates are at most 2^20 away from 0.
    pub fn draw_line_wide(&mut self, xs: i64, ys: i64, x1: i64, y1: i64)
        requires
            -0x10_0000 <= xs <= 0x10_0000,
            -0x10_0000 <= ys <= 0x10_0000,
            -0x10_0000 <= x1 <= 0x10_0000,
            -0x10_0000 <= y1 <= 0x10_0000,
        ensures
            painted(
                *old(self),
                *final(self),
                |px: int, py: int| line_covers(xs as int, ys as int, x1 as int, y1 as int, px, py),
                true,
            ),
    {
        let ghost start_state = *self;
        let mut x0 = xs;
        let mut y0 = ys;
        let dx: i64 = if x1 - x0 < 0 { -(x1 - x0) } else { x1 - x0 };
        let dy: i64 = if y1 - y0 < 0 { y1 - y0 } else { -(y1 - y0) };
        let dir_x: i64 = if x0 < x1 { 1 } else { -1 };
        let dir_y: i64 = if y0 < y1 { 1 } else { -1 };
        let mut error: i64 = dx + dy;
        let ghost all = line_points(xs as int, ys as int, x1 as int, y1 as int);
        let ghost mut visited: Seq<(int, int)> = Seq::empty();
        let ghost mut fuel: nat = (dx - dy + 1) as nat;
        proof {
            assert(dx * (-dy - abs(y1 - ys) + 1) == dx) by (nonlinear_arith)
                requires
                    dy == -abs(y1 - ys),
            ;
            assert(dy * (dx - abs(x1 - xs) + 1) == dy) by (nonlinear_arith)
                requires
                    dx == abs(x1 - xs),
            ;
            lemma_painted_refl(*self, |px: int, py: int| visited.contains((px, py)), true);
        }
        loop
            invariant_except_break
                0 <= dx <= 0x20_0000,
                -0x20_0000 <= dy <= 0,
                -0x10_0000 <= x1 <= 0x10_0000,
                -0x10_0000 <= y1 <= 0x10_0000,
                line_state_ok(x0 as int, y0 as int, x1 as int, y1 as int, error as int, dx as int, dy as int, dir_x as int, dir_y as int),
                fuel >= abs(x1 - x0) + abs(y1 - y0) + 1,
                all == visited + line_trace(x0 as int, y0 as int, x1 as int, y1 as int, error as int, dx as int, dy as int, dir_x as int, dir_y as int, fuel),
                all == line_points(xs as int, ys as int, x1 as int, y1 as int),
                painted(start_state, *self, |px: int, py: int| visited.contains((px, py)), true),
            ensures
                painted(start_state, *self, |px: int, py: int| all.contains((px, py)), true),
            decreases abs(x1 - x0) + abs(y1 - y0),
        {
            let ghost before = *self;
            self.plot(x0, y0, false);
            proof {
                let v2 = visited.push((x0 as int, y0 as int));
                assert forall|px: int, py: int| #[trigger] v2.contains((px, py)) == (visited.contains((px, py)) || (px == x0 && py == y0)) by {
                    if v2.contains((px, py)) {
                        let k = choose|k: int| 0 <= k < v2.len() && v2[k] == (px, py);
                        if k < visited.len() {
                            assert(visited[k] == (px, py));
                        }
                    }
                    if visited.contains((px, py)) {
                        let k = choose|k: int| 0 <= k < visited.len() && visited[k] == (px, py);
                        assert(v2[k] == (px, py));
                    }
                    if px == x0 && py == y0 {
                        assert(v2[visited.len() as int] == (px, py));
                    }
                }
                lemma_painted_trans(
                    start_state,
                    before,
                    *self,
                    |px: int, py: int| visited.contains((px, py)),
                    |px: int, py: int| px == x0 && py == y0,
                    |px: int, py: int| v2.contains((px, py)),
                    true,
                );
                visited = v2;
            }
            if x0 == x1 && y0 == y1 {
                proof {
                    assert(all =~= visited);
                }
                break;
            }
            proof {
                lemma_line_step(x0 as int, y0 as int, x1 as int, y1 as int, error as int, dx as int, dy as int, dir_x as int, dir_y as int);
                assert(-0x20_0000 <= abs(x1 - x0) <= 0x20_0000);
                assert(-0x4_0000_0000_0000 <= error <= 0x4_0000_0000_0000) by (nonlinear_arith)
                    requires
                        error == dx * (-dy - abs(y1 - y0) + 1) + dy * (dx - abs(x1 - x0) + 1),
                        0 <= dx <= 0x20_0000,
                        -0x20_0000 <= dy <= 0,
                        0 <= abs(y1 - y0) <= -dy,
                        0 <= abs(x1 - x0) <= dx,
                ;
            }
            let e2 = 2 * error;
            if e2 >= dy {
                error = error + dy;
                x0 = x0 + dir_x;
            }
            if e2 <= dx {
                error = error + dx;
                y0 = y0 + dir_y;
            }
            proof {
                fuel = (fuel - 1) as nat;
            }
        }
    }
}

} // verus!
