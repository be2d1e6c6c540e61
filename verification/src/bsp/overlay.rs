//! Drawing into the panel's frame: pixels, lines, circles and the attitude
//! dial, all drawn by inverting what lies beneath so they show on any fill.
//! The frame is big-endian RGB565, `width * height` pixels of two bytes.
use vstd::prelude::*;

use crate::bsp::display_light::{
    decimal, direction_arrow, format_i32, format_pair, format_tenths, format_u16, inverted565,
    invert_rgb565, mode_text, mode_word, pair_text, signed_decimal, tenths_text,
};
use crate::diagnostics::{Diagnostics, LightSnapshot, TouchDiagnostics};
use crate::drivers::input::{FINGER_DOUBLE_TAP, FINGER_LONG_PRESS, FINGER_SWIPE, FINGER_TAP, MAX_TRACKED_POINTS};
use crate::drivers::light::MAX_LIGHTS;
use crate::render::{MODE_BREATH, MODE_SOLID};
use crate::drivers::motion::{MotionCapabilities, MotionCounts, MotionSample};
use crate::bsp::qmi8658::div_trunc;
use crate::horizon::{Horizon, SCALE};

verus! {

/// The frame with the pixel at `(x, y)` inverted; points outside the frame
/// leave it unchanged.
pub open spec fn pixel_inverted(frame: Seq<u8>, x: int, y: int, width: int, height: int) -> Seq<u8> {
    if 0 <= x < width && 0 <= y < height {
        let o = (y * width + x) * 2;
        let packed = (frame[o] * 256 + frame[o + 1]) as u16;
        let inverted = inverted565(packed);
        frame.update(o, (inverted / 256) as u8).update(o + 1, (inverted % 256) as u8)
    } else {
        frame
    }
}

proof fn lemma_pixel_inverted_len(frame: Seq<u8>, x: int, y: int, width: int, height: int)
    requires
        0 <= width,
        0 <= height,
        frame.len() == width * height * 2,
    ensures
        pixel_inverted(frame, x, y, width, height).len() == frame.len(),
{
    if 0 <= x < width && 0 <= y < height {
        assert((y * width + x) * 2 + 1 < width * height * 2) by (nonlinear_arith)
            requires
                0 <= x < width,
                0 <= y < height,
        ;
    }
}

/// The frame with each of the points inverted in turn.
pub open spec fn points_inverted(frame: Seq<u8>, points: Seq<(int, int)>, width: int, height: int) -> Seq<u8>
    decreases points.len(),
{
    if points.len() == 0 {
        frame
    } else {
        pixel_inverted(
            points_inverted(frame, points.drop_last(), width, height),
            points.last().0,
            points.last().1,
            width,
            height,
        )
    }
}

/// Inverts one pixel: the shared ink of glyphs and the dial.
pub fn stamp_pixel(frame: &mut Vec<u8>, x: isize, y: isize, width: usize, height: usize)
    requires
        old(frame)@.len() == width * height * 2,
    ensures
        final(frame)@ == pixel_inverted(old(frame)@, x as int, y as int, width as int, height as int),
{
    if x < 0 || y < 0 || x as usize >= width || y as usize >= height {
        return;
    }
    let (ux, uy) = (x as usize, y as usize);
    let len = frame.len();
    assert(uy * width + ux < width * height && (uy * width + ux) * 2 + 1 < len) by (nonlinear_arith)
        requires
            ux < width,
            uy < height,
            len == width * height * 2,
    ;
    let offset = (uy * width + ux) * 2;
    let packed: u16 = (frame[offset] as u16) * 256 + frame[offset + 1] as u16;
    let inverted = invert_rgb565(packed);
    frame.set(offset, (inverted / 256) as u8);
    frame.set(offset + 1, (inverted % 256) as u8);
}


/// Coordinates the drawing arithmetic stays exact for.
pub open spec fn coord_ok(v: int) -> bool {
    -0x2000_0000_0000_0000 < v < 0x2000_0000_0000_0000
}

pub open spec fn abs_int(v: int) -> int {
    if v < 0 {
        -v
    } else {
        v
    }
}

/// Bresenham's walk from `(x, y)` with error term `err` toward `(x1, y1)`,
/// taking at most `fuel` steps.
pub open spec fn line_walk(
    x: int,
    y: int,
    err: int,
    x1: int,
    y1: int,
    dx: int,
    dy: int,
    sx: int,
    sy: int,
    fuel: nat,
) -> Seq<(int, int)>
    decreases fuel,
{
    if fuel == 0 || (x == x1 && y == y1) {
        seq![(x, y)]
    } else {
        let e2 = 2 * err;
        let err1 = if e2 >= dy { err + dy } else { err };
        let nx = if e2 >= dy { x + sx } else { x };
        let err2 = if e2 <= dx { err1 + dx } else { err1 };
        let ny = if e2 <= dx { y + sy } else { y };
        seq![(x, y)] + line_walk(nx, ny, err2, x1, y1, dx, dy, sx, sy, (fuel - 1) as nat)
    }
}

/// The points of the straight run from `(x0, y0)` to `(x1, y1)`, both ends
/// included, as Bresenham's algorithm visits them.
pub open spec fn line_points(x0: int, y0: int, x1: int, y1: int) -> Seq<(int, int)> {
    let dx = abs_int(x1 - x0);
    let dy = -abs_int(y1 - y0);
    let sx = if x0 < x1 { 1int } else { -1int };
    let sy = if y0 < y1 { 1int } else { -1int };
    line_walk(x0, y0, dx + dy, x1, y1, dx, dy, sx, sy, (dx - dy) as nat)
}

/// Bresenham's error term after `xs` column and `ys` row steps of a run
/// `a` columns wide and `b` rows tall.
#[verifier::opaque]
pub open spec fn bresenham_err(a: int, b: int, xs: int, ys: int) -> int {
    a * (1 + ys) - b * (1 + xs)
}

/// One Bresenham step from `X` of `a` columns and `Y` of `b` rows done,
/// short of the end: at least one axis moves, and neither passes its end.
proof fn lemma_bresenham_step(a: int, b: int, xs: int, ys: int, err: int)
    requires
        0 <= xs <= a,
        0 <= ys <= b,
        err == bresenham_err(a, b, xs, ys),
        !(xs == a && ys == b),
    ensures
        2 * err >= -b || 2 * err <= a,
        2 * err >= -b ==> xs < a,
        2 * err <= a ==> ys < b,
        err - b == bresenham_err(a, b, xs + 1, ys),
        err + a == bresenham_err(a, b, xs, ys + 1),
        err - b + a == bresenham_err(a, b, xs + 1, ys + 1),
{
    reveal(bresenham_err);
    if xs == a {
        assert(a * (1 + ys) <= a * b) by (nonlinear_arith)
            requires
                0 <= a,
                1 + ys <= b,
        ;
        assert(b * (1 + xs) == b + a * b) by (nonlinear_arith)
            requires
                xs == a,
        ;
    }
    if ys == b {
        assert(b * (1 + xs) <= b * a) by (nonlinear_arith)
            requires
                0 <= b,
                1 + xs <= a,
        ;
        assert(a * (1 + ys) == a + a * b) by (nonlinear_arith)
            requires
                ys == b,
        ;
    }
    assert(a * (1 + (ys + 1)) == a * (1 + ys) + a) by (nonlinear_arith);
    assert(b * (1 + (xs + 1)) == b * (1 + xs) + b) by (nonlinear_arith);
}

/// One step of the walk, short of its end: the point, then the rest.
proof fn lemma_walk_step(
    done: Seq<(int, int)>,
    x: int,
    y: int,
    err: int,
    x1: int,
    y1: int,
    dx: int,
    dy: int,
    sx: int,
    sy: int,
    fuel: nat,
)
    requires
        fuel > 0,
        !(x == x1 && y == y1),
    ensures
        ({
            let e2 = 2 * err;
            let err1 = if e2 >= dy { err + dy } else { err };
            let nx = if e2 >= dy { x + sx } else { x };
            let err2 = if e2 <= dx { err1 + dx } else { err1 };
            let ny = if e2 <= dx { y + sy } else { y };
            done.push((x, y)) + line_walk(nx, ny, err2, x1, y1, dx, dy, sx, sy, (fuel - 1) as nat)
                == done + line_walk(x, y, err, x1, y1, dx, dy, sx, sy, fuel)
        }),
{
    let e2 = 2 * err;
    let err1 = if e2 >= dy { err + dy } else { err };
    let nx = if e2 >= dy { x + sx } else { x };
    let err2 = if e2 <= dx { err1 + dx } else { err1 };
    let ny = if e2 <= dx { y + sy } else { y };
    let rest = line_walk(nx, ny, err2, x1, y1, dx, dy, sx, sy, (fuel - 1) as nat);
    assert(line_walk(x, y, err, x1, y1, dx, dy, sx, sy, fuel) == seq![(x, y)] + rest);
    assert(done.push((x, y)) + rest =~= done + (seq![(x, y)] + rest));
}

/// At the end the walk is the end point alone.
proof fn lemma_walk_end(x: int, y: int, err: int, dx: int, dy: int, sx: int, sy: int, fuel: nat)
    ensures
        line_walk(x, y, err, x, y, dx, dy, sx, sy, fuel) == seq![(x, y)],
{
}

/// Inverts the straight run from `(x0, y0)` to `(x1, y1)` (Bresenham).
pub fn stamp_line(
    frame: &mut Vec<u8>,
    x0: isize,
    y0: isize,
    x1: isize,
    y1: isize,
    width: usize,
    height: usize,
)
    requires
        old(frame)@.len() == width * height * 2,
        coord_ok(x0 as int),
        coord_ok(y0 as int),
        coord_ok(x1 as int),
        coord_ok(y1 as int),
    ensures
        final(frame)@ == points_inverted(
            old(frame)@,
            line_points(x0 as int, y0 as int, x1 as int, y1 as int),
            width as int,
            height as int,
        ),
{
    let (ax0, ay0, ax1, ay1) = (x0 as i128, y0 as i128, x1 as i128, y1 as i128);
    let dx: i128 = if ax1 >= ax0 { ax1 - ax0 } else { ax0 - ax1 };
    let sx: i128 = if ax0 < ax1 { 1 } else { -1 };
    let dy: i128 = -(if ay1 >= ay0 { ay1 - ay0 } else { ay0 - ay1 });
    let sy: i128 = if ay0 < ay1 { 1 } else { -1 };
    let mut err: i128 = dx + dy;
    let mut x: i128 = ax0;
    let mut y: i128 = ay0;
    let ghost a: int = dx as int;
    let ghost b: int = -dy;
    let ghost full = line_points(x0 as int, y0 as int, x1 as int, y1 as int);
    let ghost mut fuel: nat = (dx - dy) as nat;
    let ghost mut done: Seq<(int, int)> = Seq::empty();
    let ghost mut xs: int = 0;
    let ghost mut ys: int = 0;
    assert(done + full =~= full);
    assert(err == bresenham_err(a, b, xs, ys)) by {
        reveal(bresenham_err);
        assert(a * (1 + 0int) - b * (1 + 0int) == a - b) by (nonlinear_arith);
    }
    loop
        invariant_except_break
            done + line_walk(
                x as int,
                y as int,
                err as int,
                x1 as int,
                y1 as int,
                dx as int,
                dy as int,
                sx as int,
                sy as int,
                fuel,
            ) == full,
        invariant
            frame@.len() == width * height * 2,
            frame@ == points_inverted(old(frame)@, done, width as int, height as int),
            a == dx,
            b == -dy,
            0 <= a < 0x4000_0000_0000_0000,
            0 <= b < 0x4000_0000_0000_0000,
            ax0 == x0,
            ay0 == y0,
            ax1 == x1,
            ay1 == y1,
            sx == 1 || sx == -1,
            sy == 1 || sy == -1,
            ax1 == ax0 + (if sx == 1 { a } else { -a }),
            ay1 == ay0 + (if sy == 1 { b } else { -b }),
            x == ax0 + (if sx == 1 { xs } else { -xs }),
            y == ay0 + (if sy == 1 { ys } else { -ys }),
            0 <= xs <= a,
            0 <= ys <= b,
            err == bresenham_err(a, b, xs, ys),
            fuel >= (a - xs) + (b - ys),
        ensures
            done == full,
        decreases fuel,
    {
        assert(isize::MIN <= x <= isize::MAX && isize::MIN <= y <= isize::MAX);
        proof {
            lemma_pixel_inverted_len(frame@, x as int, y as int, width as int, height as int);
        }
        stamp_pixel(frame, x as isize, y as isize, width, height);
        let ghost before = done;
        proof {
            let p = (x as int, y as int);
            assert(done.push(p).drop_last() =~= done);
            done = done.push(p);
        }
        if x == ax1 && y == ay1 {
            proof {
                lemma_walk_end(x as int, y as int, err as int, dx as int, dy as int, sx as int, sy as int, fuel);
                assert(done =~= before + seq![(x as int, y as int)]);
            }
            break;
        }
        proof {
            lemma_bresenham_step(a, b, xs, ys, err as int);
            lemma_err_bound(a, b, xs, ys, err as int);
            lemma_walk_step(before, x as int, y as int, err as int, x1 as int, y1 as int, dx as int, dy as int, sx as int, sy as int, fuel);
        }
        let e2 = 2 * err;
        let step_x = e2 >= dy;
        let step_y = e2 <= dx;
        if step_x {
            err = err + dy;
            x = x + sx;
        }
        if step_y {
            err = err + dx;
            y = y + sy;
        }
        proof {
            if step_x {
                xs = xs + 1;
            }
            if step_y {
                ys = ys + 1;
            }
            fuel = (fuel - 1) as nat;
        }
    }
}

proof fn lemma_err_bound(a: int, b: int, xs: int, ys: int, err: int)
    requires
        0 <= a < 0x4000_0000_0000_0000,
        0 <= b < 0x4000_0000_0000_0000,
        0 <= xs <= a,
        0 <= ys <= b,
        err == bresenham_err(a, b, xs, ys),
    ensures
        -0x2000_0000_0000_0000_0000_0000_0000_0000 <= err <= 0x2000_0000_0000_0000_0000_0000_0000_0000,
{
    reveal(bresenham_err);
    assert(0 <= a * (1 + ys) <= 0x4000_0000_0000_0000 * 0x4000_0000_0000_0001) by (nonlinear_arith)
        requires
            0 <= a < 0x4000_0000_0000_0000,
            0 <= ys <= b,
            b < 0x4000_0000_0000_0000,
    ;
    assert(0 <= b * (1 + xs) <= 0x4000_0000_0000_0000 * 0x4000_0000_0000_0001) by (nonlinear_arith)
        requires
            0 <= b < 0x4000_0000_0000_0000,
            0 <= xs <= a,
            a < 0x4000_0000_0000_0000,
    ;
}


/// Inverting `a` then `b` is inverting `a + b`.
proof fn lemma_points_inverted_concat(frame: Seq<u8>, a: Seq<(int, int)>, b: Seq<(int, int)>, width: int, height: int)
    ensures
        points_inverted(points_inverted(frame, a, width, height), b, width, height)
            == points_inverted(frame, a + b, width, height),
    decreases b.len(),
{
    if b.len() == 0 {
        assert(a + b =~= a);
    } else {
        lemma_points_inverted_concat(frame, a, b.drop_last(), width, height);
        assert((a + b).drop_last() =~= a + b.drop_last());
        assert((a + b).last() == b.last());
    }
}

proof fn lemma_points_inverted_len(frame: Seq<u8>, points: Seq<(int, int)>, width: int, height: int)
    requires
        0 <= width,
        0 <= height,
        frame.len() == width * height * 2,
    ensures
        points_inverted(frame, points, width, height).len() == frame.len(),
    decreases points.len(),
{
    if points.len() > 0 {
        lemma_points_inverted_len(frame, points.drop_last(), width, height);
        lemma_pixel_inverted_len(
            points_inverted(frame, points.drop_last(), width, height),
            points.last().0,
            points.last().1,
            width,
            height,
        );
    }
}

/// The eight mirror images of `(x, y)` about `(cx, cy)`, in drawing order.
pub open spec fn octant_points(cx: int, cy: int, x: int, y: int) -> Seq<(int, int)> {
    seq![
        (cx + x, cy + y),
        (cx - x, cy + y),
        (cx + x, cy - y),
        (cx - x, cy - y),
        (cx + y, cy + x),
        (cx - y, cy + x),
        (cx + y, cy - x),
        (cx - y, cy - x),
    ]
}

/// The midpoint walk around the circle from `(x, y)` with decision term
/// `err`, one octant point at a time, until it passes the diagonal.
pub open spec fn circle_walk(cx: int, cy: int, x: int, y: int, err: int) -> Seq<(int, int)>
    decreases (if x >= y { x - y + 1 } else { 0 }),
{
    if x < y {
        Seq::empty()
    } else {
        let ny = y + 1;
        let nx = if err <= 0 { x } else { x - 1 };
        let nerr = if err <= 0 { err + 2 * ny + 1 } else { err + 2 * (ny - nx) + 1 };
        octant_points(cx, cy, x, y) + circle_walk(cx, cy, nx, ny, nerr)
    }
}

/// The points of the circle's perimeter at `(cx, cy)` with radius `r`, as
/// the midpoint algorithm visits them; none for a negative radius.
pub open spec fn circle_points(cx: int, cy: int, r: int) -> Seq<(int, int)> {
    circle_walk(cx, cy, r, 0, 1 - r)
}

/// Inverts the eight mirror images of `(x, y)` about `(cx, cy)`.
fn stamp_octants(frame: &mut Vec<u8>, cx: isize, cy: isize, x: isize, y: isize, width: usize, height: usize)
    requires
        old(frame)@.len() == width * height * 2,
        0 <= y <= x,
        isize::MIN <= cx - x,
        cx + x <= isize::MAX,
        isize::MIN <= cy - x,
        cy + x <= isize::MAX,
    ensures
        final(frame)@ == points_inverted(
            old(frame)@,
            octant_points(cx as int, cy as int, x as int, y as int),
            width as int,
            height as int,
        ),
{
    let ghost pts = octant_points(cx as int, cy as int, x as int, y as int);
    let ghost w = width as int;
    let ghost h = height as int;
    proof {
        lemma_pixel_inverted_len(frame@, pts[0].0, pts[0].1, w, h);
    }
    stamp_pixel(frame, cx + x, cy + y, width, height);
    proof {
        lemma_pixel_inverted_len(frame@, pts[1].0, pts[1].1, w, h);
    }
    stamp_pixel(frame, cx - x, cy + y, width, height);
    proof {
        lemma_pixel_inverted_len(frame@, pts[2].0, pts[2].1, w, h);
    }
    stamp_pixel(frame, cx + x, cy - y, width, height);
    proof {
        lemma_pixel_inverted_len(frame@, pts[3].0, pts[3].1, w, h);
    }
    stamp_pixel(frame, cx - x, cy - y, width, height);
    proof {
        lemma_pixel_inverted_len(frame@, pts[4].0, pts[4].1, w, h);
    }
    stamp_pixel(frame, cx + y, cy + x, width, height);
    proof {
        lemma_pixel_inverted_len(frame@, pts[5].0, pts[5].1, w, h);
    }
    stamp_pixel(frame, cx - y, cy + x, width, height);
    proof {
        lemma_pixel_inverted_len(frame@, pts[6].0, pts[6].1, w, h);
    }
    stamp_pixel(frame, cx + y, cy - x, width, height);
    proof {
        lemma_pixel_inverted_len(frame@, pts[7].0, pts[7].1, w, h);
    }
    stamp_pixel(frame, cx - y, cy - x, width, height);
    proof {
        reveal_with_fuel(points_inverted, 9);
        assert(pts.drop_last() =~= pts.take(7));
        assert(pts.take(7).drop_last() =~= pts.take(6));
        assert(pts.take(6).drop_last() =~= pts.take(5));
        assert(pts.take(5).drop_last() =~= pts.take(4));
        assert(pts.take(4).drop_last() =~= pts.take(3));
        assert(pts.take(3).drop_last() =~= pts.take(2));
        assert(pts.take(2).drop_last() =~= pts.take(1));
        assert(pts.take(1).drop_last() =~= Seq::<(int, int)>::empty());
    }
}

/// A bound on the midpoint decision term after `y` rows of a circle of
/// radius `r`.
#[verifier::opaque]
pub open spec fn circle_err_bound(r: int, y: int) -> int {
    (2 * r + 5) * (y + 1) + r + 1
}

proof fn lemma_circle_err_bound(r: int, y: int)
    requires
        0 <= r < 0x2000_0000_0000_0000,
        0 <= y <= r + 1,
    ensures
        circle_err_bound(r, y + 1) == circle_err_bound(r, y) + 2 * r + 5,
        0 <= circle_err_bound(r, y) <= 0x1000_0000_0000_0000_0000_0000_0000_0000,
        circle_err_bound(r, 0) == 3 * r + 6,
{
    reveal(circle_err_bound);
    assert((2 * r + 5) * (0 + 1) == 2 * r + 5) by (nonlinear_arith);
    assert((2 * r + 5) * (y + 2) == (2 * r + 5) * (y + 1) + 2 * r + 5) by (nonlinear_arith);
    assert(0 <= (2 * r + 5) * (y + 1) <= 0x4000_0000_0000_0005 * 0x2000_0000_0000_0002) by (nonlinear_arith)
        requires
            0 <= r < 0x2000_0000_0000_0000,
            0 <= y <= r + 1,
    ;
}

/// Inverts the perimeter of the circle at `(cx, cy)` with radius `r`
/// (midpoint algorithm).
pub fn stamp_circle(frame: &mut Vec<u8>, cx: isize, cy: isize, r: isize, width: usize, height: usize)
    requires
        old(frame)@.len() == width * height * 2,
        coord_ok(r as int),
        r >= 0 ==> isize::MIN <= cx - r && cx + r <= isize::MAX && isize::MIN <= cy - r && cy + r
            <= isize::MAX,
    ensures
        final(frame)@ == points_inverted(
            old(frame)@,
            circle_points(cx as int, cy as int, r as int),
            width as int,
            height as int,
        ),
{
    if r < 0 {
        return;
    }
    let ar = r as i128;
    let mut x: i128 = ar;
    let mut y: i128 = 0;
    let mut err: i128 = 1 - ar;
    let ghost full = circle_points(cx as int, cy as int, r as int);
    let ghost mut done: Seq<(int, int)> = Seq::empty();
    proof {
        lemma_circle_err_bound(r as int, 0);
        assert(done + full =~= full);
    }
    while x >= y
        invariant
            frame@.len() == width * height * 2,
            old(frame)@.len() == width * height * 2,
            frame@ == points_inverted(old(frame)@, done, width as int, height as int),
            done + circle_walk(cx as int, cy as int, x as int, y as int, err as int) == full,
            ar == r,
            0 <= ar < 0x2000_0000_0000_0000,
            isize::MIN <= cx - r,
            cx + r <= isize::MAX,
            isize::MIN <= cy - r,
            cy + r <= isize::MAX,
            0 <= y <= ar + 1,
            -1 <= x <= ar,
            -circle_err_bound(ar as int, y as int) <= err <= circle_err_bound(ar as int, y as int),
        decreases (if x >= y { x - y + 1 } else { 0 }),
    {
        proof {
            lemma_points_inverted_len(
                frame@,
                octant_points(cx as int, cy as int, x as int, y as int),
                width as int,
                height as int,
            );
            lemma_points_inverted_concat(
                old(frame)@,
                done,
                octant_points(cx as int, cy as int, x as int, y as int),
                width as int,
                height as int,
            );
        }
        stamp_octants(frame, cx, cy, x as isize, y as isize, width, height);
        proof {
            let octs = octant_points(cx as int, cy as int, x as int, y as int);
            let rest = circle_walk(cx as int, cy as int, x as int, y as int, err as int);
            let ny = y + 1;
            let nx = if err <= 0 { x as int } else { x - 1 };
            let nerr = if err <= 0 { err + 2 * ny + 1 } else { err + 2 * (ny - nx) + 1 };
            assert(rest == octs + circle_walk(cx as int, cy as int, nx, ny, nerr));
            assert(done + octs + circle_walk(cx as int, cy as int, nx, ny, nerr) =~= done + rest);
            done = done + octs;
            lemma_circle_err_bound(ar as int, y as int);
        }
        y = y + 1;
        if err <= 0 {
            err = err + 2 * y + 1;
        } else {
            x = x - 1;
            err = err + 2 * (y - x) + 1;
        }
    }
}

/// Center column of the attitude dial on the panel.
pub const HORIZON_CX: isize = 192;

/// Center row of the attitude dial on the panel.
pub const HORIZON_CY: isize = 252;

/// Radius of the attitude dial in pixels.
pub const HORIZON_R: isize = 40;

/// A dial-unit length at the dial's pixel radius, truncated toward zero.
pub open spec fn at_dial_radius(v: i32) -> int {
    div_trunc(v * HORIZON_R, SCALE as int)
}

/// Everything the attitude dial inverts, in drawing order: the ring, the
/// fixed bank index and wing bar, then the horizon line tilted by the unit
/// direction and shifted by the pitch offset.
pub open spec fn dial_points(geo: Horizon) -> Seq<(int, int)> {
    let (cx, cy, r) = (HORIZON_CX as int, HORIZON_CY as int, HORIZON_R as int);
    let half_x = at_dial_radius(geo.unit.0);
    let half_y = at_dial_radius(geo.unit.1);
    let offset = at_dial_radius(geo.offset);
    circle_points(cx, cy, r) + line_points(cx - 4, cy - r + 2, cx + 4, cy - r + 2) + line_points(
        cx - 10,
        cy,
        cx + 10,
        cy,
    ) + line_points(cx - half_x, cy - half_y + offset, cx + half_x, cy + half_y + offset)
}

fn scale_to_dial(v: i32) -> (r: isize)
    ensures
        r == at_dial_radius(v),
        -100_000_000 < r < 100_000_000,
{
    let product: i64 = v as i64 * 40;
    let q: i64 = if product >= 0 {
        product / 1_000
    } else {
        -((-product) / 1_000)
    };
    q as isize
}

/// Overdraws the attitude dial: ring, fixed wing and bank references, and
/// the horizon line.
pub fn stamp_horizon(frame: &mut Vec<u8>, geo: Horizon, width: usize, height: usize)
    requires
        old(frame)@.len() == width * height * 2,
    ensures
        final(frame)@ == points_inverted(old(frame)@, dial_points(geo), width as int, height as int),
{
    let cx = HORIZON_CX;
    let cy = HORIZON_CY;
    let r = HORIZON_R;
    let ghost w = width as int;
    let ghost h = height as int;
    let ghost start = frame@;
    let ghost ring = circle_points(cx as int, cy as int, r as int);
    let ghost bank = line_points(cx - 4, cy - r + 2, cx + 4, cy - r + 2);
    let ghost wing = line_points(cx - 10, cy as int, cx + 10, cy as int);
    stamp_circle(frame, cx, cy, r, width, height);
    proof {
        lemma_points_inverted_len(start, ring, w, h);
    }
    stamp_line(frame, cx - 4, cy - r + 2, cx + 4, cy - r + 2, width, height);
    proof {
        lemma_points_inverted_concat(start, ring, bank, w, h);
        lemma_points_inverted_len(start, ring + bank, w, h);
    }
    stamp_line(frame, cx - 10, cy, cx + 10, cy, width, height);
    proof {
        lemma_points_inverted_concat(start, ring + bank, wing, w, h);
        lemma_points_inverted_len(start, ring + bank + wing, w, h);
    }
    let half_x = scale_to_dial(geo.unit.0);
    let half_y = scale_to_dial(geo.unit.1);
    let offset = scale_to_dial(geo.offset);
    let ghost tilt = line_points(
        cx - half_x,
        cy - half_y + offset,
        cx + half_x,
        cy + half_y + offset,
    );
    stamp_line(frame, cx - half_x, cy - half_y + offset, cx + half_x, cy + half_y + offset, width, height);
    proof {
        lemma_points_inverted_concat(start, ring + bank + wing, tilt, w, h);
    }
}

/// Glyph cell height of the overlay font, in rows.
pub const FONT_H: usize = 7;

/// Glyph cell width of the overlay font, in columns.
pub const FONT_W: usize = 5;

/// Left edge of the diagnostics rows, in panel columns.
pub const OVERLAY_X: usize = 10;

/// Top edge of the first diagnostics row, in panel rows.
pub const OVERLAY_Y: usize = 8;

/// Vertical gap between diagnostics rows.
pub const OVERLAY_ROW_GAP: usize = 6;

/// Horizontal gap between glyph columns.
pub const OVERLAY_GAP: usize = 4;

/// Value column of the touch column: a three-glyph label slot plus one
/// space glyph.
pub const LEFT_VALUE_X: usize = 46;

/// Value column of the mode column.
pub const RIGHT_VALUE_X: usize = 174;

/// Printable ASCII 5x7 glyphs (`0x20` to `0x7E`, five column bytes each) in
/// column-major order, bit 0 of each byte the top row: the classic
/// `glcdfont` layout of the Adafruit GFX library (BSD-3-Clause).
pub const FONT: [u8; 475] = [
    0x00, 0x00, 0x00, 0x00, 0x00, 0x00, 0x00, 0x5F, 0x00, 0x00, 0x00, 0x07, 0x00, 0x07, 0x00,
    0x14, 0x7F, 0x14, 0x7F, 0x14, 0x24, 0x2A, 0x7F, 0x2A, 0x12, 0x23, 0x13, 0x08, 0x64, 0x62,
    0x36, 0x49, 0x56, 0x20, 0x50, 0x00, 0x08, 0x07, 0x03, 0x00, 0x00, 0x1C, 0x22, 0x41, 0x00,
    0x00, 0x41, 0x22, 0x1C, 0x00, 0x2A, 0x1C, 0x7F, 0x1C, 0x2A, 0x08, 0x08, 0x3E, 0x08, 0x08,
    0x00, 0x80, 0x70, 0x30, 0x00, 0x08, 0x08, 0x08, 0x08, 0x08, 0x00, 0x00, 0x60, 0x60, 0x00,
    0x20, 0x10, 0x08, 0x04, 0x02, 0x3E, 0x51, 0x49, 0x45, 0x3E, 0x00, 0x42, 0x7F, 0x40, 0x00,
    0x72, 0x49, 0x49, 0x49, 0x46, 0x21, 0x41, 0x49, 0x4D, 0x33, 0x18, 0x14, 0x12, 0x7F, 0x10,
    0x27, 0x45, 0x45, 0x45, 0x39, 0x3C, 0x4A, 0x49, 0x49, 0x31, 0x41, 0x21, 0x11, 0x09, 0x07,
    0x36, 0x49, 0x49, 0x49, 0x36, 0x46, 0x49, 0x49, 0x29, 0x1E, 0x00, 0x00, 0x14, 0x00, 0x00,
    0x00, 0x40, 0x34, 0x00, 0x00, 0x00, 0x08, 0x14, 0x22, 0x41, 0x14, 0x14, 0x14, 0x14, 0x14,
    0x00, 0x41, 0x22, 0x14, 0x08, 0x02, 0x01, 0x59, 0x09, 0x06, 0x3E, 0x41, 0x5D, 0x59, 0x4E,
    0x7C, 0x12, 0x11, 0x12, 0x7C, 0x7F, 0x49, 0x49, 0x49, 0x36, 0x3E, 0x41, 0x41, 0x41, 0x22,
    0x7F, 0x41, 0x41, 0x41, 0x3E, 0x7F, 0x49, 0x49, 0x49, 0x41, 0x7F, 0x09, 0x09, 0x09, 0x01,
    0x3E, 0x41, 0x41, 0x51, 0x73, 0x7F, 0x08, 0x08, 0x08, 0x7F, 0x00, 0x41, 0x7F, 0x41, 0x00,
    0x20, 0x40, 0x41, 0x3F, 0x01, 0x7F, 0x08, 0x14, 0x22, 0x41, 0x7F, 0x40, 0x40, 0x40, 0x40,
    0x7F, 0x02, 0x1C, 0x02, 0x7F, 0x7F, 0x04, 0x08, 0x10, 0x7F, 0x3E, 0x41, 0x41, 0x41, 0x3E,
    0x7F, 0x09, 0x09, 0x09, 0x06, 0x3E, 0x41, 0x51, 0x21, 0x5E, 0x7F, 0x09, 0x19, 0x29, 0x46,
    0x26, 0x49, 0x49, 0x49, 0x32, 0x03, 0x01, 0x7F, 0x01, 0x03, 0x3F, 0x40, 0x40, 0x40, 0x3F,
    0x1F, 0x20, 0x40, 0x20, 0x1F, 0x3F, 0x40, 0x38, 0x40, 0x3F, 0x63, 0x14, 0x08, 0x14, 0x63,
    0x03, 0x04, 0x78, 0x04, 0x03, 0x61, 0x59, 0x49, 0x4D, 0x43, 0x00, 0x7F, 0x41, 0x41, 0x41,
    0x02, 0x04, 0x08, 0x10, 0x20, 0x00, 0x41, 0x41, 0x41, 0x7F, 0x04, 0x02, 0x01, 0x02, 0x04,
    0x40, 0x40, 0x40, 0x40, 0x40, 0x00, 0x03, 0x07, 0x08, 0x00, 0x20, 0x54, 0x54, 0x78, 0x40,
    0x7F, 0x28, 0x44, 0x44, 0x38, 0x38, 0x44, 0x44, 0x44, 0x28, 0x38, 0x44, 0x44, 0x28, 0x7F,
    0x38, 0x54, 0x54, 0x54, 0x18, 0x00, 0x08, 0x7E, 0x09, 0x02, 0x18, 0xA4, 0xA4, 0x9C, 0x78,
    0x7F, 0x08, 0x04, 0x04, 0x78, 0x00, 0x44, 0x7D, 0x40, 0x00, 0x20, 0x40, 0x40, 0x3D, 0x00,
    0x7F, 0x10, 0x28, 0x44, 0x00, 0x00, 0x41, 0x7F, 0x40, 0x00, 0x7C, 0x04, 0x78, 0x04, 0x78,
    0x7C, 0x08, 0x04, 0x04, 0x78, 0x38, 0x44, 0x44, 0x44, 0x38, 0xFC, 0x18, 0x24, 0x24, 0x18,
    0x18, 0x24, 0x24, 0x18, 0xFC, 0x7C, 0x08, 0x04, 0x04, 0x08, 0x48, 0x54, 0x54, 0x54, 0x24,
    0x04, 0x04, 0x3F, 0x44, 0x24, 0x3C, 0x40, 0x40, 0x20, 0x7C, 0x1C, 0x20, 0x40, 0x20, 0x1C,
    0x3C, 0x40, 0x30, 0x40, 0x3C, 0x44, 0x28, 0x10, 0x28, 0x44, 0x4C, 0x90, 0x90, 0x90, 0x7C,
    0x44, 0x64, 0x54, 0x4C, 0x44, 0x00, 0x08, 0x36, 0x41, 0x00, 0x00, 0x00, 0x77, 0x00, 0x00,
    0x00, 0x41, 0x36, 0x08, 0x00, 0x02, 0x01, 0x02, 0x04, 0x02,
];

/// Whether row `row` of a glyph column is inked.
pub open spec fn row_inked(bits: u8, row: int) -> bool {
    bits & (1u8 << (row as u8)) != 0
}

/// The inked rows among the first `rows` of one glyph column at `x`, top
/// first.
pub open spec fn column_points(bits: u8, x: int, top: int, rows: nat) -> Seq<(int, int)>
    decreases rows,
{
    if rows == 0 {
        Seq::empty()
    } else {
        column_points(bits, x, top, (rows - 1) as nat) + if row_inked(bits, rows - 1) {
            seq![(x, top + rows - 1)]
        } else {
            Seq::empty()
        }
    }
}

/// The inked points of the first `cols` columns of glyph `ch` at
/// `(left, top)`.
pub open spec fn glyph_points_upto(ch: u8, left: int, top: int, cols: nat) -> Seq<(int, int)>
    decreases cols,
{
    if cols == 0 {
        Seq::empty()
    } else {
        glyph_points_upto(ch, left, top, (cols - 1) as nat) + column_points(
            FONT@[(ch - 0x20) * 5 + cols - 1],
            left + cols - 1,
            top,
            7,
        )
    }
}

/// The inked points of glyph `ch` at `(left, top)`; none outside the
/// printable ASCII block.
pub open spec fn glyph_points(ch: u8, left: int, top: int) -> Seq<(int, int)> {
    if 0x20 <= ch <= 0x7e {
        glyph_points_upto(ch, left, top, 5)
    } else {
        Seq::empty()
    }
}

/// Overdraws one 5x7 glyph at `left`/`top` with inverted pixels; bytes
/// outside the printable ASCII block draw nothing.
pub fn stamp_char(frame: &mut Vec<u8>, ch: u8, left: usize, top: usize, width: usize, height: usize)
    requires
        old(frame)@.len() == width * height * 2,
        left + FONT_W <= isize::MAX,
        top + FONT_H <= isize::MAX,
    ensures
        final(frame)@ == points_inverted(old(frame)@, glyph_points(ch, left as int, top as int), width as int, height as int),
{
    if !(0x20 <= ch && ch <= 0x7e) {
        return;
    }
    let base = (ch - 0x20) as usize * FONT_W;
    let ghost w = width as int;
    let ghost h = height as int;
    let ghost start = frame@;
    let mut col: usize = 0;
    while col < FONT_W
        invariant
            0x20 <= ch <= 0x7e,
            base == (ch - 0x20) * 5,
            col <= FONT_W,
            left + FONT_W <= isize::MAX,
            top + FONT_H <= isize::MAX,
            start == old(frame)@,
            w == width,
            h == height,
            start.len() == width * height * 2,
            frame@ == points_inverted(start, glyph_points_upto(ch, left as int, top as int, col as nat), w, h),
        decreases FONT_W - col,
    {
        let bits = FONT[base + col];
        let mut row: usize = 0;
        let ghost before = glyph_points_upto(ch, left as int, top as int, col as nat);
        proof {
            lemma_points_inverted_len(start, before, w, h);
            assert(bits == FONT@[(ch - 0x20) * 5 + col]);
            assert(column_points(bits, left + col, top as int, 0) =~= Seq::<(int, int)>::empty());
            assert(before + Seq::<(int, int)>::empty() =~= before);
        }
        while row < FONT_H
            invariant
                row <= FONT_H,
                col < FONT_W,
                left + FONT_W <= isize::MAX,
                top + FONT_H <= isize::MAX,
                w == width,
                h == height,
                start.len() == width * height * 2,
                frame@ == points_inverted(start, before + column_points(bits, left + col, top as int, row as nat), w, h),
            decreases FONT_H - row,
        {
            let ghost pts = before + column_points(bits, left + col, top as int, row as nat);
            proof {
                lemma_points_inverted_len(start, pts, w, h);
            }
            if bits & (1u8 << (row as u8)) != 0 {
                let px = left as isize + col as isize;
                let py = top as isize + row as isize;
                assert(px == left + col && py == top + row);
                stamp_pixel(frame, px, py, width, height);
                proof {
                    let p = ((left + col) as int, (top + row) as int);
                    let mid = points_inverted(start, pts, w, h);
                    lemma_points_inverted_concat(start, pts, seq![p], w, h);
                    assert(seq![p].drop_last() =~= Seq::<(int, int)>::empty());
                    assert(points_inverted(mid, Seq::<(int, int)>::empty(), w, h) == mid);
                    assert(points_inverted(mid, seq![p], w, h) == pixel_inverted(mid, p.0, p.1, w, h));
                    assert(row_inked(bits, row as int));
                    assert(column_points(bits, left + col, top as int, (row + 1) as nat)
                        == column_points(bits, left + col, top as int, row as nat) + seq![p]);
                    assert(pts + seq![p] =~= before + column_points(bits, left + col, top as int, (row + 1) as nat));
                }
            } else {
                proof {
                    assert(!row_inked(bits, row as int));
                    assert(column_points(bits, left + col, top as int, (row + 1) as nat)
                        =~= column_points(bits, left + col, top as int, row as nat));
                    assert(pts =~= before + column_points(bits, left + col, top as int, (row + 1) as nat));
                }
            }
            row += 1;
        }
        col += 1;
    }
}

/// The glyph pitch of the overlay text: a glyph cell plus the gap.
pub open spec fn glyph_pitch() -> int {
    (FONT_W + OVERLAY_GAP) as int
}

/// The inked points of the first `n` glyphs of `text` laid out from
/// `(left, top)`.
pub open spec fn text_points(text: Seq<u8>, left: int, top: int, n: nat) -> Seq<(int, int)>
    decreases n,
{
    if n == 0 {
        Seq::empty()
    } else {
        text_points(text, left, top, (n - 1) as nat) + glyph_points(
            text[n - 1],
            left + (n - 1) * glyph_pitch(),
            top,
        )
    }
}

/// Overdraws `text` glyph by glyph from `left`/`top`.
pub fn stamp_text(frame: &mut Vec<u8>, text: &[u8], left: usize, top: usize, width: usize, height: usize)
    requires
        old(frame)@.len() == width * height * 2,
        left + text@.len() * glyph_pitch() + FONT_W <= isize::MAX,
        top + FONT_H <= isize::MAX,
    ensures
        final(frame)@ == points_inverted(
            old(frame)@,
            text_points(text@, left as int, top as int, text@.len()),
            width as int,
            height as int,
        ),
{
    let ghost w = width as int;
    let ghost h = height as int;
    let ghost start = frame@;
    let mut glyph: usize = 0;
    while glyph < text.len()
        invariant
            glyph <= text@.len(),
            left + text@.len() * glyph_pitch() + FONT_W <= isize::MAX,
            top + FONT_H <= isize::MAX,
            w == width,
            h == height,
            start == old(frame)@,
            start.len() == width * height * 2,
            frame@ == points_inverted(start, text_points(text@, left as int, top as int, glyph as nat), w, h),
        decreases text@.len() - glyph,
    {
        let ghost before = text_points(text@, left as int, top as int, glyph as nat);
        assert(glyph * 9 <= text@.len() * 9) by (nonlinear_arith)
            requires
                glyph <= text@.len(),
        ;
        let x = left + glyph * (FONT_W + OVERLAY_GAP);
        proof {
            lemma_points_inverted_len(start, before, w, h);
            lemma_points_inverted_concat(start, before, glyph_points(text@[glyph as int], x as int, top as int), w, h);
        }
        stamp_char(frame, text[glyph], x, top, width, height);
        glyph += 1;
    }
}

/// The top row of overlay text row `row`.
pub open spec fn row_top(row: int) -> int {
    OVERLAY_Y + row * (FONT_H + OVERLAY_ROW_GAP)
}

/// The points of a touch-column row: the label at the left edge, the value
/// in the value column.
pub open spec fn left_row_points(label: Seq<u8>, value: Seq<u8>, row: int) -> Seq<(int, int)> {
    text_points(label, OVERLAY_X as int, row_top(row), label.len()) + text_points(
        value,
        LEFT_VALUE_X as int,
        row_top(row),
        value.len(),
    )
}

/// The points of a mode-column row: the value in the value column, the
/// label right-aligned one glyph before it.
pub open spec fn right_row_points(value: Seq<u8>, label: Seq<u8>, row: int) -> Seq<(int, int)> {
    text_points(value, RIGHT_VALUE_X as int, row_top(row), value.len()) + text_points(
        label,
        RIGHT_VALUE_X - (label.len() + 1) * glyph_pitch(),
        row_top(row),
        label.len(),
    )
}

/// One touch-column row: the label at the left edge, the value in the
/// value column.
pub fn stamp_left(frame: &mut Vec<u8>, label: &[u8], value: &[u8], row: usize, width: usize, height: usize)
    requires
        old(frame)@.len() == width * height * 2,
        row_top(row as int) + FONT_H <= isize::MAX,
        OVERLAY_X + label@.len() * glyph_pitch() + FONT_W <= isize::MAX,
        LEFT_VALUE_X + value@.len() * glyph_pitch() + FONT_W <= isize::MAX,
    ensures
        final(frame)@ == points_inverted(
            old(frame)@,
            left_row_points(label@, value@, row as int),
            width as int,
            height as int,
        ),
{
    let ghost start = frame@;
    let top = OVERLAY_Y + row * (FONT_H + OVERLAY_ROW_GAP);
    stamp_text(frame, label, OVERLAY_X, top, width, height);
    proof {
        let first = text_points(label@, OVERLAY_X as int, top as int, label@.len());
        lemma_points_inverted_len(start, first, width as int, height as int);
        lemma_points_inverted_concat(
            start,
            first,
            text_points(value@, LEFT_VALUE_X as int, top as int, value@.len()),
            width as int,
            height as int,
        );
    }
    stamp_text(frame, value, LEFT_VALUE_X, top, width, height);
}

/// One mode-column row: the value in the value column, the label
/// right-aligned into the slot that ends one glyph before it, so every
/// label floats right next to its value and the numbers line up.
pub fn stamp_right(frame: &mut Vec<u8>, value: &[u8], label: &[u8], row: usize, width: usize, height: usize)
    requires
        old(frame)@.len() == width * height * 2,
        row_top(row as int) + FONT_H <= isize::MAX,
        (label@.len() + 1) * glyph_pitch() <= RIGHT_VALUE_X,
        RIGHT_VALUE_X + value@.len() * glyph_pitch() + FONT_W <= isize::MAX,
    ensures
        final(frame)@ == points_inverted(
            old(frame)@,
            right_row_points(value@, label@, row as int),
            width as int,
            height as int,
        ),
{
    let ghost start = frame@;
    let pitch = FONT_W + OVERLAY_GAP;
    let top = OVERLAY_Y + row * (FONT_H + OVERLAY_ROW_GAP);
    stamp_text(frame, value, RIGHT_VALUE_X, top, width, height);
    let label_left = RIGHT_VALUE_X - (label.len() + 1) * pitch;
    proof {
        let first = text_points(value@, RIGHT_VALUE_X as int, top as int, value@.len());
        lemma_points_inverted_len(start, first, width as int, height as int);
        lemma_points_inverted_concat(
            start,
            first,
            text_points(label@, label_left as int, top as int, label@.len()),
            width as int,
            height as int,
        );
    }
    stamp_text(frame, label, label_left, top, width, height);
}

// ---------------------------------------------------------------------------
// The attitude page.

/// `ATTITUDE`, the page title.
pub open spec fn attitude_title() -> Seq<u8> {
    seq![65u8, 84u8, 84u8, 73u8, 84u8, 85u8, 68u8, 69u8]
}

/// `N/A`, shown for a semantic the board does not declare.
pub open spec fn not_available() -> Seq<u8> {
    seq![78u8, 47u8, 65u8]
}

/// The label of sample row `k` (drawn on row `k + 1`): raw accelerometer
/// `A0`-`A2`, milli-g `M0`-`M2`, raw gyroscope `G0`-`G2`, deci-dps
/// `D0`-`D2`, tilt `R0`-`R2`, then `ST`, `LR`, `SR`, `TR`.
pub open spec fn sample_row_label(k: int) -> Seq<u8> {
    if k < 3 {
        seq![65u8, (48 + k) as u8]
    } else if k < 6 {
        seq![77u8, (48 + k - 3) as u8]
    } else if k < 9 {
        seq![71u8, (48 + k - 6) as u8]
    } else if k < 12 {
        seq![68u8, (48 + k - 9) as u8]
    } else if k < 15 {
        seq![82u8, (48 + k - 12) as u8]
    } else if k == 15 {
        seq![83u8, 84u8]
    } else if k == 16 {
        seq![76u8, 82u8]
    } else if k == 17 {
        seq![83u8, 82u8]
    } else {
        seq![84u8, 82u8]
    }
}

/// The value text of sample row `k`: the readings above, then the engine
/// status and the recognizer's gravity, shake and tap residuals.
pub open spec fn sample_row_value(s: MotionSample, k: int) -> Seq<u8> {
    if k < 3 {
        signed_decimal(s.raw_accel@[k] as i32)
    } else if k < 6 {
        signed_decimal(s.accel_mg@[k - 3])
    } else if k < 9 {
        signed_decimal(s.raw_gyro@[k - 6] as i32)
    } else if k < 12 {
        tenths_text(s.gyro_dps_x10@[k - 9])
    } else if k < 15 {
        tenths_text(s.tilt_deg_x10@[k - 12] as i32)
    } else if k == 15 {
        decimal(s.status as nat)
    } else if k == 16 {
        signed_decimal(s.gravity_deviation_mg)
    } else if k == 17 {
        signed_decimal(s.shake_residual_mg)
    } else {
        signed_decimal(s.tap_residual_mg)
    }
}

/// The first `n` sample rows.
pub open spec fn sample_rows(s: MotionSample, n: nat) -> Seq<(int, int)>
    decreases n,
{
    if n == 0 {
        Seq::empty()
    } else {
        sample_rows(s, (n - 1) as nat) + left_row_points(
            sample_row_label(n - 1),
            sample_row_value(s, n - 1),
            n as int,
        )
    }
}

/// The label of count row `k`.
pub open spec fn count_row_label(k: int) -> Seq<u8> {
    if k == 0 {
        seq![84u8, 65u8, 80u8]
    } else if k == 1 {
        seq![50u8, 84u8]
    } else if k == 2 {
        seq![51u8, 84u8]
    } else if k == 3 {
        seq![83u8, 84u8, 76u8]
    } else if k == 4 {
        seq![77u8, 79u8, 86u8]
    } else if k == 5 {
        seq![65u8, 67u8, 84u8]
    } else if k == 6 {
        seq![83u8, 84u8, 80u8]
    } else if k == 7 {
        seq![84u8, 73u8, 78u8]
    } else if k == 8 {
        seq![84u8, 79u8, 88u8]
    } else if k == 9 {
        seq![83u8, 72u8, 75u8]
    } else if k == 10 {
        seq![76u8, 70u8, 84u8]
    } else if k == 11 {
        seq![80u8, 76u8, 67u8]
    } else if k == 12 {
        seq![80u8, 82u8, 84u8]
    } else {
        seq![76u8, 78u8, 68u8]
    }
}

/// The capability bit each count row needs.
pub open spec fn count_row_capability(k: int) -> u64 {
    if k <= 2 {
        2
    } else if k == 3 {
        8
    } else if k == 4 {
        16
    } else if k == 5 {
        32
    } else if k == 6 {
        4
    } else if k <= 8 {
        64
    } else if k == 9 {
        128
    } else if k <= 11 {
        256
    } else {
        512
    }
}

/// How many times the semantic of count row `k` has fired.
pub open spec fn count_row_count(c: MotionCounts, k: int) -> u16 {
    if k == 0 {
        c.taps
    } else if k == 1 {
        c.double_taps
    } else if k == 2 {
        c.triple_taps
    } else if k == 3 {
        c.still
    } else if k == 4 {
        c.moving
    } else if k == 5 {
        c.activity
    } else if k == 6 {
        c.steps
    } else if k == 7 {
        c.tilt_enters
    } else if k == 8 {
        c.tilt_exits
    } else if k == 9 {
        c.shakes
    } else if k == 10 {
        c.lifts
    } else if k == 11 {
        c.places
    } else if k == 12 {
        c.portraits
    } else {
        c.landscapes
    }
}

/// The value text of count row `k`: the count, or `N/A` where the board
/// does not declare the capability.
pub open spec fn count_row_value(c: MotionCounts, caps: MotionCapabilities, k: int) -> Seq<u8> {
    if caps.0 & count_row_capability(k) == count_row_capability(k) {
        decimal(count_row_count(c, k) as nat)
    } else {
        not_available()
    }
}

/// The first `n` count rows.
pub open spec fn count_rows(c: MotionCounts, caps: MotionCapabilities, n: nat) -> Seq<(int, int)>
    decreases n,
{
    if n == 0 {
        Seq::empty()
    } else {
        count_rows(c, caps, (n - 1) as nat) + right_row_points(
            count_row_value(c, caps, n - 1),
            count_row_label(n - 1),
            n - 1,
        )
    }
}

/// Everything the attitude page inverts: the title; then `ERR WAIT` before
/// any sample, `ERR READ` for a failed read, or else the dial, the nineteen
/// sample rows and the fourteen count rows.
pub open spec fn attitude_points(
    motion: Option<MotionSample>,
    geo: Horizon,
    counts: MotionCounts,
    caps: MotionCapabilities,
) -> Seq<(int, int)> {
    let title = text_points(attitude_title(), OVERLAY_X as int, OVERLAY_Y as int, 8);
    match motion {
        None => title + left_row_points(seq![69u8, 82u8, 82u8], seq![87u8, 65u8, 73u8, 84u8], 2),
        Some(s) => if !s.valid {
            title + left_row_points(seq![69u8, 82u8, 82u8], seq![82u8, 69u8, 65u8, 68u8], 2)
        } else {
            title + dial_points(geo) + sample_rows(s, 19) + count_rows(counts, caps, 14)
        },
    }
}

/// The first `n` bytes.
fn bytes_upto(buf: &[u8], n: usize) -> (v: Vec<u8>)
    requires
        n <= buf@.len(),
    ensures
        v@ == buf@.take(n as int),
{
    let mut v: Vec<u8> = Vec::new();
    let mut i: usize = 0;
    while i < n
        invariant
            i <= n,
            n <= buf@.len(),
            v@ == buf@.take(i as int),
        decreases n - i,
    {
        v.push(buf[i]);
        i += 1;
    }
    v
}

fn sample_label(k: usize) -> (v: Vec<u8>)
    requires
        k < 19,
    ensures
        v@ == sample_row_label(k as int),
{
    let v = if k < 3 {
        vec![65u8, 48u8 + k as u8]
    } else if k < 6 {
        vec![77u8, 48u8 + (k - 3) as u8]
    } else if k < 9 {
        vec![71u8, 48u8 + (k - 6) as u8]
    } else if k < 12 {
        vec![68u8, 48u8 + (k - 9) as u8]
    } else if k < 15 {
        vec![82u8, 48u8 + (k - 12) as u8]
    } else if k == 15 {
        vec![83u8, 84u8]
    } else if k == 16 {
        vec![76u8, 82u8]
    } else if k == 17 {
        vec![83u8, 82u8]
    } else {
        vec![84u8, 82u8]
    };
    assert(v@ =~= sample_row_label(k as int));
    v
}

fn sample_value(s: &MotionSample, k: usize) -> (v: Vec<u8>)
    requires
        k < 19,
    ensures
        v@ == sample_row_value(*s, k as int),
        v@.len() <= 12,
{
    let mut buf = [0u8; 12];
    let n = if k < 3 {
        format_i32(s.raw_accel[k] as i32, &mut buf)
    } else if k < 6 {
        format_i32(s.accel_mg[k - 3], &mut buf)
    } else if k < 9 {
        format_i32(s.raw_gyro[k - 6] as i32, &mut buf)
    } else if k < 12 {
        format_tenths(s.gyro_dps_x10[k - 9], &mut buf)
    } else if k < 15 {
        format_tenths(s.tilt_deg_x10[k - 12] as i32, &mut buf)
    } else if k == 15 {
        let mut short = [0u8; 6];
        let m = format_u16(s.status as u16, &mut short);
        return bytes_upto(&short, m);
    } else if k == 16 {
        format_i32(s.gravity_deviation_mg, &mut buf)
    } else if k == 17 {
        format_i32(s.shake_residual_mg, &mut buf)
    } else {
        format_i32(s.tap_residual_mg, &mut buf)
    };
    bytes_upto(&buf, n)
}

fn count_label(k: usize) -> (v: Vec<u8>)
    requires
        k < 14,
    ensures
        v@ == count_row_label(k as int),
{
    let v = if k == 0 {
        vec![84u8, 65u8, 80u8]
    } else if k == 1 {
        vec![50u8, 84u8]
    } else if k == 2 {
        vec![51u8, 84u8]
    } else if k == 3 {
        vec![83u8, 84u8, 76u8]
    } else if k == 4 {
        vec![77u8, 79u8, 86u8]
    } else if k == 5 {
        vec![65u8, 67u8, 84u8]
    } else if k == 6 {
        vec![83u8, 84u8, 80u8]
    } else if k == 7 {
        vec![84u8, 73u8, 78u8]
    } else if k == 8 {
        vec![84u8, 79u8, 88u8]
    } else if k == 9 {
        vec![83u8, 72u8, 75u8]
    } else if k == 10 {
        vec![76u8, 70u8, 84u8]
    } else if k == 11 {
        vec![80u8, 76u8, 67u8]
    } else if k == 12 {
        vec![80u8, 82u8, 84u8]
    } else {
        vec![76u8, 78u8, 68u8]
    };
    assert(v@ =~= count_row_label(k as int));
    v
}

fn count_value(c: &MotionCounts, caps: MotionCapabilities, k: usize) -> (v: Vec<u8>)
    requires
        k < 14,
    ensures
        v@ == count_row_value(*c, caps, k as int),
        v@.len() <= 6,
{
    let capability = MotionCapabilities(
        if k <= 2 {
            2
        } else if k == 3 {
            8
        } else if k == 4 {
            16
        } else if k == 5 {
            32
        } else if k == 6 {
            4
        } else if k <= 8 {
            64
        } else if k == 9 {
            128
        } else if k <= 11 {
            256
        } else {
            512
        },
    );
    if caps.contains(capability) {
        let count = if k == 0 {
            c.taps
        } else if k == 1 {
            c.double_taps
        } else if k == 2 {
            c.triple_taps
        } else if k == 3 {
            c.still
        } else if k == 4 {
            c.moving
        } else if k == 5 {
            c.activity
        } else if k == 6 {
            c.steps
        } else if k == 7 {
            c.tilt_enters
        } else if k == 8 {
            c.tilt_exits
        } else if k == 9 {
            c.shakes
        } else if k == 10 {
            c.lifts
        } else if k == 11 {
            c.places
        } else if k == 12 {
            c.portraits
        } else {
            c.landscapes
        };
        let mut buf = [0u8; 6];
        let n = format_u16(count, &mut buf);
        bytes_upto(&buf, n)
    } else {
        let v = vec![78u8, 47u8, 65u8];
        assert(v@ =~= not_available());
        v
    }
}

/// Overdraws the attitude page: a title, then the raw and scaled motion
/// readout with the attitude dial in the left column and one count per
/// semantic in the right, `N/A` where the board declares no such
/// capability; or `ERR`/`WAIT` before any sample and `ERR`/`READ` after a
/// failed read. `geo` is the horizon of the sample's roll and pitch.
pub fn stamp_attitude(
    frame: &mut Vec<u8>,
    motion: Option<MotionSample>,
    geo: Horizon,
    counts: MotionCounts,
    caps: MotionCapabilities,
    width: usize,
    height: usize,
)
    requires
        old(frame)@.len() == width * height * 2,
    ensures
        final(frame)@ == points_inverted(
            old(frame)@,
            attitude_points(motion, geo, counts, caps),
            width as int,
            height as int,
        ),
{
    let ghost w = width as int;
    let ghost h = height as int;
    let ghost start = frame@;
    let title = vec![65u8, 84u8, 84u8, 73u8, 84u8, 85u8, 68u8, 69u8];
    assert(title@ =~= attitude_title());
    stamp_text(frame, title.as_slice(), OVERLAY_X, OVERLAY_Y, width, height);
    let ghost title_points = text_points(attitude_title(), OVERLAY_X as int, OVERLAY_Y as int, 8);
    proof {
        lemma_points_inverted_len(start, title_points, w, h);
    }
    let sample = match motion {
        None => {
            let err = vec![69u8, 82u8, 82u8];
            let wait = vec![87u8, 65u8, 73u8, 84u8];
            proof {
                lemma_points_inverted_concat(start, title_points, left_row_points(err@, wait@, 2), w, h);
            }
            stamp_left(frame, err.as_slice(), wait.as_slice(), 2, width, height);
            proof {
                assert(err@ =~= seq![69u8, 82u8, 82u8]);
                assert(wait@ =~= seq![87u8, 65u8, 73u8, 84u8]);
            }
            return;
        },
        Some(sample) => sample,
    };
    if !sample.valid {
        let err = vec![69u8, 82u8, 82u8];
        let read = vec![82u8, 69u8, 65u8, 68u8];
        proof {
            lemma_points_inverted_concat(start, title_points, left_row_points(err@, read@, 2), w, h);
        }
        stamp_left(frame, err.as_slice(), read.as_slice(), 2, width, height);
        proof {
            assert(err@ =~= seq![69u8, 82u8, 82u8]);
            assert(read@ =~= seq![82u8, 69u8, 65u8, 68u8]);
        }
        return;
    }
    proof {
        lemma_points_inverted_concat(start, title_points, dial_points(geo), w, h);
        lemma_points_inverted_len(start, title_points + dial_points(geo), w, h);
    }
    stamp_horizon(frame, geo, width, height);
    let ghost head = title_points + dial_points(geo);
    let mut k: usize = 0;
    assert(head + sample_rows(sample, 0) =~= head);
    while k < 19
        invariant
            k <= 19,
            w == width,
            h == height,
            start == old(frame)@,
            start.len() == width * height * 2,
            frame@ == points_inverted(start, head + sample_rows(sample, k as nat), w, h),
        decreases 19 - k,
    {
        let label = sample_label(k);
        let value = sample_value(&sample, k);
        let ghost done = head + sample_rows(sample, k as nat);
        let ghost row = left_row_points(label@, value@, (k + 1) as int);
        proof {
            lemma_points_inverted_len(start, done, w, h);
            lemma_points_inverted_concat(start, done, row, w, h);
            assert(done + row =~= head + sample_rows(sample, (k + 1) as nat));
        }
        stamp_left(frame, label.as_slice(), value.as_slice(), k + 1, width, height);
        k += 1;
    }
    let ghost middle = head + sample_rows(sample, 19);
    let mut j: usize = 0;
    assert(middle + count_rows(counts, caps, 0) =~= middle);
    while j < 14
        invariant
            j <= 14,
            w == width,
            h == height,
            start == old(frame)@,
            start.len() == width * height * 2,
            frame@ == points_inverted(start, middle + count_rows(counts, caps, j as nat), w, h),
        decreases 14 - j,
    {
        let label = count_label(j);
        let value = count_value(&counts, caps, j);
        let ghost done = middle + count_rows(counts, caps, j as nat);
        let ghost row = right_row_points(value@, label@, j as int);
        proof {
            lemma_points_inverted_len(start, done, w, h);
            lemma_points_inverted_concat(start, done, row, w, h);
            assert(done + row =~= middle + count_rows(counts, caps, (j + 1) as nat));
        }
        stamp_right(frame, value.as_slice(), label.as_slice(), j, width, height);
        j += 1;
    }
}

// ---------------------------------------------------------------------------
// The diagnostics page.

/// The ASCII digit of a movement-direction code (`1`-`9`), a dash when
/// nothing moves or the code is out of range.
pub open spec fn arrow_glyph(dir: u8) -> u8 {
    if 1 <= dir <= 9 {
        (48 + dir) as u8
    } else {
        45u8
    }
}

/// The digit of a finger's last resolved gesture: `1` tap, `2` double tap,
/// `4` long press, `5` swipe; a dash before the slot resolves one.
pub open spec fn gesture_glyph(kind: u8) -> u8 {
    if kind == FINGER_TAP {
        49u8
    } else if kind == FINGER_DOUBLE_TAP {
        50u8
    } else if kind == FINGER_LONG_PRESS {
        52u8
    } else if kind == FINGER_SWIPE {
        53u8
    } else {
        45u8
    }
}

/// The four rows of finger slot `s` (rows `11 + 4s` on): its live position,
/// its last gesture's digit, that gesture's value (a dash before any), and
/// its live movement digit.
#[verifier::opaque]
pub open spec fn slot_rows(t: TouchDiagnostics, s: int) -> Seq<(bool, Seq<u8>, Seq<u8>, int)> {
    let base = 11 + 4 * s;
    let digit = (48 + s) as u8;
    let last = t.finger@[s];
    seq![
        (true, seq![80u8, digit], pair_text(t.points@[s]), base),
        (true, seq![80u8, digit, 71u8], seq![gesture_glyph(last.kind)], base + 1),
        (
            true,
            seq![80u8, digit, 68u8],
            if last.kind == 0 {
                seq![45u8]
            } else {
                decimal(last.value as nat)
            },
            base + 2,
        ),
        (true, seq![80u8, digit, 86u8], seq![arrow_glyph(t.live_dir@[s])], base + 3),
    ]
}

/// The touch column's counter rows (`GST`, `2F`, `PRS`, `TAP`, `DBL`, row 5
/// left free, `LNG`, `SWP`), then the last swipe's direction digit and
/// length, and the last gesture's origin and end.
#[verifier::opaque]
pub open spec fn counter_rows(t: TouchDiagnostics) -> Seq<(bool, Seq<u8>, Seq<u8>, int)> {
    seq![
        (true, seq![71u8, 83, 84], decimal(t.ghosts as nat), 0int),
        (true, seq![50u8, 70], decimal(t.two_finger_runs as nat), 1int),
        (true, seq![80u8, 82, 83], decimal(t.presses as nat), 2int),
        (true, seq![84u8, 65, 80], decimal(t.taps as nat), 3int),
        (true, seq![68u8, 66, 76], decimal(t.double_taps as nat), 4int),
        (true, seq![76u8, 78, 71], decimal(t.long_presses as nat), 6int),
        (true, seq![83u8, 87, 80], decimal(t.swipes as nat), 7int),
        (true, seq![68u8, 73, 82], seq![arrow_glyph(t.last_swipe_dir), 32u8] + decimal(t.last_swipe_dist as nat), 8int),
        (true, seq![88u8, 89], pair_text(t.last_gesture_origin), 9int),
        (true, seq![88u8, 89, 50], pair_text(t.last_gesture_end), 10int),
    ]
}

/// The touch column's closing rows: the chip's gesture id and the frame
/// heartbeat.
#[verifier::opaque]
pub open spec fn closing_rows(t: TouchDiagnostics) -> Seq<(bool, Seq<u8>, Seq<u8>, int)> {
    seq![
        (true, seq![67u8, 72, 80], decimal(t.chip_gesture_id as nat), 19int),
        (true, seq![70u8, 82, 77], decimal(t.frames as nat), 20int),
    ]
}

/// The touch column: the counter rows, the two finger slots and the closing
/// rows.
pub open spec fn touch_rows(t: TouchDiagnostics) -> Seq<(bool, Seq<u8>, Seq<u8>, int)> {
    counter_rows(t) + slot_rows(t, 0) + slot_rows(t, 1) + closing_rows(t)
}

/// The mode column for one light: breathing shows its mode, the live
/// brightness, the brightness span, the period, the live hue, the hue
/// period, hue span, group length and saturation; solid shows its mode, the
/// live brightness and hue; off shows its mode.
#[verifier::opaque]
pub open spec fn mode_rows(l: LightSnapshot, live: (u8, u8)) -> Seq<(bool, Seq<u8>, Seq<u8>, int)> {
    let mode = (false, seq![77u8, 79, 68], mode_text(l.mode), 0int);
    if l.mode == MODE_BREATH {
        seq![
            mode,
            (false, seq![66u8, 82, 73], decimal(live.0 as nat), 1int),
            (
                false,
                seq![76u8, 79, 32, 72, 73],
                decimal(l.breath.min_brightness as nat) + seq![32u8] + decimal(l.breath.max_brightness as nat),
                2int,
            ),
            (false, seq![80u8, 69, 82], decimal(l.breath.period_ms as nat), 3int),
            (false, seq![72u8, 85, 69], decimal(live.1 as nat), 4int),
            (false, seq![72u8, 80, 82], decimal(l.breath.hue_period_ms as nat), 5int),
            (false, seq![83u8, 80, 78], decimal(l.breath.hue_span as nat), 6int),
            (false, seq![71u8, 82, 80], decimal(l.breath.group_len as nat), 7int),
            (false, seq![83u8, 65, 84], decimal(l.breath.saturation as nat), 8int),
        ]
    } else if l.mode == MODE_SOLID {
        seq![
            mode,
            (false, seq![66u8, 82, 73], decimal(live.0 as nat), 1int),
            (false, seq![72u8, 85, 69], decimal(live.1 as nat), 2int),
        ]
    } else {
        seq![mode]
    }
}

/// Every row of the diagnostics page for light `instance`, `live` its live
/// brightness and hue.
pub open spec fn page_rows(d: Diagnostics, instance: u8, live: (u8, u8)) -> Seq<(bool, Seq<u8>, Seq<u8>, int)> {
    touch_rows(d.touch) + mode_rows(d.lights@[instance as int], live)
}

/// The points of one row, in the touch column (`true`) or the mode column.
pub open spec fn page_row_points(r: (bool, Seq<u8>, Seq<u8>, int)) -> Seq<(int, int)> {
    if r.0 {
        left_row_points(r.1, r.2, r.3)
    } else {
        right_row_points(r.2, r.1, r.3)
    }
}

/// The points of the first `n` rows.
pub open spec fn rows_points(rows: Seq<(bool, Seq<u8>, Seq<u8>, int)>, n: nat) -> Seq<(int, int)>
    decreases n,
{
    if n == 0 || n > rows.len() {
        Seq::empty()
    } else {
        rows_points(rows, (n - 1) as nat) + page_row_points(rows[n - 1])
    }
}

/// Everything the diagnostics page inverts.
pub open spec fn diagnostics_points(d: Diagnostics, instance: u8, live: (u8, u8)) -> Seq<(int, int)> {
    rows_points(page_rows(d, instance, live), page_rows(d, instance, live).len())
}

struct PageRow {
    left: bool,
    label: Vec<u8>,
    value: Vec<u8>,
    row: usize,
}

spec fn page_view(v: Seq<PageRow>) -> Seq<(bool, Seq<u8>, Seq<u8>, int)> {
    v.map_values(|r: PageRow| (r.left, r.label@, r.value@, r.row as int))
}

spec fn rows_fit(v: Seq<PageRow>) -> bool {
    forall|k: int|
        0 <= k < v.len() ==> (#[trigger] v[k]).label@.len() <= 5 && v[k].value@.len() <= 16 && v[k].row <= 20
}

fn push_row(rows: &mut Vec<PageRow>, left: bool, label: Vec<u8>, value: Vec<u8>, row: usize)
    requires
        rows_fit(old(rows)@),
        label@.len() <= 5,
        value@.len() <= 16,
        row <= 20,
    ensures
        rows_fit(final(rows)@),
        page_view(final(rows)@) == page_view(old(rows)@).push((left, label@, value@, row as int)),
{
    let ghost before = rows@;
    rows.push(PageRow { left, label, value, row });
    assert(page_view(rows@) =~= page_view(before).push((left, rows@.last().label@, rows@.last().value@, row as int)));
}

fn digits_of(value: u16) -> (v: Vec<u8>)
    ensures
        v@ == decimal(value as nat),
        v@.len() <= 6,
{
    let mut buf = [0u8; 6];
    let n = format_u16(value, &mut buf);
    bytes_upto(&buf, n)
}

fn pair_bytes(pair: Option<(u16, u16)>) -> (v: Vec<u8>)
    requires
        pair_text(pair).len() <= 8,
    ensures
        v@ == pair_text(pair),
{
    let mut buf = [0u8; 8];
    let n = format_pair(pair, &mut buf);
    bytes_upto(&buf, n)
}

fn gesture_digit(kind: u8) -> (c: u8)
    ensures
        c == gesture_glyph(kind),
{
    if kind == FINGER_TAP {
        49
    } else if kind == FINGER_DOUBLE_TAP {
        50
    } else if kind == FINGER_LONG_PRESS {
        52
    } else if kind == FINGER_SWIPE {
        53
    } else {
        45
    }
}

fn lo_hi_bytes(lo: u8, hi: u8) -> (v: Vec<u8>)
    ensures
        v@ == decimal(lo as nat) + seq![32u8] + decimal(hi as nat),
        v@.len() <= 13,
{
    let a = digits_of(lo as u16);
    let b = digits_of(hi as u16);
    let mut v = a;
    v.push(32u8);
    let mut i: usize = 0;
    let ghost head = v@;
    while i < b.len()
        invariant
            i <= b@.len(),
            v@ == head + b@.take(i as int),
        decreases b@.len() - i,
    {
        v.push(b[i]);
        assert(b@.take(i + 1) =~= b@.take(i as int).push(b@[i as int]));
        i += 1;
    }
    assert(b@.take(i as int) =~= b@);
    v
}

fn swipe_bytes(dir: u8, dist: u16) -> (v: Vec<u8>)
    ensures
        v@ == seq![arrow_glyph(dir), 32u8] + decimal(dist as nat),
        v@.len() <= 11,
{
    let d = digits_of(dist);
    let mut v = vec![direction_arrow(dir), 32u8];
    let ghost head = v@;
    let mut i: usize = 0;
    while i < d.len()
        invariant
            i <= d@.len(),
            v@ == head + d@.take(i as int),
        decreases d@.len() - i,
    {
        v.push(d[i]);
        assert(d@.take(i + 1) =~= d@.take(i as int).push(d@[i as int]));
        i += 1;
    }
    assert(d@.take(i as int) =~= d@);
    v
}

/// Push the four rows of finger slot `s`.
fn push_slot_rows(rows: &mut Vec<PageRow>, t: &TouchDiagnostics, s: usize)
    requires
        s < MAX_TRACKED_POINTS,
        pair_text(t.points@[s as int]).len() <= 8,
        rows_fit(old(rows)@),
    ensures
        rows_fit(final(rows)@),
        page_view(final(rows)@) == page_view(old(rows)@) + slot_rows(*t, s as int),
{
    let ghost before = page_view(rows@);
    let digit = 48u8 + s as u8;
    let base = 11 + 4 * s;
    let l0 = vec![80u8, digit];
    let v0 = pair_bytes(t.points[s]);
    let ghost r0 = (true, l0@, v0@, base as int);
    push_row(rows, true, l0, v0, base);
    let last = t.finger[s];
    let l1 = vec![80u8, digit, 71u8];
    let v1 = vec![gesture_digit(last.kind)];
    let ghost r1 = (true, l1@, v1@, base + 1);
    push_row(rows, true, l1, v1, base + 1);
    let v2 = if last.kind == 0 {
        vec![45u8]
    } else {
        digits_of(last.value)
    };
    let l2 = vec![80u8, digit, 68u8];
    let ghost r2 = (true, l2@, v2@, base + 2);
    push_row(rows, true, l2, v2, base + 2);
    let l3 = vec![80u8, digit, 86u8];
    let v3 = vec![direction_arrow(t.live_dir[s])];
    let ghost r3 = (true, l3@, v3@, base + 3);
    push_row(rows, true, l3, v3, base + 3);
    proof {
        reveal(slot_rows);
        assert(l0@ =~= seq![80u8, digit]);
        assert(l1@ =~= seq![80u8, digit, 71u8]);
        assert(l2@ =~= seq![80u8, digit, 68u8]);
        assert(l3@ =~= seq![80u8, digit, 86u8]);
        assert(v1@ =~= seq![gesture_glyph(last.kind)]);
        assert(v3@ =~= seq![arrow_glyph(t.live_dir@[s as int])]);
        if last.kind == 0 {
            assert(v2@ =~= seq![45u8]);
        }
        assert(slot_rows(*t, s as int) =~= seq![r0, r1, r2, r3]);
        assert(page_view(rows@) =~= before + seq![r0, r1, r2, r3]);
    }
}

fn label_of(bytes: &[u8]) -> (v: Vec<u8>)
    ensures
        v@ == bytes@,
{
    bytes_upto(bytes, bytes.len())
}

fn push_counter_rows(rows: &mut Vec<PageRow>, t: &TouchDiagnostics)
    requires
        rows_fit(old(rows)@),
        pair_text(t.last_gesture_origin).len() <= 8,
        pair_text(t.last_gesture_end).len() <= 8,
    ensures
        rows_fit(final(rows)@),
        page_view(final(rows)@) == page_view(old(rows)@) + counter_rows(*t),
{
    let ghost before = page_view(rows@);
    let a = [71u8, 83, 84];
    let b = [50u8, 70];
    let c = [80u8, 82, 83];
    let e = [84u8, 65, 80];
    let f = [68u8, 66, 76];
    let g = [76u8, 78, 71];
    let h = [83u8, 87, 80];
    let i = [68u8, 73, 82];
    let j = [88u8, 89];
    let k = [88u8, 89, 50];
    push_row(rows, true, label_of(&a), digits_of(t.ghosts as u16), 0);
    push_row(rows, true, label_of(&b), digits_of(t.two_finger_runs as u16), 1);
    push_row(rows, true, label_of(&c), digits_of(t.presses as u16), 2);
    push_row(rows, true, label_of(&e), digits_of(t.taps as u16), 3);
    push_row(rows, true, label_of(&f), digits_of(t.double_taps as u16), 4);
    push_row(rows, true, label_of(&g), digits_of(t.long_presses as u16), 6);
    push_row(rows, true, label_of(&h), digits_of(t.swipes as u16), 7);
    push_row(rows, true, label_of(&i), swipe_bytes(t.last_swipe_dir, t.last_swipe_dist), 8);
    push_row(rows, true, label_of(&j), pair_bytes(t.last_gesture_origin), 9);
    push_row(rows, true, label_of(&k), pair_bytes(t.last_gesture_end), 10);
    proof {
        reveal(counter_rows);
        assert(a@ =~= seq![71u8, 83, 84]);
        assert(b@ =~= seq![50u8, 70]);
        assert(c@ =~= seq![80u8, 82, 83]);
        assert(e@ =~= seq![84u8, 65, 80]);
        assert(f@ =~= seq![68u8, 66, 76]);
        assert(g@ =~= seq![76u8, 78, 71]);
        assert(h@ =~= seq![83u8, 87, 80]);
        assert(i@ =~= seq![68u8, 73, 82]);
        assert(j@ =~= seq![88u8, 89]);
        assert(k@ =~= seq![88u8, 89, 50]);
        assert(page_view(rows@) =~= before + counter_rows(*t));
    }
}

fn push_closing_rows(rows: &mut Vec<PageRow>, t: &TouchDiagnostics)
    requires
        rows_fit(old(rows)@),
    ensures
        rows_fit(final(rows)@),
        page_view(final(rows)@) == page_view(old(rows)@) + closing_rows(*t),
{
    let ghost before = page_view(rows@);
    let a = [67u8, 72, 80];
    let b = [70u8, 82, 77];
    push_row(rows, true, label_of(&a), digits_of(t.chip_gesture_id as u16), 19);
    push_row(rows, true, label_of(&b), digits_of(t.frames), 20);
    proof {
        reveal(closing_rows);
        assert(a@ =~= seq![67u8, 72, 80]);
        assert(b@ =~= seq![70u8, 82, 77]);
        assert(page_view(rows@) =~= before + closing_rows(*t));
    }
}

fn push_mode_rows(rows: &mut Vec<PageRow>, light: &LightSnapshot, live: (u8, u8))
    requires
        rows_fit(old(rows)@),
    ensures
        rows_fit(final(rows)@),
        page_view(final(rows)@) == page_view(old(rows)@) + mode_rows(*light, live),
{
    let ghost before = page_view(rows@);
    let word = mode_word(light.mode);
    let m = [77u8, 79, 68];
    let bri = [66u8, 82, 73];
    let lohi = [76u8, 79, 32, 72, 73];
    let per = [80u8, 69, 82];
    let hue = [72u8, 85, 69];
    let hpr = [72u8, 80, 82];
    let spn = [83u8, 80, 78];
    let grp = [71u8, 82, 80];
    let sat = [83u8, 65, 84];
    proof {
        assert(m@ =~= seq![77u8, 79, 68]);
        assert(bri@ =~= seq![66u8, 82, 73]);
        assert(lohi@ =~= seq![76u8, 79, 32, 72, 73]);
        assert(per@ =~= seq![80u8, 69, 82]);
        assert(hue@ =~= seq![72u8, 85, 69]);
        assert(hpr@ =~= seq![72u8, 80, 82]);
        assert(spn@ =~= seq![83u8, 80, 78]);
        assert(grp@ =~= seq![71u8, 82, 80]);
        assert(sat@ =~= seq![83u8, 65, 84]);
        reveal(mode_rows);
    }
    push_row(rows, false, label_of(&m), label_of(&word), 0);
    if light.mode == MODE_BREATH {
        push_row(rows, false, label_of(&bri), digits_of(live.0 as u16), 1);
        push_row(rows, false, label_of(&lohi), lo_hi_bytes(light.breath.min_brightness, light.breath.max_brightness), 2);
        push_row(rows, false, label_of(&per), digits_of(light.breath.period_ms), 3);
        push_row(rows, false, label_of(&hue), digits_of(live.1 as u16), 4);
        push_row(rows, false, label_of(&hpr), digits_of(light.breath.hue_period_ms), 5);
        push_row(rows, false, label_of(&spn), digits_of(light.breath.hue_span as u16), 6);
        push_row(rows, false, label_of(&grp), digits_of(light.breath.group_len as u16), 7);
        push_row(rows, false, label_of(&sat), digits_of(light.breath.saturation as u16), 8);
    } else if light.mode == MODE_SOLID {
        push_row(rows, false, label_of(&bri), digits_of(live.0 as u16), 1);
        push_row(rows, false, label_of(&hue), digits_of(live.1 as u16), 2);
    }
    assert(page_view(rows@) =~= before + mode_rows(*light, live));
}

/// The rows of the diagnostics page, built in order.
fn page_rows_exec(d: &Diagnostics, instance: u8, live: (u8, u8)) -> (rows: Vec<PageRow>)
    requires
        (instance as usize) < MAX_LIGHTS,
        pair_text(d.touch.last_gesture_origin).len() <= 8,
        pair_text(d.touch.last_gesture_end).len() <= 8,
        pair_text(d.touch.points@[0]).len() <= 8,
        pair_text(d.touch.points@[1]).len() <= 8,
    ensures
        rows_fit(rows@),
        page_view(rows@) == page_rows(*d, instance, live),
{
    let mut rows: Vec<PageRow> = Vec::new();
    assert(page_view(rows@) =~= Seq::<(bool, Seq<u8>, Seq<u8>, int)>::empty());
    push_counter_rows(&mut rows, &d.touch);
    push_slot_rows(&mut rows, &d.touch, 0);
    push_slot_rows(&mut rows, &d.touch, 1);
    push_closing_rows(&mut rows, &d.touch);
    push_mode_rows(&mut rows, &d.lights[instance as usize], live);
    assert(page_view(rows@) =~= page_rows(*d, instance, live));
    rows
}

/// One row of the page, in its column.
fn stamp_page_row(frame: &mut Vec<u8>, r: &PageRow, width: usize, height: usize)
    requires
        old(frame)@.len() == width * height * 2,
        r.label@.len() <= 5,
        r.value@.len() <= 16,
        r.row <= 20,
    ensures
        final(frame)@ == points_inverted(
            old(frame)@,
            page_row_points((r.left, r.label@, r.value@, r.row as int)),
            width as int,
            height as int,
        ),
{
    if r.left {
        stamp_left(frame, r.label.as_slice(), r.value.as_slice(), r.row, width, height);
    } else {
        stamp_right(frame, r.value.as_slice(), r.label.as_slice(), r.row, width, height);
    }
}

/// The diagnostics page for light `instance`: the touch column and the
/// light's mode column (see [`page_rows`]), each row inverted into the frame
/// in order. `live` is the light's live brightness and hue. Coordinate
/// pairs are laid out in eight bytes, so each must fit them.
pub fn stamp_diagnostics(
    frame: &mut Vec<u8>,
    d: &Diagnostics,
    instance: u8,
    live: (u8, u8),
    width: usize,
    height: usize,
)
    requires
        old(frame)@.len() == width * height * 2,
        (instance as usize) < MAX_LIGHTS,
        pair_text(d.touch.last_gesture_origin).len() <= 8,
        pair_text(d.touch.last_gesture_end).len() <= 8,
        pair_text(d.touch.points@[0]).len() <= 8,
        pair_text(d.touch.points@[1]).len() <= 8,
    ensures
        final(frame)@ == points_inverted(
            old(frame)@,
            diagnostics_points(*d, instance, live),
            width as int,
            height as int,
        ),
{
    let ghost w = width as int;
    let ghost h = height as int;
    let ghost start = frame@;
    let rows = page_rows_exec(d, instance, live);
    let ghost spec_rows = page_rows(*d, instance, live);
    let mut k: usize = 0;
    assert(rows_points(spec_rows, 0) =~= Seq::<(int, int)>::empty());
    assert(points_inverted(start, Seq::<(int, int)>::empty(), w, h) == start);
    while k < rows.len()
        invariant
            k <= rows@.len(),
            w == width,
            h == height,
            start == old(frame)@,
            start.len() == width * height * 2,
            rows_fit(rows@),
            page_view(rows@) == spec_rows,
            frame@ == points_inverted(start, rows_points(spec_rows, k as nat), w, h),
        decreases rows@.len() - k,
    {
        let ghost done = rows_points(spec_rows, k as nat);
        let ghost row = page_row_points(spec_rows[k as int]);
        assert(spec_rows[k as int] == (rows@[k as int].left, rows@[k as int].label@, rows@[k as int].value@, rows@[k as int].row as int));
        assert(rows@[k as int].label@.len() <= 5);
        proof {
            lemma_points_inverted_len(start, done, w, h);
            lemma_points_inverted_concat(start, done, row, w, h);
        }
        stamp_page_row(frame, &rows[k], width, height);
        k += 1;
    }
}

// ---------------------------------------------------------------------------
// Laws.

proof fn lemma_inverted565_complement(packed: u16)
    ensures
        inverted565(packed) == 65535 - packed,
{
    let r = packed / 2048;
    let g = (packed / 32) % 64;
    let bl = packed % 32;
    assert(packed == r * 2048 + g * 32 + bl) by (nonlinear_arith)
        requires
            r == packed / 2048,
            g == (packed / 32) % 64,
            bl == packed % 32,
            0 <= packed < 65536,
    ;
}

proof fn lemma_byte_pair_inverted(hi: u8, lo: u8)
    ensures
        ((hi * 256 + lo) as u16) as int == hi * 256 + lo,
        (inverted565(((hi * 256 + lo) as u16)) / 256) as u8 == 255 - hi,
        (inverted565(((hi * 256 + lo) as u16)) % 256) as u8 == 255 - lo,
{
    let packed = (hi * 256 + lo) as u16;
    assert(packed == hi * 256 + lo);
    lemma_inverted565_complement(packed);
    assert(65535 - packed == (255 - hi) * 256 + (255 - lo));
}

/// Ink inverts, so inking a pixel twice gives back what lay beneath.
pub proof fn lemma_invert_twice_restores(frame: Seq<u8>, x: int, y: int, width: int, height: int)
    requires
        0 <= width,
        0 <= height,
        frame.len() == width * height * 2,
    ensures
        pixel_inverted(pixel_inverted(frame, x, y, width, height), x, y, width, height) == frame,
{
    if 0 <= x < width && 0 <= y < height {
        let o = (y * width + x) * 2;
        assert(0 <= o && o + 1 < width * height * 2) by (nonlinear_arith)
            requires
                0 <= x < width,
                0 <= y < height,
                o == (y * width + x) * 2,
        ;
        let hi = frame[o];
        let lo = frame[o + 1];
        lemma_byte_pair_inverted(hi, lo);
        let once = frame.update(o, (255 - hi) as u8).update(o + 1, (255 - lo) as u8);
        assert(pixel_inverted(frame, x, y, width, height) == once);
        lemma_byte_pair_inverted((255 - hi) as u8, (255 - lo) as u8);
        assert(once[o] == 255 - hi && once[o + 1] == 255 - lo);
        assert(once.update(o, hi).update(o + 1, lo) =~= frame);
    }
}

proof fn lemma_walk_reaches_end(
    x0: int,
    y0: int,
    x1: int,
    y1: int,
    a: int,
    b: int,
    sx: int,
    sy: int,
    xs: int,
    ys: int,
    err: int,
    fuel: nat,
)
    requires
        0 <= xs <= a,
        0 <= ys <= b,
        sx == 1 || sx == -1,
        sy == 1 || sy == -1,
        x1 == x0 + (if sx == 1 { a } else { -a }),
        y1 == y0 + (if sy == 1 { b } else { -b }),
        err == bresenham_err(a, b, xs, ys),
        fuel >= (a - xs) + (b - ys),
    ensures
        ({
            let walk = line_walk(
                x0 + (if sx == 1 { xs } else { -xs }),
                y0 + (if sy == 1 { ys } else { -ys }),
                err,
                x1,
                y1,
                a,
                -b,
                sx,
                sy,
                fuel,
            );
            walk.len() > 0 && walk.last() == (x1, y1)
        }),
    decreases fuel,
{
    let x = x0 + (if sx == 1 { xs } else { -xs });
    let y = y0 + (if sy == 1 { ys } else { -ys });
    if !(x == x1 && y == y1) {
        lemma_bresenham_step(a, b, xs, ys, err);
        let e2 = 2 * err;
        let nxs = if e2 >= -b { xs + 1 } else { xs };
        let nys = if e2 <= a { ys + 1 } else { ys };
        let err1 = if e2 >= -b { err - b } else { err };
        let err2 = if e2 <= a { err1 + a } else { err1 };
        lemma_walk_reaches_end(x0, y0, x1, y1, a, b, sx, sy, nxs, nys, err2, (fuel - 1) as nat);
    }
}

/// A straight run starts at its first end point and stops at its second.
pub proof fn lemma_line_joins_its_ends(x0: int, y0: int, x1: int, y1: int)
    ensures
        line_points(x0, y0, x1, y1).len() > 0,
        line_points(x0, y0, x1, y1)[0] == (x0, y0),
        line_points(x0, y0, x1, y1).last() == (x1, y1),
{
    let a = abs_int(x1 - x0);
    let b = abs_int(y1 - y0);
    let sx = if x0 < x1 { 1int } else { -1int };
    let sy = if y0 < y1 { 1int } else { -1int };
    assert(bresenham_err(a, b, 0, 0) == a - b) by {
        reveal(bresenham_err);
        assert(a * (1 + 0int) - b * (1 + 0int) == a - b) by (nonlinear_arith);
    }
    lemma_walk_reaches_end(x0, y0, x1, y1, a, b, sx, sy, 0, 0, a - b, (a + b) as nat);
    assert(x0 + 0int == x0 && y0 + 0int == y0);
}
} // verus!
