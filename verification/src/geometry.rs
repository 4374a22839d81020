//! Integer geometry: ellipse membership tests for tank silhouettes, and the
//! overlap between a circle and an axis-aligned rectangle used for blast
//! damage.  All coordinates are milli-pixels; the circle-rectangle overlap
//! integrates clipped chord lengths over milli-pixel columns, with the chord
//! height taken from the integer square root.

use vstd::prelude::*;

use crate::num::isqrt;

verus! {

/// The floor of the square root of a non-negative integer.
pub open spec fn sqrt_floor(n: int) -> int {
    choose|k: int| 0 <= k && #[trigger] (k * k) <= n < (k + 1) * (k + 1)
}

proof fn lemma_sqrt_exists(n: int) -> (k: int)
    requires
        n >= 0,
    ensures
        0 <= k && k * k <= n < (k + 1) * (k + 1),
    decreases n,
{
    if n == 0 {
        0
    } else {
        let k0 = lemma_sqrt_exists(n - 1);
        if (k0 + 1) * (k0 + 1) <= n {
            assert((k0 + 2) * (k0 + 2) > n) by (nonlinear_arith)
                requires
                    (k0 + 1) * (k0 + 1) > n - 1,
                    (k0 + 1) * (k0 + 1) <= n,
                    k0 >= 0,
            ;
            k0 + 1
        } else {
            k0
        }
    }
}

proof fn lemma_sqrt_unique(n: int, k1: int, k2: int)
    by (nonlinear_arith)
    requires
        0 <= k1 && k1 * k1 <= n < (k1 + 1) * (k1 + 1),
        0 <= k2 && k2 * k2 <= n < (k2 + 1) * (k2 + 1),
    ensures
        k1 == k2,
{
}

/// The defining property of `sqrt_floor`, available for any `n >= 0`.
pub proof fn lemma_sqrt_floor(n: int)
    requires
        n >= 0,
    ensures
        0 <= sqrt_floor(n) && sqrt_floor(n) * sqrt_floor(n) <= n < (sqrt_floor(n) + 1) * (
        sqrt_floor(n) + 1),
{
    let k = lemma_sqrt_exists(n);
    assert(0 <= k && k * k <= n < (k + 1) * (k + 1));
}

/// The square root floor is monotone.
pub proof fn lemma_sqrt_floor_monotone(n1: int, n2: int)
    requires
        0 <= n1 <= n2,
    ensures
        sqrt_floor(n1) <= sqrt_floor(n2),
{
    lemma_sqrt_floor(n1);
    lemma_sqrt_floor(n2);
    let k1 = sqrt_floor(n1);
    let k2 = sqrt_floor(n2);
    assert(k1 <= k2) by (nonlinear_arith)
        requires
            0 <= k1 && k1 * k1 <= n1,
            0 <= k2 && n2 < (k2 + 1) * (k2 + 1),
            n1 <= n2,
    ;
}

/// An axis-aligned rectangle in milli-pixels: top-left corner plus size.
#[derive(Clone, Copy, Debug, PartialEq, Eq, Structural)]
pub struct Rect {
    pub x: i64,
    pub y: i64,
    pub w: i64,
    pub h: i64,
}

impl Rect {
    pub fn new(x: i64, y: i64, w: i64, h: i64) -> (r: Rect)
        ensures
            r == (Rect { x, y, w, h }),
    {
        Rect { x, y, w, h }
    }

    /// The y coordinate of the bottom edge.
    pub fn bottom(&self) -> (r: i64)
        requires
            -1_000_000_000_000 <= self.y + self.h <= 1_000_000_000_000,
        ensures
            r == self.y + self.h,
    {
        self.y + self.h
    }
}

/// An axis-aligned ellipse in milli-pixels: center and the two half-axis radii.
#[derive(Clone, Copy, Debug, PartialEq, Eq, Structural)]
pub struct Ellipse {
    pub cx: i64,
    pub cy: i64,
    pub rx: i64,
    pub ry: i64,
}

impl Ellipse {
    /// Whether a point lies inside or on the ellipse:
    /// `(px-cx)^2 * ry^2 + (py-cy)^2 * rx^2 <= rx^2 * ry^2`.
    pub open spec fn contains_spec(self, px: int, py: int) -> bool {
        (px - self.cx) * (px - self.cx) * (self.ry * self.ry) + (py - self.cy) * (py - self.cy) * (
        self.rx * self.rx) <= (self.rx * self.rx) * (self.ry * self.ry)
    }

    pub fn new(cx: i64, cy: i64, rx: i64, ry: i64) -> (r: Ellipse)
        ensures
            r == (Ellipse { cx, cy, rx, ry }),
    {
        Ellipse { cx, cy, rx, ry }
    }

    /// Bounds-checked exact membership test.
    pub fn contains(&self, px: i64, py: i64) -> (r: bool)
        requires
            -1_000_000_000_000_000 <= px <= 1_000_000_000_000_000,
            -1_000_000_000_000_000 <= py <= 1_000_000_000_000_000,
            -1_000_000_000 <= self.cx <= 1_000_000_000,
            -1_000_000_000 <= self.cy <= 1_000_000_000,
            1 <= self.rx <= 1_000_000,
            1 <= self.ry <= 1_000_000,
        ensures
            r == self.contains_spec(px as int, py as int),
    {
        let dx: i128 = (px as i128) - (self.cx as i128);
        let dy: i128 = (py as i128) - (self.cy as i128);
        let rx: i128 = self.rx as i128;
        let ry: i128 = self.ry as i128;
        if dx > rx || dx < -rx || dy > ry || dy < -ry {
            proof {
                assert(!self.contains_spec(px as int, py as int)) by (nonlinear_arith)
                    requires
                        dx == px - self.cx,
                        dy == py - self.cy,
                        1 <= self.rx,
                        1 <= self.ry,
                        dx > self.rx || dx < -self.rx || dy > self.ry || dy < -self.ry,
                ;
            }
            return false;
        }
        proof {
            assert(0 <= dx * dx <= 1_000_000_000_000 && 0 <= dy * dy <= 1_000_000_000_000 && 0
                <= rx * rx <= 1_000_000_000_000 && 0 <= ry * ry <= 1_000_000_000_000)
                by (nonlinear_arith)
                requires
                    -1_000_000 <= dx <= 1_000_000,
                    -1_000_000 <= dy <= 1_000_000,
                    0 <= rx <= 1_000_000,
                    0 <= ry <= 1_000_000,
            ;
            assert(0 <= (dx * dx) * (ry * ry) <= 1_000_000_000_000_000_000_000_000 && 0 <= (dy * dy)
                * (rx * rx) <= 1_000_000_000_000_000_000_000_000 && 0 <= (rx * rx) * (ry * ry)
                <= 1_000_000_000_000_000_000_000_000) by (nonlinear_arith)
                requires
                    0 <= dx * dx <= 1_000_000_000_000,
                    0 <= dy * dy <= 1_000_000_000_000,
                    0 <= rx * rx <= 1_000_000_000_000,
                    0 <= ry * ry <= 1_000_000_000_000,
            ;
        }
        (dx * dx) * (ry * ry) + (dy * dy) * (rx * rx) <= (rx * rx) * (ry * ry)
    }
}

/// The clipped chord length of the circle `(cx, cy, r)` over the single
/// milli-pixel column at `x`, intersected with the vertical span
/// `[y0, y1]`.
pub open spec fn col_overlap(cx: int, cy: int, r: int, x: int, y0: int, y1: int) -> int {
    let dx = x - cx;
    let q = r * r - dx * dx;
    if q < 0 {
        0
    } else {
        let hh = sqrt_floor(q);
        let lo = if y0 >= cy - hh {
            y0
        } else {
            cy - hh
        };
        let hi = if y1 <= cy + hh {
            y1
        } else {
            cy + hh
        };
        if hi >= lo {
            hi - lo
        } else {
            0
        }
    }
}

/// The overlap of the circle with the first `n` milli-pixel columns of the
/// rectangle: the sum of clipped chord lengths.
pub open spec fn overlap_cols(cx: int, cy: int, r: int, x0: int, y0: int, y1: int, n: nat) -> int
    decreases n,
{
    if n == 0 {
        0
    } else {
        overlap_cols(cx, cy, r, x0, y0, y1, (n - 1) as nat) + col_overlap(
            cx,
            cy,
            r,
            x0 + (n - 1),
            y0,
            y1,
        )
    }
}

/// The blast percentage: the circle-rectangle overlap as a share of the
/// rectangle's own area, rounded to whole percent and clamped to
/// `[0, 100]`; zero for an empty rectangle.
pub open spec fn intersection_percent_spec(cx: int, cy: int, r: int, rect: Rect) -> int {
    if rect.w <= 0 || rect.h <= 0 {
        0
    } else {
        let area = overlap_cols(cx, cy, r, rect.x as int, rect.y as int, rect.y + rect.h, rect.w as nat);
        if area <= 0 {
            0
        } else {
            let p = (100 * area + (rect.w * rect.h) / 2) / (rect.w * rect.h);
            if p >= 100 {
                100
            } else {
                p
            }
        }
    }
}

/// Exact computation of the clipped chord length over one column.
fn col_overlap_exec(cx: i64, cy: i64, r: i64, x: i64, y0: i64, y1: i64) -> (c: i64)
    requires
        -100_000_000_000_000 <= cx <= 100_000_000_000_000,
        -100_000_000_000_000 <= cy <= 100_000_000_000_000,
        0 <= r <= 1_000_000_000,
        -200_000_000_000_000 <= x <= 200_000_000_000_000,
        -2_000_000_000 <= y0 <= 2_000_000_000,
        -2_000_000_000 <= y1 <= 2_000_000_000,
    ensures
        c == col_overlap(cx as int, cy as int, r as int, x as int, y0 as int, y1 as int),
        c >= 0,
        y1 >= y0 ==> c <= y1 - y0,
        y1 < y0 ==> c == 0,
{
    let dx: i128 = (x as i128) - (cx as i128);
    proof {
        assert(r * r <= 1_000_000_000_000_000_000) by (nonlinear_arith)
            requires
                0 <= r <= 1_000_000_000,
        ;
        assert(dx * dx >= 0 && dx * dx <= 90_000_000_000_000_000_000_000_000_000)
            by (nonlinear_arith)
            requires
                -300_000_000_000_000 <= dx <= 300_000_000_000_000,
        ;
    }
    let rr: i128 = (r as i128) * (r as i128);
    let dd: i128 = dx * dx;
    if rr < dd {
        return 0;
    }
    let q: u64 = (rr - dd) as u64;
    let hh64 = isqrt(q);
    proof {
        lemma_sqrt_floor(q as int);
        lemma_sqrt_unique(q as int, hh64 as int, sqrt_floor(q as int));
        assert(hh64 * hh64 <= q) by (nonlinear_arith)
            requires
                hh64 * hh64 <= q,
        ;
        assert(hh64 <= 1_000_000_000) by (nonlinear_arith)
            requires
                hh64 * hh64 <= q,
                q <= 1_000_000_000_000_000_000,
                hh64 >= 0,
        ;
    }
    let hh: i64 = hh64 as i64;
    let lo: i64 = if y0 >= cy - hh {
        y0
    } else {
        cy - hh
    };
    let hi: i64 = if y1 <= cy + hh {
        y1
    } else {
        cy + hh
    };
    if hi >= lo {
        hi - lo
    } else {
        0
    }
}

/// The overlap of the circle with the whole rectangle, integrated over its
/// milli-pixel columns.
pub fn circle_rect_overlap(cx: i64, cy: i64, r: i64, rect: Rect) -> (area: i64)
    requires
        -100_000_000_000_000 <= cx <= 100_000_000_000_000,
        -100_000_000_000_000 <= cy <= 100_000_000_000_000,
        0 <= r <= 1_000_000_000,
        -1_000_000_000 <= rect.x <= 1_000_000_000,
        -1_000_000_000 <= rect.y <= 1_000_000_000,
        0 <= rect.w <= 1_000_000,
        0 <= rect.h <= 1_000_000,
    ensures
        area == overlap_cols(
            cx as int,
            cy as int,
            r as int,
            rect.x as int,
            rect.y as int,
            rect.y + rect.h,
            rect.w as nat,
        ),
        0 <= area <= rect.w * rect.h,
{
    let y1: i64 = rect.y + rect.h;
    let mut area: i64 = 0;
    let mut i: i64 = 0;
    proof {
        assert(rect.w * rect.h >= 0) by (nonlinear_arith)
            requires
                rect.w >= 0,
                rect.h >= 0,
        ;
    }
    while i < rect.w
        invariant
            0 <= i <= rect.w,
            -100_000_000_000_000 <= cx <= 100_000_000_000_000,
            -100_000_000_000_000 <= cy <= 100_000_000_000_000,
            0 <= r <= 1_000_000_000,
            -1_000_000_000 <= rect.x <= 1_000_000_000,
            -1_000_000_000 <= rect.y <= 1_000_000_000,
            0 <= rect.w <= 1_000_000,
            0 <= rect.h <= 1_000_000,
            y1 == rect.y + rect.h,
            area == overlap_cols(
                cx as int,
                cy as int,
                r as int,
                rect.x as int,
                rect.y as int,
                rect.y + rect.h,
                i as nat,
            ),
            0 <= area <= i * rect.h,
        decreases rect.w - i,
    {
        let c = col_overlap_exec(cx, cy, r, rect.x + i, rect.y, y1);
        proof {
            assert(c <= rect.h);
            assert((i + 1) * rect.h == i * rect.h + rect.h) by (nonlinear_arith);
            assert(i * rect.h <= 1_000_000_000_000) by (nonlinear_arith)
                requires
                    0 <= i <= 1_000_000,
                    0 <= rect.h <= 1_000_000,
            ;
        }
        area = area + c;
        i = i + 1;
    }
    proof {
        assert(area <= rect.w * rect.h);
    }
    area
}

proof fn lemma_col_overlap_nonneg(cx: int, cy: int, r: int, x: int, y0: int, y1: int)
    ensures
        col_overlap(cx, cy, r, x, y0, y1) >= 0,
{
}

proof fn lemma_overlap_cols_sum_const(
    cx: int,
    cy: int,
    r: int,
    x0: int,
    y0: int,
    y1: int,
    n: nat,
    v: int,
)
    requires
        forall|i: int| 0 <= i < n ==> #[trigger] col_overlap(cx, cy, r, x0 + i, y0, y1) == v,
    ensures
        overlap_cols(cx, cy, r, x0, y0, y1, n) == n * v,
    decreases n,
{
    if n == 0 {
        assert(0 * v == 0) by (nonlinear_arith);
    } else {
        lemma_overlap_cols_sum_const(cx, cy, r, x0, y0, y1, (n - 1) as nat, v);
        assert(col_overlap(cx, cy, r, x0 + (n - 1), y0, y1) == v);
        assert(n * v == (n - 1) * v + v) by (nonlinear_arith);
    }
}

/// The blast percentage is always a percentage: within zero and one
/// hundred.
pub proof fn lemma_percent_bounds(cx: int, cy: int, r: int, rect: Rect)
    ensures
        0 <= intersection_percent_spec(cx, cy, r, rect) <= 100,
{
    if rect.w <= 0 || rect.h <= 0 {
    } else {
        let area = overlap_cols(cx, cy, r, rect.x as int, rect.y as int, rect.y + rect.h, rect.w as nat);
        if area <= 0 {
        } else {
            let aa = rect.w * rect.h;
            assert(rect.w * rect.h >= 1) by (nonlinear_arith)
                requires
                    rect.w >= 1,
                    rect.h >= 1,
            ;
            assert(100 * area + aa / 2 >= 0);
            vstd::arithmetic::div_mod::lemma_div_pos_is_pos(100 * area + aa / 2, aa);
        }
    }
}

/// A rectangle that lies entirely inside the circle overlaps it by exactly
/// one hundred percent: when the farthest corner of the rectangle is within
/// the radius, every column's chord covers the rectangle's whole height.
pub proof fn lemma_overlap_full_inside(cx: int, cy: int, r: int, rect: Rect)
    requires
        1 <= rect.w,
        1 <= rect.h,
        0 <= r,
        ({
            let dxm = max2_int(abs_int(rect.x - cx), abs_int(rect.x + rect.w - 1 - cx));
            let dym = max2_int(abs_int(rect.y - cy), abs_int(rect.y + rect.h - cy));
            dxm * dxm + dym * dym <= r * r
        }),
    ensures
        intersection_percent_spec(cx, cy, r, rect) == 100,
{
    let x0 = rect.x as int;
    let y0 = rect.y as int;
    let y1 = rect.y + rect.h;
    let dxm = max2_int(abs_int(x0 - cx), abs_int(x0 + rect.w - 1 - cx));
    let dym = max2_int(abs_int(y0 - cy), abs_int(y1 - cy));
    assert forall|i: int| 0 <= i < rect.w implies #[trigger] col_overlap(cx, cy, r, x0 + i, y0, y1)
        == rect.h by {
        let dx = x0 + i - cx;
        assert(abs_int(dx) <= dxm);
        assert(dx * dx <= dxm * dxm) by (nonlinear_arith)
            requires
                abs_int(dx) <= dxm,
        ;
        let q = r * r - dx * dx;
        assert(q >= dym * dym);
        assert(dym * dym >= 0) by (nonlinear_arith);
        lemma_sqrt_floor(q);
        let hh = sqrt_floor(q);
        assert(hh >= dym) by (nonlinear_arith)
            requires
                (hh + 1) * (hh + 1) > q,
                q >= dym * dym,
                hh >= 0,
                dym >= 0,
        ;
        assert(cy - hh <= y0);
        assert(cy + hh >= y1);
    }
    lemma_overlap_cols_sum_const(cx, cy, r, x0, y0, y1, rect.w as nat, rect.h as int);
    let area = overlap_cols(cx, cy, r, x0, y0, y1, rect.w as nat);
    assert(area == rect.w * rect.h);
    assert(area >= 1) by (nonlinear_arith)
        requires
            area == rect.w * rect.h,
            rect.w >= 1,
            rect.h >= 1,
    ;
    let aa = rect.w * rect.h;
    assert(100 * aa == aa * 100) by (nonlinear_arith);
    vstd::arithmetic::div_mod::lemma_div_multiples_vanish_fancy(100, aa / 2, aa);
    assert((100 * aa + aa / 2) / aa == 100);
}

/// A rectangle wholly outside the circle overlaps it by zero percent: when
/// the nearest point of the rectangle is beyond the radius, every column's
/// chord misses the rectangle's vertical span.
pub proof fn lemma_overlap_disjoint(cx: int, cy: int, r: int, rect: Rect)
    requires
        1 <= rect.w,
        1 <= rect.h,
        0 <= r,
        ({
            let dxmin = dist_to_range(cx, rect.x as int, rect.x + rect.w - 1);
            let dymin = dist_to_range(cy, rect.y as int, rect.y + rect.h);
            dxmin * dxmin + dymin * dymin > r * r
        }),
    ensures
        intersection_percent_spec(cx, cy, r, rect) == 0,
{
    let x0 = rect.x as int;
    let y0 = rect.y as int;
    let y1 = rect.y + rect.h;
    let dxmin = dist_to_range(cx, x0, x0 + rect.w - 1);
    let dymin = dist_to_range(cy, y0, y1);
    assert forall|i: int| 0 <= i < rect.w implies #[trigger] col_overlap(cx, cy, r, x0 + i, y0, y1)
        == 0 by {
        let dx = x0 + i - cx;
        assert(abs_int(dx) >= dxmin);
        let q = r * r - dx * dx;
        if q >= 0 {
            assert(dx * dx >= dxmin * dxmin) by (nonlinear_arith)
                requires
                    abs_int(dx) >= dxmin,
                    dxmin >= 0,
            ;
            lemma_sqrt_floor(q);
            let hh = sqrt_floor(q);
            assert(hh * hh <= q);
            assert(hh < dymin) by (nonlinear_arith)
                requires
                    hh * hh <= q,
                    q <= r * r - dxmin * dxmin,
                    dxmin * dxmin + dymin * dymin > r * r,
                    hh >= 0,
                    dymin >= 0,
            ;
            if cy < y0 {
                assert(y0 - cy >= dymin);
                assert(cy + hh < y0);
            } else if cy > y1 {
                assert(cy - y1 >= dymin);
                assert(cy - hh > y1);
            } else {
                assert(dymin == 0);
                assert(false);
            }
        }
    }
    lemma_overlap_cols_sum_const(cx, cy, r, x0, y0, y1, rect.w as nat, 0);
    assert(overlap_cols(cx, cy, r, x0, y0, y1, rect.w as nat) == rect.w * 0);
    assert(rect.w * 0 == 0) by (nonlinear_arith);
}

proof fn lemma_overlap_cols_pointwise_le(
    cx: int,
    cy: int,
    r: int,
    xa: int,
    xb: int,
    y0: int,
    y1: int,
    n: nat,
)
    requires
        forall|i: int|
            0 <= i < n ==> #[trigger] col_overlap(cx, cy, r, xb + i, y0, y1) <= col_overlap(
                cx,
                cy,
                r,
                xa + i,
                y0,
                y1,
            ),
    ensures
        overlap_cols(cx, cy, r, xb, y0, y1, n) <= overlap_cols(cx, cy, r, xa, y0, y1, n),
    decreases n,
{
    if n > 0 {
        lemma_overlap_cols_pointwise_le(cx, cy, r, xa, xb, y0, y1, (n - 1) as nat);
    }
}

/// Moving a rectangle that already lies to the right of the circle's center
/// farther to the right never increases the overlap percentage.
pub proof fn lemma_overlap_translate_monotone(cx: int, cy: int, r: int, rect: Rect, d: int)
    requires
        1 <= rect.w,
        1 <= rect.h,
        0 <= r,
        rect.x >= cx,
        0 <= d,
        rect.x + d + rect.w <= i64::MAX,
    ensures
        intersection_percent_spec(
            cx,
            cy,
            r,
            Rect { x: (rect.x + d) as i64, y: rect.y, w: rect.w, h: rect.h },
        ) <= intersection_percent_spec(cx, cy, r, rect),
{
    let x0 = rect.x as int;
    let xb = x0 + d;
    let y0 = rect.y as int;
    let y1 = rect.y + rect.h;
    assert forall|i: int| 0 <= i < rect.w implies #[trigger] col_overlap(cx, cy, r, xb + i, y0, y1)
        <= col_overlap(cx, cy, r, x0 + i, y0, y1) by {
        let dx1 = x0 + i - cx;
        let dx2 = xb + i - cx;
        assert(0 <= dx1 <= dx2);
        assert(dx1 * dx1 <= dx2 * dx2) by (nonlinear_arith)
            requires
                0 <= dx1 <= dx2,
        ;
        let q1 = r * r - dx1 * dx1;
        let q2 = r * r - dx2 * dx2;
        if q2 >= 0 {
            lemma_sqrt_floor_monotone(q2, q1);
            lemma_sqrt_floor(q2);
            lemma_sqrt_floor(q1);
        } else {
            lemma_col_overlap_nonneg(cx, cy, r, x0 + i, y0, y1);
        }
    }
    lemma_overlap_cols_pointwise_le(cx, cy, r, x0, xb, y0, y1, rect.w as nat);
    let a1 = overlap_cols(cx, cy, r, x0, y0, y1, rect.w as nat);
    let a2 = overlap_cols(cx, cy, r, xb, y0, y1, rect.w as nat);
    let ww = rect.w as int;
    let hh = rect.h as int;
    assert(ww * hh >= 1) by (nonlinear_arith)
        requires
            ww >= 1,
            hh >= 1,
    ;
    if a2 > 0 {
        vstd::arithmetic::div_mod::lemma_div_is_ordered(
            100 * a2 + (ww * hh) / 2,
            100 * a1 + (ww * hh) / 2,
            ww * hh,
        );
        vstd::arithmetic::div_mod::lemma_div_pos_is_pos(100 * a1 + (ww * hh) / 2, ww * hh);
    }
}

/// The larger of two integers (spec helper shared by the overlap laws).
pub open spec fn max2_int(a: int, b: int) -> int {
    if a >= b {
        a
    } else {
        b
    }
}

/// Absolute value (spec helper shared by the overlap laws).
pub open spec fn abs_int(a: int) -> int {
    if a >= 0 {
        a
    } else {
        -a
    }
}

/// The distance from a point to a closed interval, zero inside it.
pub open spec fn dist_to_range(p: int, lo: int, hi: int) -> int {
    if p < lo {
        lo - p
    } else if p > hi {
        p - hi
    } else {
        0
    }
}

} // verus!