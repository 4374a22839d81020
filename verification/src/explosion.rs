//! A timed, growing and fading circular destructive event.  Once its growth
//! completes it carves the terrain exactly once, by pairing symmetric points
//! of the rasterized circle outline into horizontal spans; it reports its
//! fractional area overlap with rectangles for blast damage.

use vstd::prelude::*;

use crate::geometry::Rect;
use crate::geometry::circle_rect_overlap;
use crate::geometry::intersection_percent_spec;
use crate::landscape::Landscape;
use crate::landscape::cleared_row_span;
use crate::landscape::lemma_same_config_refl;
use crate::landscape::lemma_same_config_trans;
use crate::types::Point2;

verus! {

/// Growth speed of the blast radius, in milli-pixels per milli-second
/// (150 pixels per second).
pub const EXPLOSION_SPEED: i64 = 150;

/// The sequence of integer points that the midpoint rasterization of the
/// circle outline with the given center and radius produces, in emission
/// order (cycling through the four quadrants).
pub uninterp spec fn circle_outline(cx: int, cy: int, r: int) -> Seq<(int, int)>;

/// Relies on line_drawing::BresenhamCircle: the midpoint rasterization of a
/// circle outline, one point per quadrant in turn; the result depends only
/// on the center and radius.
#[verifier::external_body]
fn bresenham_circle_points(cx: i32, cy: i32, r: i32) -> (pts: Vec<(i32, i32)>)
    requires
        0 <= r <= 100_000,
        -10_000_000 <= cx <= 10_000_000,
        -10_000_000 <= cy <= 10_000_000,
    ensures
        pts@.len() == circle_outline(cx as int, cy as int, r as int).len(),
        forall|i: int|
            0 <= i < pts@.len() ==> ((#[trigger] pts@[i]).0 as int, pts@[i].1 as int)
                == circle_outline(cx as int, cy as int, r as int)[i],
        forall|i: int|
            0 <= i < pts@.len() ==> cx - r <= (#[trigger] pts@[i]).0 <= cx + r && cy - r
                <= pts@[i].1 <= cy + r,
{
    line_drawing::BresenhamCircle::new(cx, cy, r).collect()
}

/// The grid after consuming the first `n` groups of four outline points:
/// from each group the first and third point span a horizontal chord, and
/// the rows of both points are cleared over that chord (the clamped span
/// excludes the rightmost column, and a left edge below zero is clamped to
/// zero).
pub open spec fn carve_groups(g: Seq<u8>, w: int, h: int, pts: Seq<(int, int)>, n: nat) -> Seq<u8>
    decreases n,
{
    if n == 0 {
        g
    } else {
        let prev = carve_groups(g, w, h, pts, (n - 1) as nat);
        let i = (n - 1) * 4;
        let p1 = pts[i];
        let p2 = pts[i + 2];
        let xmin = if p1.0 <= p2.0 {
            p1.0
        } else {
            p2.0
        };
        let xraw = if xmin >= 0 {
            xmin
        } else {
            0
        };
        let xmax0 = if p1.0 >= p2.0 {
            p1.0
        } else {
            p2.0
        };
        let xmax = if xmax0 >= 0 {
            xmax0
        } else {
            0
        };
        let len = xmax - xraw;
        if len == 0 {
            prev
        } else {
            cleared_row_span(cleared_row_span(prev, w, h, xraw, p1.1, len), w, h, xraw, p2.1, len)
        }
    }
}

/// A circular explosion: it grows from its creation time at a fixed speed
/// up to its maximal radius, then fades out over an equally long phase;
/// while fading it carves the terrain, exactly once.
#[derive(Clone, Copy, Debug)]
pub struct Explosion {
    /// Blast center, milli-pixels.
    pub pos: Point2,
    /// Final blast radius, milli-pixels.
    pub max_radius: i64,
    /// Radius reached so far, milli-pixels.
    pub cur_radius: i64,
    /// Opacity for the renderer, scaled by 1000.
    pub cur_opacity: i64,
    /// Creation time, milli-seconds.
    pub created_ms: u64,
    /// Whether the terrain has already been carved.
    pub landscape_updated: bool,
}

impl Explosion {
    pub open spec fn wf(self) -> bool {
        &&& 1000 <= self.max_radius <= 10_000_000
        &&& -100_000_000_000_000 <= self.pos.x <= 100_000_000_000_000
        &&& -100_000_000_000_000 <= self.pos.y <= 100_000_000_000_000
        &&& 0 <= self.cur_opacity <= 1000
        &&& 0 <= self.cur_radius <= self.max_radius
    }

    /// A blast starting to grow at `now_ms`.
    pub fn new(pos: Point2, max_radius: i64, now_ms: u64) -> (r: Explosion)
        requires
            1000 <= max_radius <= 10_000_000,
            -100_000_000_000_000 <= pos.x <= 100_000_000_000_000,
            -100_000_000_000_000 <= pos.y <= 100_000_000_000_000,
        ensures
            r.wf(),
            r.pos == pos,
            r.max_radius == max_radius,
            r.cur_radius == 0,
            r.cur_opacity == 1000,
            r.created_ms == now_ms,
            !r.landscape_updated,
    {
        Explosion {
            pos,
            max_radius,
            cur_radius: 0,
            cur_opacity: 1000,
            created_ms: now_ms,
            landscape_updated: false,
        }
    }

    /// Whether the blast is still visible (its opacity has not reached
    /// zero).
    pub fn is_life(&self) -> (r: bool)
        ensures
            r == (self.cur_opacity > 0),
    {
        self.cur_opacity > 0
    }

    /// The radius the blast has grown to after `elapsed` milli-seconds,
    /// before clamping: `elapsed * speed`.
    pub open spec fn raw_radius_spec(elapsed: int) -> int {
        150 * elapsed
    }

    /// The blast clock saturates after a million seconds; the blast has
    /// grown and fully faded long before that.
    pub open spec fn clamp_blast_ms(elapsed: int) -> int {
        if elapsed <= 1_000_000_000 {
            elapsed
        } else {
            1_000_000_000
        }
    }

    /// The opacity after `elapsed` milli-seconds: full while growing, then
    /// fading linearly over a second phase as long as the growth phase.
    pub open spec fn opacity_spec(max_radius: int, elapsed: int) -> int {
        let radius = Self::raw_radius_spec(elapsed);
        if radius <= max_radius {
            1000
        } else if 2 * max_radius - radius <= 0 {
            0
        } else {
            (2 * max_radius - radius) * 1000 / max_radius
        }
    }

    /// The number of complete point groups that the carving consumes from an
    /// outline of `len` points: groups of four with at least three points
    /// present.
    pub open spec fn outline_groups(len: int) -> int {
        if len >= 3 {
            (len - 3) / 4 + 1
        } else {
            0
        }
    }

    /// Advances the blast to time `now_ms`: recomputes radius and opacity
    /// from the elapsed time, and on the first update at which the growth
    /// has completed carves the terrain along paired chords of the circle
    /// outline at one pixel under the final radius.  Returns `true` exactly
    /// when the blast is no longer visible afterwards.
    pub fn update(&mut self, landscape: &mut Landscape, now_ms: u64) -> (finished: bool)
        requires
            old(self).wf(),
            old(landscape).wf(),
            old(self).created_ms <= now_ms,
        ensures
            final(self).wf(),
            final(landscape).wf(),
            final(landscape).width_spec() == old(landscape).width_spec(),
            final(landscape).height_spec() == old(landscape).height_spec(),
            final(landscape).same_config(*old(landscape)),
            final(self).pos == old(self).pos,
            final(self).max_radius == old(self).max_radius,
            final(self).created_ms == old(self).created_ms,
            old(self).cur_opacity <= 0 ==> {
                &&& *final(self) == *old(self)
                &&& *final(landscape) == *old(landscape)
                &&& finished
            },
            old(self).cur_opacity > 0 ==> {
                let elapsed = Self::clamp_blast_ms(now_ms - old(self).created_ms);
                let radius = Self::raw_radius_spec(elapsed as int);
                &&& final(self).cur_opacity == Self::opacity_spec(
                    old(self).max_radius as int,
                    elapsed,
                )
                &&& final(self).cur_radius == (if radius <= old(self).max_radius {
                    radius
                } else {
                    old(self).max_radius as int
                })
                &&& finished == (final(self).cur_opacity <= 0)
                &&& (if !old(self).landscape_updated && radius >= old(self).max_radius {
                    final(self).landscape_updated && final(landscape).grid() == carved_grid(
                        old(landscape).grid(),
                        old(landscape).width_spec(),
                        old(landscape).height_spec(),
                        old(self).pos,
                        old(self).max_radius as int,
                    ) && final(landscape).changed_spec()
                } else {
                    &&& final(self).landscape_updated == old(self).landscape_updated
                    &&& final(landscape).grid() == old(landscape).grid()
                    &&& final(landscape).changed_spec() == old(landscape).changed_spec()
                })
            },
    {
        if self.cur_opacity <= 0 {
            proof {
                lemma_same_config_refl(*landscape);
            }
            return true;
        }
        let elapsed_raw: u64 = now_ms - self.created_ms;
        let elapsed: u64 = if elapsed_raw <= 1_000_000_000 {
            elapsed_raw
        } else {
            1_000_000_000
        };
        let radius: i64 = EXPLOSION_SPEED * (elapsed as i64);
        let m: i64 = self.max_radius;
        if radius <= m {
            self.cur_opacity = 1000;
            self.cur_radius = radius;
        } else {
            let t: i64 = 2 * m - radius;
            if t <= 0 {
                self.cur_opacity = 0;
            } else {
                self.cur_opacity = (((t as u64) * 1000) / (m as u64)) as i64;
                proof {
                    vstd::arithmetic::div_mod::lemma_div_pos_is_pos(t * 1000, m as int);
                    assert(t * 1000 <= 2 * m * 1000) by (nonlinear_arith)
                        requires
                            t <= 2 * m,
                            t >= 0,
                    ;
                    assert(t * 1000 / (m as int) <= 1000) by (nonlinear_arith)
                        requires
                            0 <= t < m,
                            m >= 1,
                    ;
                }
            }
            self.cur_radius = m;
        }
        if !self.landscape_updated && radius >= m {
            self.destroy_landscape(landscape);
            proof {
                crate::landscape::lemma_same_config_dims(*landscape, *old(landscape));
            }
        } else {
            proof {
                lemma_same_config_refl(*landscape);
            }
        }
        self.cur_opacity <= 0
    }

    /// Carves the terrain along the circle outline one pixel inside the
    /// final radius, pairing opposite outline points into horizontal spans.
    fn destroy_landscape(&mut self, landscape: &mut Landscape)
        requires
            old(self).wf(),
            old(landscape).wf(),
        ensures
            final(self).wf(),
            final(landscape).wf(),
            final(landscape).same_config(*old(landscape)),
            final(landscape).width_spec() == old(landscape).width_spec(),
            final(landscape).height_spec() == old(landscape).height_spec(),
            final(landscape).grid() == carved_grid(
                old(landscape).grid(),
                old(landscape).width_spec(),
                old(landscape).height_spec(),
                old(self).pos,
                old(self).max_radius as int,
            ),
            final(landscape).changed_spec(),
            final(self).landscape_updated,
            *final(self) == (Explosion { landscape_updated: true, ..*old(self) }),
    {
        let cx: i32 = clamp_px(self.pos.x);
        let cy: i32 = clamp_px(self.pos.y);
        let r: i32 = ((self.max_radius / 1000) - 1) as i32;
        let pts = bresenham_circle_points(cx, cy, r);
        let ghost outline = circle_outline(cx as int, cy as int, r as int);
        let ghost w = old(landscape).width_spec();
        let ghost h = old(landscape).height_spec();
        let ghost g0 = old(landscape).grid();
        proof {
            lemma_same_config_refl(*landscape);
            crate::landscape::lemma_wf_bounds(*landscape);
        }
        let n = pts.len();
        let num_groups: usize = if n >= 3 {
            (n - 3) / 4 + 1
        } else {
            0
        };
        assert(num_groups == Explosion::outline_groups(n as int));
        let mut g: usize = 0;
        while g < num_groups
            invariant
                landscape.wf(),
                landscape.same_config(*old(landscape)),
                landscape.width_spec() == w,
                landscape.height_spec() == h,
                1 <= w <= 0xffff,
                n == pts@.len(),
                n == outline.len(),
                num_groups == Explosion::outline_groups(n as int),
                n >= 3 ==> num_groups == (n - 3) / 4 + 1,
                n < 3 ==> num_groups == 0,
                forall|i: int|
                    0 <= i < n ==> ((#[trigger] pts@[i]).0 as int, pts@[i].1 as int) == outline[i],
                landscape.grid() == carve_groups(g0, w, h, outline, g as nat),
                landscape.changed_spec() == old(landscape).changed_spec(),
                g <= num_groups,
            decreases num_groups - g,
        {
            proof {
                assert(4 * ((n - 3) / 4) <= n - 3) by (nonlinear_arith)
                    requires
                        n >= 3,
                ;
                assert(4 * g + 2 < n);
            }
            let ghost lprev = *landscape;
            let p1 = pts[4 * g];
            let p2 = pts[4 * g + 2];
            let xmin: i32 = if p1.0 <= p2.0 {
                p1.0
            } else {
                p2.0
            };
            let xraw: i32 = if xmin >= 0 {
                xmin
            } else {
                0
            };
            let xmax0: i32 = if p1.0 >= p2.0 {
                p1.0
            } else {
                p2.0
            };
            let xmax: i32 = if xmax0 >= 0 {
                xmax0
            } else {
                0
            };
            let len_full: i32 = xmax - xraw;
            let len: u16 = if len_full > 65535 {
                65535
            } else {
                len_full as u16
            };
            proof {
                assert(crate::landscape::span_len_spec(w, h, xraw as int, p1.1 as int, len as int)
                    == crate::landscape::span_len_spec(
                    w,
                    h,
                    xraw as int,
                    p1.1 as int,
                    len_full as int,
                ));
                assert(crate::landscape::span_len_spec(w, h, xraw as int, p2.1 as int, len as int)
                    == crate::landscape::span_len_spec(
                    w,
                    h,
                    xraw as int,
                    p2.1 as int,
                    len_full as int,
                ));
            }
            if len != 0 {
                landscape.clear_span(xraw, p1.1, len);
                let ghost lmid = *landscape;
                landscape.clear_span(xraw, p2.1, len);
                proof {
                    lemma_same_config_trans(lprev, lmid, *landscape);
                    lemma_same_config_trans(*old(landscape), lprev, *landscape);
                    crate::landscape::lemma_same_config_dims(lmid, lprev);
                    crate::landscape::lemma_same_config_dims(*landscape, lmid);
                    assert(cleared_row_span(lprev.grid(), w, h, xraw as int, p1.1 as int, len as int)
                        =~= cleared_row_span(
                        lprev.grid(),
                        w,
                        h,
                        xraw as int,
                        p1.1 as int,
                        len_full as int,
                    ));
                    assert(cleared_row_span(lmid.grid(), w, h, xraw as int, p2.1 as int, len as int)
                        =~= cleared_row_span(
                        lmid.grid(),
                        w,
                        h,
                        xraw as int,
                        p2.1 as int,
                        len_full as int,
                    ));
                    assert(landscape.grid() == carve_groups(g0, w, h, outline, (g + 1) as nat));
                }
            } else {
                proof {
                    assert(landscape.grid() == carve_groups(g0, w, h, outline, (g + 1) as nat));
                }
            }
            g = g + 1;
        }
        let ghost lend = *landscape;
        landscape.set_changed();
        self.landscape_updated = true;
        proof {
            lemma_same_config_trans(*old(landscape), lend, *landscape);
            crate::landscape::lemma_same_config_dims(*landscape, *old(landscape));
        }
    }

    /// The blast's overlap with a rectangle, in whole percent of the
    /// rectangle's area (rounded), clamped to `[0, 100]`; zero for an
    /// empty rectangle.  The overlap uses the final radius, not the growth
    /// radius.
    pub fn get_intersection_percents(&self, bound: Rect) -> (r: u8)
        requires
            self.wf(),
            -1_000_000_000 <= bound.x <= 1_000_000_000,
            -1_000_000_000 <= bound.y <= 1_000_000_000,
            0 <= bound.w <= 1_000_000,
            0 <= bound.h <= 1_000_000,
        ensures
            r == intersection_percent_spec(
                self.pos.x as int,
                self.pos.y as int,
                self.max_radius as int,
                bound,
            ),
            0 <= r <= 100,
    {
        if bound.w <= 0 || bound.h <= 0 {
            return 0;
        }
        let area = circle_rect_overlap(self.pos.x, self.pos.y, self.max_radius, bound);
        if area <= 0 {
            return 0;
        }
        proof {
            assert(bound.w * bound.h <= 1_000_000_000_000 && bound.w * bound.h >= 1)
                by (nonlinear_arith)
                requires
                    1 <= bound.w <= 1_000_000,
                    1 <= bound.h <= 1_000_000,
            ;
            assert(area * 100 == 100 * area) by (nonlinear_arith);
        }
        let ba: u64 = (bound.w as u64) * (bound.h as u64);
        let p: u64 = ((area as u64) * 100 + ba / 2) / ba;
        if p >= 100 {
            100
        } else {
            proof {
                vstd::arithmetic::div_mod::lemma_div_pos_is_pos(100 * area, ba as int);
            }
            p as u8
        }
    }
}

/// A blast center coordinate converted from milli-pixels to whole pixels
/// (truncated towards zero) and clamped to the rasterizer's working range.
pub open spec fn clamp_px_spec(v: int) -> int {
    let px = if v >= 0 {
        v / 1000
    } else {
        -((-v) / 1000)
    };
    if px < -10_000_000 {
        -10_000_000
    } else if px > 10_000_000 {
        10_000_000
    } else {
        px
    }
}

fn clamp_px(v: i64) -> (r: i32)
    requires
        -100_000_000_000_000 <= v <= 100_000_000_000_000,
    ensures
        r == clamp_px_spec(v as int),
{
    let px: i64 = if v >= 0 {
        ((v as u64) / 1000) as i64
    } else {
        let n = (-v) as u64;
        -((n / 1000) as i64)
    };
    if px < -10_000_000 {
        -10_000_000
    } else if px > 10_000_000 {
        10_000_000
    } else {
        px as i32
    }
}

/// The grid after the full carve of a blast at `pos` with final radius
/// `max_radius` (milli-pixels): every complete group of the circle outline
/// at one pixel under the radius, with the center floored to whole pixels.
pub open spec fn carved_grid(g: Seq<u8>, w: int, h: int, pos: Point2, max_radius: int) -> Seq<u8> {
    let cx = clamp_px_spec(pos.x as int);
    let cy = clamp_px_spec(pos.y as int);
    let r = max_radius / 1000 - 1;
    let outline = circle_outline(cx, cy, r);
    carve_groups(g, w, h, outline, Explosion::outline_groups(outline.len() as int) as nat)
}

} // verus!
