//! The trajectory sampler shared by projectiles and falling tanks: an exact
//! fixed-point evaluation of `p(t) = p0 + (v0 + a*t) * t` together with a
//! gap-free walk over the integer grid cells crossed between two times.
//!
//! Internally one scaled time unit is a micro-second; positions are evaluated
//! in atto-pixels (10^-18 px) so that every sample is an exact integer, and a
//! cell is the floor of a sample in whole pixels.

use vstd::prelude::*;

use crate::num::cell_of_atto;
use crate::num::cell_of_atto_spec;
use crate::num::milli_of_atto;
use crate::num::milli_of_atto_spec;
use crate::num::abs_spec;
use crate::types::Point2;
use crate::types::Vector2;

verus! {

/// Exact position along one axis at scaled time `tau` (micro-seconds), in
/// atto-pixels: `p0 + (v0 + a*tau)*tau` with `p0` in milli-pixels, `v0` in
/// micro-pixels per second and `a` in micro-pixels per second squared.
pub open spec fn pos_atto(p0: int, v0: int, a: int, tau: int) -> int {
    p0 * 1_000_000_000_000_000 + v0 * tau * 1_000_000 + a * tau * tau
}

/// The sampler's own velocity along one axis at scaled time `tau`, in
/// pico-pixels per second: `v0 + a*tau`.
pub open spec fn vel_pico(v0: int, a: int, tau: int) -> int {
    v0 * 1_000_000 + a * tau
}

/// The trajectory sampler.  It owns a cursor (the last sampled scaled time)
/// and the cell it last reported, so that repeated walks compose without
/// re-visiting cells and without gaps.
#[derive(Clone, Copy, Debug)]
pub struct Ballistics {
    /// Start position, milli-pixels.
    pub pos0: Point2,
    /// Start velocity, micro-pixels per second.
    pub velocity0: Vector2,
    /// Constant acceleration, micro-pixels per second squared.
    pub acceleration: Vector2,
    /// Multiplier from caller time to internal (scaled) time.
    pub scale: u64,
    /// The sampler's cursor: the last sampled scaled time, micro-seconds.
    pub cursor: u64,
    pub last_cell_x: i64,
    pub last_cell_y: i64,
}

impl Ballistics {
    /// The cell (floor position in whole pixels) at scaled time `tau`.
    pub open spec fn cell_at(self, tau: int) -> (int, int) {
        (
            cell_of_atto_spec(
                pos_atto(
                    self.pos0.x as int,
                    self.velocity0.x as int,
                    self.acceleration.x as int,
                    tau,
                ),
            ),
            cell_of_atto_spec(
                pos_atto(
                    self.pos0.y as int,
                    self.velocity0.y as int,
                    self.acceleration.y as int,
                    tau,
                ),
            ),
        )
    }

    /// Magnitude bounds under which every evaluation is exact, plus the tie
    /// between the stored last cell and the cursor.
    pub open spec fn wf(self) -> bool {
        &&& -1_000_000_000 <= self.pos0.x <= 1_000_000_000
        &&& -1_000_000_000 <= self.pos0.y <= 1_000_000_000
        &&& -10_000_000_000 <= self.velocity0.x <= 10_000_000_000
        &&& -10_000_000_000 <= self.velocity0.y <= 10_000_000_000
        &&& -100_000_000 <= self.acceleration.x <= 100_000_000
        &&& -100_000_000 <= self.acceleration.y <= 100_000_000
        &&& 1 <= self.scale <= 10
        &&& self.cursor <= 10_000_000_000
        &&& (self.last_cell_x as int, self.last_cell_y as int) == self.cell_at(self.cursor as int)
    }

    /// A fresh sampler with its cursor at time zero.
    pub fn new(pos: Point2, velocity: Vector2, acceleration: Vector2) -> (r: Ballistics)
        requires
            -1_000_000_000 <= pos.x <= 1_000_000_000,
            -1_000_000_000 <= pos.y <= 1_000_000_000,
            -10_000_000_000 <= velocity.x <= 10_000_000_000,
            -10_000_000_000 <= velocity.y <= 10_000_000_000,
            -100_000_000 <= acceleration.x <= 100_000_000,
            -100_000_000 <= acceleration.y <= 100_000_000,
        ensures
            r.wf(),
            r.pos0 == pos,
            r.velocity0 == velocity,
            r.acceleration == acceleration,
            r.scale == 1,
            r.cursor == 0,
    {
        let cx = axis_cell(pos.x, velocity.x, acceleration.x, 0);
        let cy = axis_cell(pos.y, velocity.y, acceleration.y, 0);
        Ballistics {
            pos0: pos,
            velocity0: velocity,
            acceleration,
            scale: 1,
            cursor: 0,
            last_cell_x: cx,
            last_cell_y: cy,
        }
    }

    /// Sets the multiplier from caller time to the sampler's internal time.
    pub fn time_scale(self, scale: u64) -> (r: Ballistics)
        requires
            1 <= scale <= 10,
        ensures
            r == (Ballistics { scale, ..self }),
    {
        let b = Ballistics { scale, ..self };
        b
    }

    /// The exact position at caller time `now_us` micro-seconds, floored to
    /// milli-pixels.
    pub fn position_at(&self, now_us: u64) -> (r: Point2)
        requires
            self.wf(),
            self.scale * now_us <= 10_000_000_000,
        ensures
            r.x == milli_of_atto_spec(
                pos_atto(
                    self.pos0.x as int,
                    self.velocity0.x as int,
                    self.acceleration.x as int,
                    self.scale * now_us,
                ),
            ),
            r.y == milli_of_atto_spec(
                pos_atto(
                    self.pos0.y as int,
                    self.velocity0.y as int,
                    self.acceleration.y as int,
                    self.scale * now_us,
                ),
            ),
            -1_000_000_000_000_000 <= r.x <= 1_000_000_000_000_000,
            -1_000_000_000_000_000 <= r.y <= 1_000_000_000_000_000,
    {
        let tau: u64 = self.scale * now_us;
        let x = axis_milli(self.pos0.x, self.velocity0.x, self.acceleration.x, tau);
        let y = axis_milli(self.pos0.y, self.velocity0.y, self.acceleration.y, tau);
        Point2 { x, y }
    }

    /// The position at the sampler's own cursor, floored to milli-pixels.
    pub fn cur_pos(&self) -> (r: Point2)
        requires
            self.wf(),
        ensures
            r.x == milli_of_atto_spec(
                pos_atto(
                    self.pos0.x as int,
                    self.velocity0.x as int,
                    self.acceleration.x as int,
                    self.cursor as int,
                ),
            ),
            r.y == milli_of_atto_spec(
                pos_atto(
                    self.pos0.y as int,
                    self.velocity0.y as int,
                    self.acceleration.y as int,
                    self.cursor as int,
                ),
            ),
    {
        let x = axis_milli(self.pos0.x, self.velocity0.x, self.acceleration.x, self.cursor);
        let y = axis_milli(self.pos0.y, self.velocity0.y, self.acceleration.y, self.cursor);
        Point2 { x, y }
    }
}

/// The sampler time (micro-seconds of caller time) elapsed between a
/// component's creation and `now_ms`, capped so that every scaled
/// evaluation stays within the exact range.
pub open spec fn clamped_elapsed_us(created_ms: int, now_ms: int) -> int {
    if (now_ms - created_ms) * 1000 <= 3_000_000_000 {
        (now_ms - created_ms) * 1000
    } else {
        3_000_000_000
    }
}

/// Whether a start velocity component and its acceleration component do not
/// oppose each other in sign.
pub open spec fn sign_aligned(v0: int, a: int) -> bool {
    (v0 >= 0 && a >= 0) || (v0 <= 0 && a <= 0)
}

/// The larger of two integers.
pub open spec fn max2(a: int, b: int) -> int {
    if a >= b {
        a
    } else {
        b
    }
}

/// The largest absolute velocity component (pico-pixels per second) at the
/// sampler's cursor and at the end time.
pub open spec fn max_vel_pico(b: Ballistics, taue: int) -> int {
    max2(
        max2(
            abs_spec(vel_pico(b.velocity0.x as int, b.acceleration.x as int, b.cursor as int)),
            abs_spec(vel_pico(b.velocity0.y as int, b.acceleration.y as int, b.cursor as int)),
        ),
        max2(
            abs_spec(vel_pico(b.velocity0.x as int, b.acceleration.x as int, taue)),
            abs_spec(vel_pico(b.velocity0.y as int, b.acceleration.y as int, taue)),
        ),
    )
}

/// The derived sampling step, in scaled micro-seconds: `1 / (2 * max)`
/// seconds for a maximal velocity component of `max` pixels per second, or
/// the whole remaining span when the velocity is zero at both ends; never
/// less than one micro-second.
pub open spec fn dtau_spec(b: Ballistics, taue: int) -> int {
    let m = max_vel_pico(b, taue);
    if m == 0 {
        if taue - b.cursor >= 1 {
            taue - b.cursor
        } else {
            1
        }
    } else {
        let q: int = 1_000_000_000_000_000_000int / (2 * m);
        if q >= 1 {
            q
        } else {
            1
        }
    }
}

/// The `k`-th sample time: `cursor + k * step`, clamped so the walk never
/// oversteps the end time.
pub open spec fn step_time(tau0: int, dtau: int, taue: int, k: int) -> int {
    if tau0 + k * dtau >= taue {
        taue
    } else {
        tau0 + k * dtau
    }
}

/// The caller-supplied bounds as mathematical integers.
pub open spec fn bounds_view(b: Option<(i64, i64)>) -> Option<(int, int)> {
    match b {
        Option::None => Option::None,
        Option::Some((bx, by)) => Option::Some((bx as int, by as int)),
    }
}

/// Whether a cell lies outside `[0, bounds.0) x [0, bounds.1)`.
pub open spec fn oob_cell(c: (int, int), bounds: Option<(int, int)>) -> bool {
    match bounds {
        Option::None => false,
        Option::Some(b) => !(0 <= c.0 < b.0 && 0 <= c.1 < b.1),
    }
}

/// The walk over the first `k` samples: the cells emitted so far, the cell
/// last reported, and the sample time at which the walk stopped on a cell
/// outside the bounds, if it did.  A cell is emitted exactly when it differs
/// from the last reported one; the first out-of-bounds cell is emitted and
/// ends the walk.
pub open spec fn walk(
    b: Ballistics,
    taue: int,
    dtau: int,
    bounds: Option<(int, int)>,
    k: nat,
) -> (Seq<(int, int)>, (int, int), Option<int>)
    decreases k,
{
    if k == 0 {
        (Seq::<(int, int)>::empty(), (b.last_cell_x as int, b.last_cell_y as int), Option::None)
    } else {
        let prev = walk(b, taue, dtau, bounds, (k - 1) as nat);
        if prev.2 is Some {
            prev
        } else {
            let tau = step_time(b.cursor as int, dtau, taue, k as int);
            let c = b.cell_at(tau);
            if c == prev.1 {
                prev
            } else {
                let cells2 = prev.0.push(c);
                if oob_cell(c, bounds) {
                    (cells2, c, Option::Some(tau))
                } else {
                    (cells2, c, Option::None)
                }
            }
        }
    }
}

/// Once the walk has stopped, or has reached the end time with its last
/// reported cell equal to the cell there, further samples change nothing.
proof fn lemma_walk_absorb(
    b: Ballistics,
    taue: int,
    dtau: int,
    bounds: Option<(int, int)>,
    k1: nat,
    k2: nat,
)
    requires
        k1 <= k2,
        dtau >= 1,
        walk(b, taue, dtau, bounds, k1).2 is Some || (walk(b, taue, dtau, bounds, k1).1
            == b.cell_at(taue) && step_time(b.cursor as int, dtau, taue, k1 as int) == taue),
    ensures
        walk(b, taue, dtau, bounds, k2) == walk(b, taue, dtau, bounds, k1),
    decreases k2,
{
    if k2 > k1 {
        lemma_walk_absorb(b, taue, dtau, bounds, k1, (k2 - 1) as nat);
        let prev = walk(b, taue, dtau, bounds, (k2 - 1) as nat);
        if prev.2 is None {
            assert(b.cursor + k1 * dtau >= taue);
            vstd::arithmetic::mul::lemma_mul_inequality(k1 as int, k2 as int, dtau);
            assert(b.cursor + k2 * dtau >= taue);
            assert(step_time(b.cursor as int, dtau, taue, k2 as int) == taue);
        }
    }
}

/// A walk without bounds never stops early: every sample is in bounds.
pub proof fn lemma_walk_unbounded_runs_out(b: Ballistics, taue: int, dtau: int, k: nat)
    ensures
        walk(b, taue, dtau, Option::None, k).2 is None,
    decreases k,
{
    if k > 0 {
        lemma_walk_unbounded_runs_out(b, taue, dtau, (k - 1) as nat);
    }
}

/// Between two sample times at most one step apart, a trajectory whose
/// velocity and acceleration do not oppose moves by at most one pixel along
/// the axis: the displacement is `(tau2 - tau1) * (v0 + a * (tau1 + tau2))`
/// (scaled), whose magnitude the derived step keeps under one pixel.
proof fn lemma_axis_displacement(
    p0: int,
    v0: int,
    a: int,
    taus: int,
    taue: int,
    tau1: int,
    tau2: int,
    m: int,
    dtau: int,
)
    by (nonlinear_arith)
    requires
        sign_aligned(v0, a),
        0 <= taus <= tau1 <= tau2 <= taue,
        abs_spec(vel_pico(v0, a, taus)) <= m,
        abs_spec(vel_pico(v0, a, taue)) <= m,
        tau2 - tau1 <= dtau,
        dtau * (2 * m) <= 1_000_000_000_000_000_000,
        dtau >= 0,
    ensures
        abs_spec(pos_atto(p0, v0, a, tau2) - pos_atto(p0, v0, a, tau1))
            <= 1_000_000_000_000_000_000,
{
    let dd = tau2 - tau1;
    assert(pos_atto(p0, v0, a, tau2) - pos_atto(p0, v0, a, tau1) == dd * (v0 * 1_000_000 + a * (
    tau1 + tau2)));
    if v0 >= 0 && a >= 0 {
        assert(v0 * 1_000_000 + a * (tau1 + tau2) <= 2 * m);
        assert(dd * (v0 * 1_000_000 + a * (tau1 + tau2)) <= dd * (2 * m));
        assert(dd * (2 * m) <= dtau * (2 * m));
    } else {
        assert(v0 * 1_000_000 + a * (tau1 + tau2) >= -(2 * m));
    }
}

/// Positions at most one pixel apart fall in the same or in adjacent cells.
proof fn lemma_cell_adjacent(p1: int, p2: int)
    requires
        abs_spec(p2 - p1) <= 1_000_000_000_000_000_000,
    ensures
        abs_spec(cell_of_atto_spec(p2) - cell_of_atto_spec(p1)) <= 1,
{
    let e = 1_000_000_000_000_000_000int;
    if p1 <= p2 {
        vstd::arithmetic::div_mod::lemma_div_is_ordered(p1, p2, e);
        vstd::arithmetic::div_mod::lemma_div_is_ordered(p2, p1 + e, e);
        vstd::arithmetic::div_mod::lemma_div_plus_one(p1, e);
    } else {
        vstd::arithmetic::div_mod::lemma_div_is_ordered(p2, p1, e);
        vstd::arithmetic::div_mod::lemma_div_is_ordered(p1, p2 + e, e);
        vstd::arithmetic::div_mod::lemma_div_plus_one(p2, e);
    }
}

/// The derived step times half the doubled maximal velocity stays within
/// one pixel.
proof fn lemma_dtau_bound(b: Ballistics, taue: int)
    requires
        b.wf(),
        b.cursor <= taue,
        max_vel_pico(b, taue) >= 1,
        max_vel_pico(b, taue) <= 500_000_000_000_000_000,
    ensures
        dtau_spec(b, taue) >= 1,
        dtau_spec(b, taue) * (2 * max_vel_pico(b, taue)) <= 1_000_000_000_000_000_000,
{
    let m = max_vel_pico(b, taue);
    let e = 1_000_000_000_000_000_000int;
    let q = e / (2 * m);
    vstd::arithmetic::div_mod::lemma_fundamental_div_mod(e, 2 * m);
    vstd::arithmetic::div_mod::lemma_remainder_lower(e, 2 * m);
    assert(q * (2 * m) <= e) by (nonlinear_arith)
        requires
            e == (2 * m) * q + e % (2 * m),
            e % (2 * m) >= 0,
    ;
    assert(q >= 1) by (nonlinear_arith)
        requires
            q == e / (2 * m),
            1 <= m <= 500_000_000_000_000_000,
            e == 1_000_000_000_000_000_000,
    ;
}

impl Ballistics {
    /// The gap-free sequence of grid cells crossed strictly between the
    /// sampler's cursor and caller time `now_us`, each cell reported once.
    /// The walk samples every derived time step; a sampled cell is emitted
    /// when it differs from the cell last reported.  With bounds supplied,
    /// the first cell outside `[0, bounds.0) x [0, bounds.1)` is emitted and
    /// ends the walk early, leaving the cursor at that sample; otherwise the
    /// cursor advances exactly to `now_us` (scaled), so that repeated calls
    /// compose without re-visiting cells and without gaps.
    ///
    /// Two consecutive reported cells always differ; and when neither axis's
    /// start velocity opposes its acceleration and the largest velocity
    /// component stays under 500000 px/s, consecutive reported cells differ
    /// by at most one in each axis.
    pub fn visited_cells(&mut self, now_us: u64, bounds: Option<(i64, i64)>) -> (cells: Vec<
        (i64, i64),
    >)
        requires
            old(self).wf(),
            old(self).scale * now_us <= 10_000_000_000,
            old(self).scale * now_us >= old(self).cursor,
        ensures
            final(self).wf(),
            final(self).pos0 == old(self).pos0,
            final(self).velocity0 == old(self).velocity0,
            final(self).acceleration == old(self).acceleration,
            final(self).scale == old(self).scale,
            old(self).cursor <= final(self).cursor <= old(self).scale * now_us,
            ({
                let taue = old(self).scale * now_us;
                let dtau = dtau_spec(*old(self), taue as int);
                let kk = (taue - old(self).cursor + 1) as nat;
                let res = walk(*old(self), taue as int, dtau, bounds_view(bounds), kk);
                &&& cells@.len() == res.0.len()
                &&& (forall|i: int|
                    #![trigger cells@[i]]
                    0 <= i < cells@.len() ==> (cells@[i].0 as int, cells@[i].1 as int)
                        == res.0[i])
                &&& (final(self).last_cell_x as int, final(self).last_cell_y as int) == res.1
                &&& final(self).cursor as int == (match res.2 {
                    Option::Some(t) => t,
                    Option::None => taue as int,
                })
            }),
            forall|i: int|
                #![trigger cells@[i]]
                0 <= i < cells@.len() - 1 ==> cells@[i] != cells@[i + 1],
            forall|i: int|
                #![trigger cells@[i]]
                0 <= i < cells@.len() ==> -20_000_000_000 <= cells@[i].0 <= 20_000_000_000
                    && -20_000_000_000 <= cells@[i].1 <= 20_000_000_000,
            cells@.len() > 0 ==> !(cells@[0].0 == old(self).last_cell_x && cells@[0].1 == old(
                self,
            ).last_cell_y),
            (sign_aligned(old(self).velocity0.x as int, old(self).acceleration.x as int)
                && sign_aligned(old(self).velocity0.y as int, old(self).acceleration.y as int)
                && max_vel_pico(*old(self), (old(self).scale * now_us) as int)
                <= 500_000_000_000_000_000) ==> {
                &&& forall|i: int|
                    #![trigger cells@[i]]
                    0 <= i < cells@.len() - 1 ==> abs_spec(cells@[i + 1].0 - cells@[i].0) <= 1
                        && abs_spec(cells@[i + 1].1 - cells@[i].1) <= 1
                &&& cells@.len() > 0 ==> abs_spec(cells@[0].0 - old(self).last_cell_x) <= 1
                    && abs_spec(cells@[0].1 - old(self).last_cell_y) <= 1
            },
    {
        let ghost b0 = *self;
        let taue: u64 = self.scale * now_us;
        proof {
            assert forall|aa: i128, tt: i128|
                -100_000_000 <= aa <= 100_000_000 && 0 <= tt <= 10_000_000_000 implies -1_000_000_000_000_000_000 <= #[trigger] (aa * tt) <= 1_000_000_000_000_000_000 by {
                assert(-1_000_000_000_000_000_000 <= aa * tt <= 1_000_000_000_000_000_000)
                    by (nonlinear_arith)
                    requires
                        -100_000_000 <= aa <= 100_000_000,
                        0 <= tt <= 10_000_000_000,
                ;
            }
        }
        let vxc: i128 = (self.velocity0.x as i128) * 1_000_000 + (self.acceleration.x as i128) * (
        self.cursor as i128);
        let vyc: i128 = (self.velocity0.y as i128) * 1_000_000 + (self.acceleration.y as i128) * (
        self.cursor as i128);
        let vxe: i128 = (self.velocity0.x as i128) * 1_000_000 + (self.acceleration.x as i128) * (
        taue as i128);
        let vye: i128 = (self.velocity0.y as i128) * 1_000_000 + (self.acceleration.y as i128) * (
        taue as i128);
        let axc: i128 = if vxc < 0 {
            -vxc
        } else {
            vxc
        };
        let ayc: i128 = if vyc < 0 {
            -vyc
        } else {
            vyc
        };
        let axe: i128 = if vxe < 0 {
            -vxe
        } else {
            vxe
        };
        let aye: i128 = if vye < 0 {
            -vye
        } else {
            vye
        };
        let m1: i128 = if axc >= ayc {
            axc
        } else {
            ayc
        };
        let m2: i128 = if axe >= aye {
            axe
        } else {
            aye
        };
        let m: i128 = if m1 >= m2 {
            m1
        } else {
            m2
        };
        assert(m == max_vel_pico(b0, taue as int));
        let dtau64: u64 = if m == 0 {
            if taue - self.cursor >= 1 {
                taue - self.cursor
            } else {
                1
            }
        } else {
            let q: u64 = (1_000_000_000_000_000_000u128 / ((2 * m) as u128)) as u64;
            if q >= 1 {
                q
            } else {
                1
            }
        };
        let ghost dtau = dtau_spec(b0, taue as int);
        assert(dtau64 == dtau);
        let ghost bv = bounds_view(bounds);
        let ghost aligned = sign_aligned(b0.velocity0.x as int, b0.acceleration.x as int)
            && sign_aligned(b0.velocity0.y as int, b0.acceleration.y as int) && max_vel_pico(
            b0,
            taue as int,
        ) <= 500_000_000_000_000_000;

        let mut cells: Vec<(i64, i64)> = Vec::new();
        let mut lastx: i64 = self.last_cell_x;
        let mut lasty: i64 = self.last_cell_y;
        let mut tau: u64 = self.cursor;
        let mut stopped = false;
        let ghost mut k: int = 0;

        while tau < taue && !stopped
            invariant
                b0.wf(),
                *self == b0,
                taue == b0.scale * now_us,
                taue <= 10_000_000_000,
                b0.cursor <= taue,
                dtau == dtau_spec(b0, taue as int),
                dtau64 == dtau,
                1 <= dtau64,
                bv == bounds_view(bounds),
                aligned == (sign_aligned(b0.velocity0.x as int, b0.acceleration.x as int)
                    && sign_aligned(b0.velocity0.y as int, b0.acceleration.y as int)
                    && max_vel_pico(b0, taue as int) <= 500_000_000_000_000_000),
                0 <= k,
                k <= tau - b0.cursor,
                b0.cursor <= tau <= taue,
                !stopped ==> tau == step_time(b0.cursor as int, dtau, taue as int, k),
                (lastx as int, lasty as int) == b0.cell_at(tau as int),
                ({
                    let res = walk(b0, taue as int, dtau, bv, k as nat);
                    &&& cells@.len() == res.0.len()
                    &&& (forall|i: int|
                        #![trigger cells@[i]]
                        0 <= i < cells@.len() ==> (cells@[i].0 as int, cells@[i].1 as int)
                            == res.0[i])
                    &&& (lastx as int, lasty as int) == res.1
                    &&& (if stopped {
                        res.2 == Option::Some(tau as int)
                    } else {
                        res.2 is None
                    })
                }),
                forall|i: int|
                    #![trigger cells@[i]]
                    0 <= i < cells@.len() - 1 ==> cells@[i] != cells@[i + 1],
                cells@.len() > 0 ==> !(cells@[0].0 == b0.last_cell_x && cells@[0].1
                    == b0.last_cell_y),
                cells@.len() == 0 ==> lastx == b0.last_cell_x && lasty == b0.last_cell_y,
                forall|i: int|
                    #![trigger cells@[i]]
                    0 <= i < cells@.len() ==> -20_000_000_000 <= cells@[i].0 <= 20_000_000_000
                        && -20_000_000_000 <= cells@[i].1 <= 20_000_000_000,
                cells@.len() > 0 ==> cells@[cells@.len() - 1].0 == lastx && cells@[cells@.len()
                    - 1].1 == lasty,
                aligned ==> {
                    &&& forall|i: int|
                        #![trigger cells@[i]]
                        0 <= i < cells@.len() - 1 ==> abs_spec(cells@[i + 1].0 - cells@[i].0) <= 1
                            && abs_spec(cells@[i + 1].1 - cells@[i].1) <= 1
                    &&& cells@.len() > 0 ==> abs_spec(cells@[0].0 - b0.last_cell_x) <= 1
                        && abs_spec(cells@[0].1 - b0.last_cell_y) <= 1
                },
            decreases taue - tau + (if stopped {
                0int
            } else {
                1int
            }),
        {
            let tau_next: u64 = if taue - tau > dtau64 {
                tau + dtau64
            } else {
                taue
            };
            proof {
                assert((k + 1) * dtau == k * dtau + dtau) by (nonlinear_arith);
                assert(tau_next == step_time(b0.cursor as int, dtau, taue as int, k + 1));
            }
            let cx = axis_cell(self.pos0.x, self.velocity0.x, self.acceleration.x, tau_next);
            let cy = axis_cell(self.pos0.y, self.velocity0.y, self.acceleration.y, tau_next);
            proof {
                if aligned {
                    let m0 = max_vel_pico(b0, taue as int);
                    if m0 >= 1 {
                        lemma_dtau_bound(b0, taue as int);
                    }
                    lemma_axis_displacement(
                        b0.pos0.x as int,
                        b0.velocity0.x as int,
                        b0.acceleration.x as int,
                        b0.cursor as int,
                        taue as int,
                        tau as int,
                        tau_next as int,
                        m0,
                        dtau,
                    );
                    lemma_axis_displacement(
                        b0.pos0.y as int,
                        b0.velocity0.y as int,
                        b0.acceleration.y as int,
                        b0.cursor as int,
                        taue as int,
                        tau as int,
                        tau_next as int,
                        m0,
                        dtau,
                    );
                    lemma_cell_adjacent(
                        pos_atto(
                            b0.pos0.x as int,
                            b0.velocity0.x as int,
                            b0.acceleration.x as int,
                            tau as int,
                        ),
                        pos_atto(
                            b0.pos0.x as int,
                            b0.velocity0.x as int,
                            b0.acceleration.x as int,
                            tau_next as int,
                        ),
                    );
                    lemma_cell_adjacent(
                        pos_atto(
                            b0.pos0.y as int,
                            b0.velocity0.y as int,
                            b0.acceleration.y as int,
                            tau as int,
                        ),
                        pos_atto(
                            b0.pos0.y as int,
                            b0.velocity0.y as int,
                            b0.acceleration.y as int,
                            tau_next as int,
                        ),
                    );
                }
            }
            if cx != lastx || cy != lasty {
                let is_oob: bool = match bounds {
                    Option::Some((bx, by)) => !(0 <= cx && cx < bx && 0 <= cy && cy < by),
                    Option::None => false,
                };
                cells.push((cx, cy));
                lastx = cx;
                lasty = cy;
                if is_oob {
                    stopped = true;
                }
            }
            tau = tau_next;
            proof {
                k = k + 1;
            }
        }
        proof {
            let kk = (taue - b0.cursor + 1) as nat;
            if stopped {
                lemma_walk_absorb(b0, taue as int, dtau, bv, k as nat, kk);
            } else {
                assert(tau == taue);
                lemma_walk_absorb(b0, taue as int, dtau, bv, k as nat, kk);
            }
        }
        self.cursor = tau;
        self.last_cell_x = lastx;
        self.last_cell_y = lasty;
        cells
    }
}

/// Exact evaluation of one axis at scaled time `tau`, in atto-pixels.
fn axis_atto(p0: i64, v0: i64, a: i64, tau: u64) -> (p: i128)
    requires
        -1_000_000_000 <= p0 <= 1_000_000_000,
        -10_000_000_000 <= v0 <= 10_000_000_000,
        -100_000_000 <= a <= 100_000_000,
        tau <= 10_000_000_000,
    ensures
        p == pos_atto(p0 as int, v0 as int, a as int, tau as int),
        -11_000_000_000_000_000_000_000_000_000 <= p <= 11_000_000_000_000_000_000_000_000_000,
{
    let t: i128 = tau as i128;
    proof {
        assert((v0 as i128) * t <= 100_000_000_000_000_000_000 && (v0 as i128) * t
            >= -100_000_000_000_000_000_000) by (nonlinear_arith)
            requires
                -10_000_000_000 <= v0 <= 10_000_000_000,
                0 <= t <= 10_000_000_000,
        ;
        assert((a as i128) * t <= 1_000_000_000_000_000_000 && (a as i128) * t
            >= -1_000_000_000_000_000_000) by (nonlinear_arith)
            requires
                -100_000_000 <= a <= 100_000_000,
                0 <= t <= 10_000_000_000,
        ;
        assert(((a as i128) * t) * t <= 10_000_000_000_000_000_000_000_000_000 && ((a as i128) * t)
            * t >= -10_000_000_000_000_000_000_000_000_000) by (nonlinear_arith)
            requires
                -1_000_000_000_000_000_000 <= (a as i128) * t <= 1_000_000_000_000_000_000,
                0 <= t <= 10_000_000_000,
        ;
    }
    let p: i128 = (p0 as i128) * 1_000_000_000_000_000 + ((v0 as i128) * t) * 1_000_000 + ((
    a as i128) * t) * t;
    p
}

/// The cell (floor in whole pixels) of one axis at scaled time `tau`.
fn axis_cell(p0: i64, v0: i64, a: i64, tau: u64) -> (c: i64)
    requires
        -1_000_000_000 <= p0 <= 1_000_000_000,
        -10_000_000_000 <= v0 <= 10_000_000_000,
        -100_000_000 <= a <= 100_000_000,
        tau <= 10_000_000_000,
    ensures
        c == cell_of_atto_spec(pos_atto(p0 as int, v0 as int, a as int, tau as int)),
        -20_000_000_000 <= c <= 20_000_000_000,
{
    let p = axis_atto(p0, v0, a, tau);
    let c = cell_of_atto(p);
    proof {
        vstd::arithmetic::div_mod::lemma_div_is_ordered(
            -11_000_000_000_000_000_000_000_000_000,
            p as int,
            1_000_000_000_000_000_000,
        );
        vstd::arithmetic::div_mod::lemma_div_is_ordered(
            p as int,
            11_000_000_000_000_000_000_000_000_000,
            1_000_000_000_000_000_000,
        );
    }
    c
}

/// One axis at scaled time `tau`, floored to milli-pixels.
fn axis_milli(p0: i64, v0: i64, a: i64, tau: u64) -> (c: i64)
    requires
        -1_000_000_000 <= p0 <= 1_000_000_000,
        -10_000_000_000 <= v0 <= 10_000_000_000,
        -100_000_000 <= a <= 100_000_000,
        tau <= 10_000_000_000,
    ensures
        c == milli_of_atto_spec(pos_atto(p0 as int, v0 as int, a as int, tau as int)),
        -1_000_000_000_000_000 <= c <= 1_000_000_000_000_000,
{
    let p = axis_atto(p0, v0, a, tau);
    milli_of_atto(p)
}

} // verus!
