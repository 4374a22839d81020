//! A tank: a rectangular body with aim state and health.  It drops onto the
//! terrain through a vertical trajectory, crushing thin ground as it passes,
//! fires projectiles from the tip of its gun, and tests points against its
//! body and gun silhouette (a small set of ellipses, the gun's rotated by
//! the aim angle).

use vstd::prelude::*;

use crate::ballistics::Ballistics;
use crate::geometry::Ellipse;
use crate::geometry::Rect;
use crate::landscape::Landscape;
use crate::landscape::cleared_row_span;
use crate::landscape::count_zeros;
use crate::landscape::span_len_spec;
use crate::missile::Missile;
use crate::num::cos_milli;
use crate::num::cos_milli_spec;
use crate::num::floor_div_1000;
use crate::num::cell_of_atto_spec;
use crate::num::sin_milli;
use crate::num::sin_milli_spec;
use crate::types::Point2;
use crate::types::Vector2;

verus! {

/// Side length of the square tank body, milli-pixels.
pub const TANK_SIZE: i64 = 41_000;

/// Length of the gun barrel, milli-pixels.
pub const GUN_SIZE: i64 = 21_000;

/// Multiplier from gun power to projectile speed (pixels per second per
/// power unit).
pub const POWER_SCALE: i64 = 3;

/// An in-progress vertical drop of a tank.
#[derive(Clone, Copy, Debug)]
pub struct TankThrowing {
    /// The y coordinate of the tank's bottom row when the drop began,
    /// milli-pixels.
    pub start_height: i64,
    /// The vertical-only trajectory of the drop.
    pub ballistics: Ballistics,
    /// When the drop began, milli-seconds.
    pub created_ms: u64,
    /// The latest time the drop was stepped, milli-seconds.
    pub last_ms: u64,
}

/// The result of stepping a tank's drop.
#[derive(Clone, Copy, Debug, PartialEq, Eq, Structural)]
pub enum TankState {
    /// The tank found footing (or fell off the bottom); the payload is the
    /// vertical distance fallen since the drop began, milli-pixels.
    Placed(i64),
    /// The tank is still falling.
    Dropped,
}

/// What one sampled cell of a drop does to the world: past the bottom edge
/// the drop ends; over an in-grid footprint row with more empty cells than
/// the allowed gap of twelve the tank crushes any remaining thin ground
/// (unless the row is fully empty) and moves down one row; at or below the
/// gap it has found footing; rows out of reach are skipped.  The result is
/// the new grid, the rows moved, whether the drop ended, and whether ground
/// was crushed.
pub open spec fn fall_cell_step(g: Seq<u8>, w: int, h: int, cx: int, cy: int) -> (
    Seq<u8>,
    int,
    bool,
    bool,
) {
    if cy >= h {
        (g, 0int, true, false)
    } else if -2_000_000_000 <= cx && cx <= 2_000_000_000 && -2_000_000_000 <= cy && cy
        <= 2_000_000_000 && span_len_spec(w, h, cx, cy, 41) > 0 {
        let base = cy * w + cx;
        let len = span_len_spec(w, h, cx, cy, 41);
        let empty = count_zeros(g.subrange(base, base + len));
        if empty > 12 {
            if empty < 41 {
                (cleared_row_span(g, w, h, cx, cy, 41), 1int, false, true)
            } else {
                (g, 1int, false, false)
            }
        } else {
            (g, 0int, true, false)
        }
    } else {
        (g, 0int, false, false)
    }
}

/// The drop's walk over its first `k` sampled cells: the grid after the
/// crushing so far, the total rows moved, whether footing (or the bottom)
/// was reached, and whether any ground was crushed.
pub open spec fn fall_walk(g: Seq<u8>, w: int, h: int, cells: Seq<(int, int)>, k: nat) -> (
    Seq<u8>,
    int,
    bool,
    bool,
)
    decreases k,
{
    if k == 0 {
        (g, 0int, false, false)
    } else {
        let prev = fall_walk(g, w, h, cells, (k - 1) as nat);
        if prev.2 {
            prev
        } else {
            let st = fall_cell_step(prev.0, w, h, cells[k - 1].0, cells[k - 1].1);
            (st.0, prev.1 + st.1, st.2, prev.3 || st.3)
        }
    }
}

/// The exact outcome of stepping a drop at `now_ms` over a grid: the tank
/// afterwards (moved, its sampler advanced, its drop ended on footing or
/// past the bottom), the grid after any crushing, whether the drop ended,
/// and whether ground was crushed.  A tank with no drop in progress is
/// already placed and changes nothing.
pub open spec fn drop_outcome(t: Tank, g: Seq<u8>, w: int, h: int, now_ms: u64) -> (
    Tank,
    Seq<u8>,
    bool,
    bool,
) {
    match t.throwing {
        Option::None => (t, g, true, false),
        Option::Some(th) => {
            let taue = 3 * crate::ballistics::clamped_elapsed_us(
                th.created_ms as int,
                now_ms as int,
            );
            let dtau = crate::ballistics::dtau_spec(th.ballistics, taue);
            let kk = (taue - th.ballistics.cursor + 1) as nat;
            let res = crate::ballistics::walk(th.ballistics, taue, dtau, Option::None, kk);
            let fw = fall_walk(g, w, h, res.0, res.0.len());
            let off = if fw.1 <= 1_000_000_000 {
                fw.1
            } else {
                1_000_000_000int
            };
            let add = if off * 1000 <= 899_000_000 - t.rect.y {
                off * 1000
            } else {
                899_000_000 - t.rect.y
            };
            let b2 = Ballistics {
                cursor: taue as u64,
                last_cell_x: res.1.0 as i64,
                last_cell_y: res.1.1 as i64,
                ..th.ballistics
            };
            let t2 = Tank {
                rect: Rect { y: (t.rect.y + add) as i64, ..t.rect },
                throwing: if fw.2 {
                    Option::None
                } else {
                    Option::Some(TankThrowing { last_ms: now_ms, ballistics: b2, ..th })
                },
                ..t
            };
            (t2, fw.0, fw.2, fw.3)
        },
    }
}

proof fn lemma_fall_walk_absorb(g: Seq<u8>, w: int, h: int, cells: Seq<(int, int)>, k1: nat, k2: nat)
    requires
        k1 <= k2,
        fall_walk(g, w, h, cells, k1).2,
    ensures
        fall_walk(g, w, h, cells, k2) == fall_walk(g, w, h, cells, k1),
    decreases k2,
{
    if k2 > k1 {
        lemma_fall_walk_absorb(g, w, h, cells, k1, (k2 - 1) as nat);
    }
}

/// The exact tank value after (re)arming a drop at `now_ms`: the top edge
/// teleported if asked, and a fresh vertical trajectory with zero velocity
/// and gravity, its cursor at time zero over the cell of the tank's bottom
/// row.
pub open spec fn thrown_down(t: Tank, top: Option<i64>, now_ms: u64) -> Tank {
    let y = match top {
        Option::Some(v) => v,
        Option::None => t.rect.y,
    };
    let start = (y + t.rect.h - 1000) as i64;
    let b = Ballistics {
        pos0: Point2 { x: t.rect.x, y: start },
        velocity0: Vector2 { x: 0, y: 0 },
        acceleration: Vector2 { x: 0, y: crate::G },
        scale: 3,
        cursor: 0,
        last_cell_x: cell_of_atto_spec(
            crate::ballistics::pos_atto(t.rect.x as int, 0, 0, 0),
        ) as i64,
        last_cell_y: cell_of_atto_spec(
            crate::ballistics::pos_atto(start as int, 0, crate::G as int, 0),
        ) as i64,
    };
    Tank {
        rect: Rect { y, ..t.rect },
        throwing: Some(
            TankThrowing { start_height: start, ballistics: b, created_ms: now_ms, last_ms: now_ms },
        ),
        ..t
    }
}

/// A tank.
#[derive(Clone, Copy, Debug)]
pub struct Tank {
    pub player_number: u8,
    /// Body bounds, milli-pixels.
    pub rect: Rect,
    /// Gun angle, milli-degrees, negative to the left.
    pub angle: i64,
    /// Gun power, milli-units, 0..=100000.
    pub power: i64,
    pub health: u8,
    pub dead: bool,
    /// The in-progress drop, if any.
    pub throwing: Option<TankThrowing>,
}

impl Tank {
    pub open spec fn wf(self) -> bool {
        &&& self.rect.w == TANK_SIZE
        &&& self.rect.h == TANK_SIZE
        &&& -100_000_000 <= self.rect.x <= 100_000_000
        &&& -100_000_000 <= self.rect.y <= 899_000_000
        &&& -90_000 <= self.angle <= 90_000
        &&& 0 <= self.power <= 100_000
        &&& match self.throwing {
            Option::Some(t) => {
                &&& t.ballistics.wf()
                &&& t.ballistics.scale == 3
                &&& t.ballistics.velocity0 == (Vector2 { x: 0, y: 0 })
                &&& t.ballistics.acceleration == (Vector2 { x: 0, y: crate::G })
                &&& t.created_ms <= t.last_ms
                &&& t.ballistics.cursor <= 3 * crate::ballistics::clamped_elapsed_us(
                    t.created_ms as int,
                    t.last_ms as int,
                )
                &&& -200_000_000 <= t.start_height <= self.rect.y + self.rect.h - 1000
            },
            Option::None => true,
        }
    }

    /// Whether a point (milli-pixels) lies within the tank's body
    /// silhouette: four fixed ellipses in tank-local coordinates.
    pub open spec fn body_hit_spec(self, px: int, py: int) -> bool {
        let lx = px - self.rect.x;
        let ly = py - self.rect.y;
        ||| (Ellipse { cx: 20_500, cy: 26_000, rx: 9_500, ry: 9_000 }).contains_spec(lx, ly)
        ||| (Ellipse { cx: 11_000, cy: 33_500, rx: 10_000, ry: 6_500 }).contains_spec(lx, ly)
        ||| (Ellipse { cx: 30_000, cy: 33_500, rx: 10_000, ry: 6_500 }).contains_spec(lx, ly)
        ||| (Ellipse { cx: 20_500, cy: 33_500, rx: 19_500, ry: 7_500 }).contains_spec(lx, ly)
    }

    /// The tank-local point rotated by the gun angle about the body center
    /// (the gun ellipses are given for an upright gun).
    pub open spec fn gun_local_spec(self, px: int, py: int) -> (int, int) {
        let dx = px - self.rect.x - 20_500;
        let dy = py - self.rect.y - 20_500;
        let s = sin_milli_spec(self.angle as int);
        let c = cos_milli_spec(self.angle as int);
        ((dx * c + dy * s) / 1000 + 20_500, (dy * c - dx * s) / 1000 + 20_500)
    }

    /// Whether a point lies within the gun silhouette: two fixed ellipses,
    /// tested in gun-rotated coordinates.
    pub open spec fn gun_hit_spec(self, px: int, py: int) -> bool {
        let p = self.gun_local_spec(px, py);
        ||| (Ellipse { cx: 20_500, cy: 6_500, rx: 2_500, ry: 5_000 }).contains_spec(p.0, p.1)
        ||| (Ellipse { cx: 20_500, cy: 15_500, rx: 2_000, ry: 8_000 }).contains_spec(p.0, p.1)
    }

    /// Whether a point lies within the tank's body or gun silhouette.
    pub open spec fn collides(self, px: int, py: int) -> bool {
        self.body_hit_spec(px, py) || self.gun_hit_spec(px, py)
    }

    /// A fresh tank at `top_left`, already dropping.
    pub fn new(player_number: u8, top_left: Point2, now_ms: u64) -> (r: Tank)
        requires
            -100_000_000 <= top_left.x <= 100_000_000,
            -100_000_000 <= top_left.y <= 899_000_000,
        ensures
            r.wf(),
            r.player_number == player_number,
            r.rect == (Rect { x: top_left.x, y: top_left.y, w: TANK_SIZE, h: TANK_SIZE }),
            r.angle == 0,
            r.power == 40_000,
            r.health == 100,
            !r.dead,
            (r.throwing matches Some(t) && t.created_ms == now_ms && t.last_ms == now_ms),
            r == thrown_down(
                Tank {
                    player_number,
                    rect: Rect { x: top_left.x, y: top_left.y, w: TANK_SIZE, h: TANK_SIZE },
                    angle: 0,
                    power: 40_000,
                    health: 100,
                    dead: false,
                    throwing: None,
                },
                Option::None,
                now_ms,
            ),
    {
        let mut tank = Tank {
            player_number,
            rect: Rect::new(top_left.x, top_left.y, TANK_SIZE, TANK_SIZE),
            angle: 0,
            power: 40_000,
            health: 100,
            dead: false,
            throwing: None,
        };
        tank.throw_down(None, now_ms);
        tank
    }

    pub fn top_left(&self) -> (r: Point2)
        ensures
            r.x == self.rect.x,
            r.y == self.rect.y,
    {
        Point2 { x: self.rect.x, y: self.rect.y }
    }

    /// The center of the tank's body.
    pub fn center(&self) -> (r: Point2)
        requires
            self.wf(),
        ensures
            r.x == self.rect.x + self.rect.w / 2,
            r.y == self.rect.y + self.rect.h / 2,
    {
        Point2 { x: self.rect.x + self.rect.w / 2, y: self.rect.y + self.rect.h / 2 }
    }

    /// The tip of the gun barrel: the body center offset by the barrel
    /// length, rotated to the aim angle.
    pub fn gun_barrel_pos(&self) -> (r: Point2)
        requires
            self.wf(),
        ensures
            r.x == self.rect.x + self.rect.w / 2 + 21 * sin_milli_spec(self.angle as int),
            r.y == self.rect.y + self.rect.h / 2 - 21 * cos_milli_spec(self.angle as int),
            -101_000_000 <= r.x <= 101_000_000,
            -101_000_000 <= r.y <= 900_000_000,
    {
        let s = sin_milli(self.angle);
        let c = cos_milli(self.angle);
        let cx = self.rect.x + self.rect.w / 2;
        let cy = self.rect.y + self.rect.h / 2;
        Point2 { x: cx + (GUN_SIZE / 1000) * s, y: cy - (GUN_SIZE / 1000) * c }
    }

    /// Fires a projectile from the barrel tip along the aim direction with
    /// speed `power * POWER_SCALE`, under the given constant acceleration
    /// (wind and gravity).
    pub fn shoot(&self, acceleration: Vector2, now_ms: u64) -> (r: Missile)
        requires
            self.wf(),
            -100_000_000 <= acceleration.x <= 100_000_000,
            -100_000_000 <= acceleration.y <= 100_000_000,
        ensures
            r.wf(),
            r.created_ms == now_ms,
            r.last_ms == now_ms,
            r.ballistics.pos0.x == self.rect.x + self.rect.w / 2 + 21 * sin_milli_spec(
                self.angle as int,
            ),
            r.ballistics.pos0.y == self.rect.y + self.rect.h / 2 - 21 * cos_milli_spec(
                self.angle as int,
            ),
            r.ballistics.velocity0.x == POWER_SCALE * self.power * sin_milli_spec(
                self.angle as int,
            ),
            r.ballistics.velocity0.y == -(POWER_SCALE * self.power * cos_milli_spec(
                self.angle as int,
            )),
            r.ballistics.acceleration == acceleration,
            r.ballistics.scale == 3,
            r.ballistics.cursor == 0,
    {
        Missile::new(self.gun_barrel_pos(), self.angle, POWER_SCALE * self.power, acceleration, now_ms)
    }

    /// Saturating damage.
    pub fn damage(&mut self, v: u8)
        ensures
            final(self).health == (if old(self).health >= v {
                old(self).health - v
            } else {
                0
            }),
            *final(self) == (Tank { health: final(self).health, ..*old(self) }),
    {
        self.health = if self.health >= v {
            self.health - v
        } else {
            0
        };
    }

    /// Whether the given point (milli-pixels) lies inside the tank's body
    /// or gun silhouette.
    pub fn has_collision(&self, point: Point2) -> (r: bool)
        requires
            self.wf(),
            -100_000_000_000_000 <= point.x <= 100_000_000_000_000,
            -100_000_000_000_000 <= point.y <= 100_000_000_000_000,
        ensures
            r == self.collides(point.x as int, point.y as int),
    {
        let lx: i64 = point.x - self.rect.x;
        let ly: i64 = point.y - self.rect.y;
        let body = Ellipse::new(20_500, 26_000, 9_500, 9_000).contains(lx, ly) || Ellipse::new(
            11_000,
            33_500,
            10_000,
            6_500,
        ).contains(lx, ly) || Ellipse::new(30_000, 33_500, 10_000, 6_500).contains(lx, ly)
            || Ellipse::new(20_500, 33_500, 19_500, 7_500).contains(lx, ly);
        if body {
            return true;
        }
        let dx: i64 = lx - 20_500;
        let dy: i64 = ly - 20_500;
        let s = sin_milli(self.angle);
        let c = cos_milli(self.angle);
        proof {
            assert(-200_000_000_000_000_000 <= dx * c <= 200_000_000_000_000_000
                && -200_000_000_000_000_000 <= dx * s <= 200_000_000_000_000_000
                && -200_000_000_000_000_000 <= dy * s <= 200_000_000_000_000_000
                && -200_000_000_000_000_000 <= dy * c <= 200_000_000_000_000_000)
                by (nonlinear_arith)
                requires
                    -200_000_000_000_000 <= dx <= 200_000_000_000_000,
                    -200_000_000_000_000 <= dy <= 200_000_000_000_000,
                    -1000 <= s <= 1000,
                    -1000 <= c <= 1000,
            ;
        }
        let rx: i64 = floor_div_1000(dx * c + dy * s) + 20_500;
        let ry: i64 = floor_div_1000(dy * c - dx * s) + 20_500;
        Ellipse::new(20_500, 6_500, 2_500, 5_000).contains(rx, ry) || Ellipse::new(
            20_500,
            15_500,
            2_000,
            8_000,
        ).contains(rx, ry)
    }

    /// (Re)starts the vertical drop: optionally teleports the tank's top
    /// edge first, then starts a fresh zero-velocity trajectory under
    /// gravity from the current bottom edge.
    pub fn throw_down(&mut self, top: Option<i64>, now_ms: u64)
        requires
            old(self).wf(),
            top matches Some(t) ==> -100_000_000 <= t <= 899_000_000,
        ensures
            final(self).wf(),
            final(self).player_number == old(self).player_number,
            final(self).angle == old(self).angle,
            final(self).power == old(self).power,
            final(self).health == old(self).health,
            final(self).dead == old(self).dead,
            final(self).rect.x == old(self).rect.x,
            final(self).rect.w == old(self).rect.w,
            final(self).rect.h == old(self).rect.h,
            final(self).rect.y == (match top {
                Option::Some(t) => t,
                Option::None => old(self).rect.y,
            }),
            (final(self).throwing matches Some(t) && t.start_height == final(self).rect.y
                + final(self).rect.h - 1000 && t.created_ms == now_ms && t.last_ms == now_ms),
            *final(self) == thrown_down(*old(self), top, now_ms),
    {
        match top {
            Option::Some(t) => {
                self.rect.y = t;
            },
            Option::None => {},
        }
        let start_height: i64 = self.rect.y + self.rect.h - 1000;
        let b = Ballistics::new(
            Point2 { x: self.rect.x, y: start_height },
            Vector2 { x: 0, y: 0 },
            Vector2 { x: 0, y: crate::G },
        ).time_scale(3);
        self.throwing = Some(
            TankThrowing { start_height, ballistics: b, created_ms: now_ms, last_ms: now_ms },
        );
        proof {
            let ghost spec_tank = thrown_down(*old(self), top, now_ms);
            match self.throwing {
                Option::Some(tt) => {
                    assert((tt.ballistics.last_cell_x as int, tt.ballistics.last_cell_y as int)
                        == tt.ballistics.cell_at(0));
                    assert(tt.ballistics =~= (match spec_tank.throwing {
                        Option::Some(st) => st.ballistics,
                        Option::None => tt.ballistics,
                    }));
                },
                Option::None => {},
            }
            assert(*self =~= spec_tank);
        }
    }

    /// Steps the tank's drop at time `now_ms`.  Every newly crossed grid row
    /// under the tank's footprint is inspected: with more empty cells than
    /// the allowed gap (30 percent of the tank width) but not a fully empty
    /// row, the thin ground is crushed (cleared) and the tank moves down one
    /// row; at or below the gap the tank has found footing and stops; a row
    /// at or past the terrain's bottom edge also stops the drop.  Returns
    /// how far the tank fell (in milli-pixels, since the drop began) once
    /// stopped, or `Dropped` while still falling.
    #[verifier::rlimit(60)]
    pub fn update(&mut self, landscape: &mut Landscape, now_ms: u64) -> (r: TankState)
        requires
            old(self).wf(),
            old(landscape).wf(),
            old(self).throwing matches Some(t) ==> t.last_ms <= now_ms,
        ensures
            final(self).wf(),
            final(landscape).wf(),
            final(landscape).same_config(*old(landscape)),
            final(landscape).width_spec() == old(landscape).width_spec(),
            final(landscape).height_spec() == old(landscape).height_spec(),
            final(self).player_number == old(self).player_number,
            final(self).angle == old(self).angle,
            final(self).power == old(self).power,
            final(self).health == old(self).health,
            final(self).dead == old(self).dead,
            final(self).rect.x == old(self).rect.x,
            final(self).rect.w == old(self).rect.w,
            final(self).rect.h == old(self).rect.h,
            final(self).rect.y >= old(self).rect.y,
            forall|cx: int, cy: int|
                #[trigger] final(landscape).cell_filled(cx, cy) ==> old(landscape).cell_filled(
                    cx,
                    cy,
                ),
            old(landscape).changed_spec() ==> final(landscape).changed_spec(),
            (r is Dropped) <==> final(self).throwing is Some,
            final(self).throwing matches Some(t2) ==> t2.last_ms == now_ms,
            old(self).throwing is None ==> {
                &&& *final(self) == *old(self)
                &&& *final(landscape) == *old(landscape)
                &&& r == TankState::Placed(0)
            },
            r matches TankState::Placed(d) ==> d == final(self).rect.y + final(self).rect.h - 1000
                - (match old(self).throwing {
                Option::Some(t) => t.start_height as int,
                Option::None => old(self).rect.y + old(self).rect.h - 1000,
            }) && d >= 0,
            ({
                let o = drop_outcome(
                    *old(self),
                    old(landscape).grid(),
                    old(landscape).width_spec(),
                    old(landscape).height_spec(),
                    now_ms,
                );
                &&& *final(self) == o.0
                &&& final(landscape).grid() == o.1
                &&& (r is Dropped) == !o.2
                &&& final(landscape).changed_spec() == (old(landscape).changed_spec() || o.3)
            }),
    {
        let ghost l0 = *old(landscape);
        proof {
            crate::landscape::lemma_same_config_refl(*landscape);
            crate::landscape::lemma_wf_bounds(*landscape);
        }
        match self.throwing {
            Option::None => {
                return TankState::Placed(0);
            },
            Option::Some(throwing0) => {
                let mut throwing = throwing0;
                let start_height = throwing.start_height;
                let height: i64 = {
                    let (_, hh) = landscape.size();
                    hh as i64
                };
                let elapsed_raw: u64 = now_ms - throwing.created_ms;
                let elapsed_us: u64 = if elapsed_raw <= 3_000_000 {
                    elapsed_raw * 1000
                } else {
                    3_000_000_000
                };
                let ghost b0 = throwing0.ballistics;
                let cells = throwing.ballistics.visited_cells(elapsed_us, None);
                throwing.last_ms = now_ms;
                let ghost taue = 3 * crate::ballistics::clamped_elapsed_us(
                    throwing0.created_ms as int,
                    now_ms as int,
                );
                let ghost dtau = crate::ballistics::dtau_spec(b0, taue);
                let ghost kk = (taue - b0.cursor + 1) as nat;
                let ghost res = crate::ballistics::walk(b0, taue, dtau, Option::None, kk);
                let ghost ww = l0.width_spec();
                let ghost hh = l0.height_spec();
                let mut offset: i64 = 0;
                let mut landed = false;
                let mut i: usize = 0;
                while i < cells.len() && !landed
                    invariant
                        landscape.wf(),
                        landscape.same_config(l0),
                        landscape.width_spec() == l0.width_spec(),
                        landscape.height_spec() == l0.height_spec(),
                        l0.changed_spec() ==> landscape.changed_spec(),
                        forall|cx: int, cy: int|
                            #[trigger] landscape.cell_filled(cx, cy) ==> l0.cell_filled(cx, cy),
                        0 <= offset <= 1_000_000_000,
                        i <= cells.len(),
                        cells.len() <= usize::MAX,
                        height == l0.height_spec(),
                        ww == l0.width_spec(),
                        hh == l0.height_spec(),
                        cells@.len() == res.0.len(),
                        forall|j: int|
                            #![trigger cells@[j]]
                            0 <= j < cells@.len() ==> (cells@[j].0 as int, cells@[j].1 as int)
                                == res.0[j],
                        landscape.grid() == fall_walk(l0.grid(), ww, hh, res.0, i as nat).0,
                        landed == fall_walk(l0.grid(), ww, hh, res.0, i as nat).2,
                        offset == ({
                            let o = fall_walk(l0.grid(), ww, hh, res.0, i as nat).1;
                            if o <= 1_000_000_000 {
                                o
                            } else {
                                1_000_000_000int
                            }
                        }),
                        landscape.changed_spec() == (l0.changed_spec() || fall_walk(
                            l0.grid(),
                            ww,
                            hh,
                            res.0,
                            i as nat,
                        ).3),
                    decreases cells.len() - i + (if landed {
                        0int
                    } else {
                        1int
                    }),
                {
                    let cell = cells[i];
                    let cx = cell.0;
                    let cy = cell.1;
                    if cy >= height {
                        landed = true;
                    } else if -2_000_000_000 <= cx && cx <= 2_000_000_000 && -2_000_000_000 <= cy
                        && cy <= 2_000_000_000 {
                        let cx32 = cx as i32;
                        let cy32 = cy as i32;
                        match landscape.count_empty_span(cx32, cy32, 41) {
                            Option::Some(empty) => {
                                if empty > 12 {
                                    if empty < 41 {
                                        let ghost lmid = *landscape;
                                        landscape.clear_span(cx32, cy32, 41);
                                        let ghost lmid2 = *landscape;
                                        landscape.set_changed();
                                        proof {
                                            crate::landscape::lemma_same_config_trans(
                                                lmid,
                                                lmid2,
                                                *landscape,
                                            );
                                            crate::landscape::lemma_same_config_trans(
                                                l0,
                                                lmid,
                                                *landscape,
                                            );
                                            crate::landscape::lemma_same_config_dims(lmid2, lmid);
                                            crate::landscape::lemma_same_config_dims(
                                                *landscape,
                                                lmid2,
                                            );
                                            crate::landscape::lemma_cell_filled_congruence(
                                                *landscape,
                                                lmid2,
                                            );
                                            assert forall|qx: int, qy: int|
                                                #[trigger] landscape.cell_filled(qx, qy) implies l0
                                                .cell_filled(qx, qy) by {
                                                assert(landscape.cell_filled(qx, qy)
                                                    == lmid2.cell_filled(qx, qy));
                                                assert(lmid2.cell_filled(qx, qy) ==> lmid
                                                    .cell_filled(qx, qy));
                                                assert(lmid.cell_filled(qx, qy) ==> l0.cell_filled(
                                                    qx,
                                                    qy,
                                                ));
                                            }
                                        }
                                    }
                                    if offset < 1_000_000_000 {
                                        offset = offset + 1;
                                    }
                                } else {
                                    landed = true;
                                }
                            },
                            Option::None => {},
                        }
                    }
                    i = i + 1;
                }
                proof {
                    if landed && i < cells@.len() {
                        lemma_fall_walk_absorb(
                            l0.grid(),
                            ww,
                            hh,
                            res.0,
                            i as nat,
                            res.0.len() as nat,
                        );
                    }
                }
                if landed {
                    self.throwing = None;
                } else {
                    self.throwing = Some(throwing);
                }
                if offset > 0 {
                    let add: i64 = if offset * 1000 <= 899_000_000 - self.rect.y {
                        offset * 1000
                    } else {
                        899_000_000 - self.rect.y
                    };
                    self.rect.y = self.rect.y + add;
                }
                proof {
                    let o = drop_outcome(
                        *old(self),
                        l0.grid(),
                        l0.width_spec(),
                        l0.height_spec(),
                        now_ms,
                    );
                    crate::ballistics::lemma_walk_unbounded_runs_out(
                        b0,
                        taue,
                        dtau,
                        kk,
                    );
                    if !landed {
                        match self.throwing {
                            Option::Some(tt) => {
                                assert(tt.ballistics =~= (match o.0.throwing {
                                    Option::Some(st) => st.ballistics,
                                    Option::None => tt.ballistics,
                                }));
                            },
                            Option::None => {},
                        }
                    }
                    assert(*self =~= o.0);
                }
                if landed {
                    let path_len: i64 = (self.rect.y + self.rect.h - 1000) - start_height;
                    TankState::Placed(path_len)
                } else {
                    TankState::Dropped
                }
            },
        }
    }
}

} // verus!
