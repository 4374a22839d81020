//! A projectile in flight: a trajectory sampler plus the collision logic
//! that resolves it to a hit position or "still flying".

use vstd::prelude::*;

use crate::ballistics::Ballistics;
use crate::ballistics::clamped_elapsed_us;
use crate::landscape::Landscape;
use crate::num::cos_milli;
use crate::num::cos_milli_spec;
use crate::num::sin_milli;
use crate::num::sin_milli_spec;
use crate::tank::Tank;
use crate::types::Point2;
use crate::types::Vector2;

verus! {

/// A projectile.
#[derive(Clone, Copy, Debug)]
pub struct Missile {
    /// The trajectory, with the game's fixed time scale applied.
    pub ballistics: Ballistics,
    /// When the projectile was fired, milli-seconds.
    pub created_ms: u64,
    /// The latest time the flight was stepped, milli-seconds.
    pub last_ms: u64,
}

/// Whether a cell ends a projectile's flight: it is filled terrain, it lies
/// at or below the terrain's bottom edge, or it is inside a live tank's
/// silhouette.
pub open spec fn hit_cell(l: Landscape, tanks: Seq<Tank>, height: int, c: (int, int)) -> bool {
    ||| l.cell_filled(c.0, c.1)
    ||| c.1 >= height
    ||| exists|ti: int|
        0 <= ti < tanks.len() && !tanks[ti].dead && (#[trigger] tanks[ti]).collides(
            c.0 * 1000,
            c.1 * 1000,
        )
}

/// The first cell of the sequence that ends the flight, if any.
pub open spec fn first_hit(l: Landscape, tanks: Seq<Tank>, height: int, cells: Seq<(int, int)>) -> Option<
    (int, int),
>
    decreases cells.len(),
{
    if cells.len() == 0 {
        Option::None
    } else if hit_cell(l, tanks, height, cells[0]) {
        Option::Some(cells[0])
    } else {
        first_hit(l, tanks, height, cells.drop_first())
    }
}

proof fn lemma_first_hit_prefix(
    l: Landscape,
    tanks: Seq<Tank>,
    height: int,
    cells: Seq<(int, int)>,
    i: int,
)
    requires
        0 <= i <= cells.len(),
        forall|j: int| 0 <= j < i ==> !hit_cell(l, tanks, height, #[trigger] cells[j]),
    ensures
        first_hit(l, tanks, height, cells) == first_hit(l, tanks, height, cells.skip(i)),
    decreases i,
{
    if i == 0 {
        assert(cells.skip(0) =~= cells);
    } else {
        assert(!hit_cell(l, tanks, height, cells[0]));
        assert(cells.drop_first() =~= cells.skip(1));
        assert forall|j: int| 0 <= j < i - 1 implies !hit_cell(
            l,
            tanks,
            height,
            #[trigger] cells.skip(1)[j],
        ) by {
            assert(cells.skip(1)[j] == cells[j + 1]);
        }
        lemma_first_hit_prefix(l, tanks, height, cells.skip(1), i - 1);
        assert(cells.skip(1).skip(i - 1) =~= cells.skip(i));
    }
}

/// The first cell that ends a flight stepped to `now_ms` over the given
/// playfield, if any: the walk of the projectile's sampler, resolved
/// against the terrain, the bottom edge and the live tanks.
pub open spec fn flight_outcome(
    m: Missile,
    l: Landscape,
    tanks: Seq<Tank>,
    borders: (int, int),
    now_ms: u64,
) -> Option<(int, int)> {
    let taue = 3 * clamped_elapsed_us(m.created_ms as int, now_ms as int);
    let dtau = crate::ballistics::dtau_spec(m.ballistics, taue);
    let kk = (taue - m.ballistics.cursor + 1) as nat;
    let res = crate::ballistics::walk(m.ballistics, taue, dtau, Option::Some(borders), kk);
    first_hit(l, tanks, borders.1, res.0)
}

/// The projectile after stepping its flight to `now_ms`: its sampler's
/// cursor and last cell advanced by the walk (to the stopping sample when
/// the walk left the playfield, else to the end time).
pub open spec fn advanced_missile(m: Missile, borders: (int, int), now_ms: u64) -> Missile {
    let taue = 3 * clamped_elapsed_us(m.created_ms as int, now_ms as int);
    let dtau = crate::ballistics::dtau_spec(m.ballistics, taue);
    let kk = (taue - m.ballistics.cursor + 1) as nat;
    let res = crate::ballistics::walk(m.ballistics, taue, dtau, Option::Some(borders), kk);
    let cur = match res.2 {
        Option::Some(t) => t,
        Option::None => taue,
    };
    Missile {
        ballistics: Ballistics {
            cursor: cur as u64,
            last_cell_x: res.1.0 as i64,
            last_cell_y: res.1.1 as i64,
            ..m.ballistics
        },
        last_ms: now_ms,
        ..m
    }
}

impl Missile {
    pub open spec fn wf(self) -> bool {
        &&& self.ballistics.wf()
        &&& self.ballistics.scale == 3
        &&& self.created_ms <= self.last_ms
        &&& self.ballistics.cursor <= 3 * clamped_elapsed_us(
            self.created_ms as int,
            self.last_ms as int,
        )
    }

    /// A projectile fired at `now_ms` from `pos` with the given aim angle
    /// (milli-degrees), speed (milli-pixels per second) and constant
    /// acceleration (micro-pixels per second squared); the game's time
    /// scale is applied to its trajectory.
    pub fn new(pos: Point2, angle: i64, power: i64, acceleration: Vector2, now_ms: u64) -> (r:
        Missile)
        requires
            -1_000_000_000 <= pos.x <= 1_000_000_000,
            -1_000_000_000 <= pos.y <= 1_000_000_000,
            -180_000 <= angle <= 180_000,
            0 <= power <= 1_000_000,
            -100_000_000 <= acceleration.x <= 100_000_000,
            -100_000_000 <= acceleration.y <= 100_000_000,
        ensures
            r.wf(),
            r.created_ms == now_ms,
            r.last_ms == now_ms,
            r.ballistics.pos0 == pos,
            r.ballistics.velocity0.x == power * sin_milli_spec(angle as int),
            r.ballistics.velocity0.y == -(power * cos_milli_spec(angle as int)),
            r.ballistics.acceleration == acceleration,
            r.ballistics.scale == 3,
            r.ballistics.cursor == 0,
    {
        let s = sin_milli(angle);
        let c = cos_milli(angle);
        proof {
            assert(-1_000_000_000 <= power * s <= 1_000_000_000 && -1_000_000_000 <= power * c
                <= 1_000_000_000) by (nonlinear_arith)
                requires
                    0 <= power <= 1_000_000,
                    -1000 <= s <= 1000,
                    -1000 <= c <= 1000,
            ;
        }
        let velocity = Vector2 { x: power * s, y: -(power * c) };
        let b = Ballistics::new(pos, velocity, acceleration).time_scale(3);
        Missile { ballistics: b, created_ms: now_ms, last_ms: now_ms }
    }

    /// The projectile's position at its own sampling cursor, milli-pixels.
    pub fn cur_pos(&self) -> (r: Point2)
        requires
            self.wf(),
        ensures
            r.x == crate::num::milli_of_atto_spec(
                crate::ballistics::pos_atto(
                    self.ballistics.pos0.x as int,
                    self.ballistics.velocity0.x as int,
                    self.ballistics.acceleration.x as int,
                    self.ballistics.cursor as int,
                ),
            ),
            r.y == crate::num::milli_of_atto_spec(
                crate::ballistics::pos_atto(
                    self.ballistics.pos0.y as int,
                    self.ballistics.velocity0.y as int,
                    self.ballistics.acceleration.y as int,
                    self.ballistics.cursor as int,
                ),
            ),
    {
        self.ballistics.cur_pos()
    }

    /// Advances the flight to time `now_ms` over the playfield
    /// `[0, borders.0) x [0, borders.1)`.  Among the newly crossed cells,
    /// the first one that is filled terrain, reaches the bottom edge, or
    /// lies inside a live tank's silhouette ends the flight, and its
    /// position (in milli-pixels) is returned; if the walk exhausts (or
    /// leaves the playfield on another side) without such a cell, the
    /// projectile is still flying and `None` is returned.
    pub fn update(
        &mut self,
        now_ms: u64,
        borders: (i64, i64),
        landscape: &Landscape,
        tanks: &Vec<Tank>,
    ) -> (r: Option<Point2>)
        requires
            old(self).wf(),
            old(self).last_ms <= now_ms,
            landscape.wf(),
            forall|ti: int| 0 <= ti < tanks@.len() ==> (#[trigger] tanks@[ti]).wf(),
            1 <= borders.0 <= 0xffff,
            1 <= borders.1 <= 0xffff,
            borders.1 == landscape.height_spec(),
        ensures
            final(self).wf(),
            final(self).created_ms == old(self).created_ms,
            final(self).last_ms == now_ms,
            final(self).ballistics.pos0 == old(self).ballistics.pos0,
            final(self).ballistics.velocity0 == old(self).ballistics.velocity0,
            final(self).ballistics.acceleration == old(self).ballistics.acceleration,
            final(self).ballistics.scale == old(self).ballistics.scale,
            r == (match flight_outcome(
                *old(self),
                *landscape,
                tanks@,
                (borders.0 as int, borders.1 as int),
                now_ms,
            ) {
                Option::Some(c) => Option::Some(
                    Point2 { x: (1000 * c.0) as i64, y: (1000 * c.1) as i64 },
                ),
                Option::None => Option::None::<Point2>,
            }),
            *final(self) == advanced_missile(
                *old(self),
                (borders.0 as int, borders.1 as int),
                now_ms,
            ),
            r matches Some(p) ==> -20_000_000_000_000 <= p.x <= 20_000_000_000_000
                && -20_000_000_000_000 <= p.y <= 20_000_000_000_000,
    {
        let ghost b0 = self.ballistics;
        let elapsed_raw: u64 = now_ms - self.created_ms;
        let elapsed_us: u64 = if elapsed_raw <= 3_000_000 {
            elapsed_raw * 1000
        } else {
            3_000_000_000
        };
        let cells = self.ballistics.visited_cells(elapsed_us, Some(borders));
        self.last_ms = now_ms;
        proof {
            let am = advanced_missile(*old(self), (borders.0 as int, borders.1 as int), now_ms);
            assert(self.ballistics =~= am.ballistics);
            assert(*self =~= am);
        }
        let ghost taue = 3 * clamped_elapsed_us(self.created_ms as int, now_ms as int);
        let ghost dtau = crate::ballistics::dtau_spec(b0, taue);
        let ghost kk = (taue - b0.cursor + 1) as nat;
        let ghost res = crate::ballistics::walk(
            b0,
            taue,
            dtau,
            Option::Some((borders.0 as int, borders.1 as int)),
            kk,
        );
        let height: i64 = borders.1;
        let mut i: usize = 0;
        while i < cells.len()
            invariant
                self.wf(),
                *self == advanced_missile(
                    *old(self),
                    (borders.0 as int, borders.1 as int),
                    now_ms,
                ),
                self.created_ms == old(self).created_ms,
                self.last_ms == now_ms,
                self.ballistics.pos0 == old(self).ballistics.pos0,
                self.ballistics.velocity0 == old(self).ballistics.velocity0,
                self.ballistics.acceleration == old(self).ballistics.acceleration,
                self.ballistics.scale == old(self).ballistics.scale,
                b0 == old(self).ballistics,
                taue == 3 * clamped_elapsed_us(old(self).created_ms as int, now_ms as int),
                dtau == crate::ballistics::dtau_spec(b0, taue),
                kk == (taue - b0.cursor + 1) as nat,
                res == crate::ballistics::walk(
                    b0,
                    taue,
                    dtau,
                    Option::Some((borders.0 as int, borders.1 as int)),
                    kk,
                ),
                landscape.wf(),
                forall|ti: int| 0 <= ti < tanks@.len() ==> (#[trigger] tanks@[ti]).wf(),
                1 <= borders.1 <= 0xffff,
                borders.1 == landscape.height_spec(),
                height == borders.1,
                i <= cells.len(),
                cells@.len() == res.0.len(),
                forall|j: int|
                    #![trigger cells@[j]]
                    0 <= j < cells@.len() ==> (cells@[j].0 as int, cells@[j].1 as int) == res.0[j],
                forall|j: int|
                    #![trigger cells@[j]]
                    0 <= j < cells@.len() ==> -20_000_000_000 <= cells@[j].0 <= 20_000_000_000
                        && -20_000_000_000 <= cells@[j].1 <= 20_000_000_000,
                forall|j: int|
                    0 <= j < i ==> !hit_cell(
                        *landscape,
                        tanks@,
                        borders.1 as int,
                        #[trigger] res.0[j],
                    ),
            decreases cells.len() - i,
        {
            let cell = cells[i];
            let cx = cell.0;
            let cy = cell.1;
            let terrain = if -2_000_000_000 <= cx && cx <= 2_000_000_000 && -2_000_000_000 <= cy
                && cy <= 2_000_000_000 {
                landscape.is_not_empty(cx as i32, cy as i32)
            } else {
                proof {
                    crate::landscape::lemma_wf_bounds(*landscape);
                    if landscape.cell_filled(cx as int, cy as int) {
                        crate::landscape::lemma_cell_filled_in_range(
                            *landscape,
                            cx as int,
                            cy as int,
                        );
                    }
                }
                false
            };
            let tank_hit = any_live_tank_collides(tanks, 1000 * cx, 1000 * cy);
            if terrain || tank_hit || cy >= height {
                proof {
                    assert(hit_cell(*landscape, tanks@, borders.1 as int, res.0[i as int]));
                    lemma_first_hit_prefix(
                        *landscape,
                        tanks@,
                        borders.1 as int,
                        res.0,
                        i as int,
                    );
                    assert(res.0.skip(i as int)[0] == res.0[i as int]);
                    assert(first_hit(*landscape, tanks@, borders.1 as int, res.0.skip(i as int))
                        == Option::Some(res.0[i as int]));
                }
                return Some(Point2 { x: 1000 * cx, y: 1000 * cy });
            }
            i = i + 1;
        }
        proof {
            lemma_first_hit_prefix(*landscape, tanks@, borders.1 as int, res.0, res.0.len() as int);
            assert(res.0.skip(res.0.len() as int) =~= Seq::<(int, int)>::empty());
        }
        None
    }
}

/// Whether any live tank's silhouette contains the point (milli-pixels).
fn any_live_tank_collides(tanks: &Vec<Tank>, px: i64, py: i64) -> (r: bool)
    requires
        forall|ti: int| 0 <= ti < tanks@.len() ==> (#[trigger] tanks@[ti]).wf(),
        -100_000_000_000_000 <= px <= 100_000_000_000_000,
        -100_000_000_000_000 <= py <= 100_000_000_000_000,
    ensures
        r == exists|ti: int|
            0 <= ti < tanks@.len() && !tanks@[ti].dead && (#[trigger] tanks@[ti]).collides(
                px as int,
                py as int,
            ),
{
    let mut i: usize = 0;
    while i < tanks.len()
        invariant
            i <= tanks@.len(),
            forall|ti: int| 0 <= ti < tanks@.len() ==> (#[trigger] tanks@[ti]).wf(),
            -100_000_000_000_000 <= px <= 100_000_000_000_000,
            -100_000_000_000_000 <= py <= 100_000_000_000_000,
            forall|ti: int|
                0 <= ti < i ==> !(!tanks@[ti].dead && (#[trigger] tanks@[ti]).collides(
                    px as int,
                    py as int,
                )),
        decreases tanks@.len() - i,
    {
        let t = &tanks[i];
        if !t.dead && t.has_collision(Point2 { x: px, y: py }) {
            return true;
        }
        i = i + 1;
    }
    false
}

} // verus!
