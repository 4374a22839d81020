//! The turn orchestrator: a finite state machine sequencing tank settling,
//! aiming, projectile flight, explosions, and terrain settling, while
//! tracking player elimination and money.

use vstd::prelude::*;

use rand::Rng;
use rand::seq::SliceRandom;

use crate::explosion::Explosion;
use crate::landscape::Landscape;
use crate::missile::Missile;
use crate::missile::advanced_missile;
use crate::missile::flight_outcome;
use crate::tank::Tank;
use crate::tank::TankState;
use crate::tank::drop_outcome;
use crate::tank::thrown_down;
use crate::types::Point2;
use crate::types::Vector2;

verus! {

/// The phase of a round.
#[derive(Clone, Copy, Debug, PartialEq, Eq, Structural)]
pub enum GameState {
    /// Live tanks are falling onto the terrain.
    TanksThrowing,
    /// The current player is aiming.
    Aiming,
    /// A projectile is in flight.
    FlyingOfMissile,
    /// A batch of explosions is running.
    Exploding,
    /// The terrain is settling.
    Subsidence,
    /// At most one tank is left alive; the round is over.
    Finish,
}

/// Relies on rand::thread_rng and Rng::gen: a uniformly sampled u32 seed.
/// Nothing is promised of the value.
#[verifier::external_body]
fn random_u32() -> u32 {
    rand::thread_rng().gen()
}

/// Relies on rand::thread_rng and Rng::gen_range: a value below the given
/// positive bound.
#[verifier::external_body]
fn random_below(n: u32) -> (r: u32)
    requires
        n >= 1,
    ensures
        r < n,
{
    rand::thread_rng().gen_range(0..n)
}

/// Relies on rand::thread_rng and Rng::gen_range: a wind strength in tenths
/// of a pixel per second squared, within one hundred either way.
#[verifier::external_body]
fn random_wind_tenths() -> (r: i64)
    ensures
        -100 <= r <= 100,
{
    rand::thread_rng().gen_range(-100i64..=100i64)
}

/// Relies on rand::seq::SliceRandom::shuffle: a permutation of the slice in
/// place, so the elements (as a multiset, and so also membership) are
/// preserved.
#[verifier::external_body]
fn shuffle_players(v: &mut Vec<u8>)
    ensures
        final(v)@.len() == old(v)@.len(),
        final(v)@.to_multiset() == old(v)@.to_multiset(),
        forall|x: u8| final(v)@.contains(x) <==> old(v)@.contains(x),
{
    v.shuffle(&mut rand::thread_rng())
}

/// The damage of a fall over `path` milli-pixels: a tenth of a point per
/// pixel, rounded, capped at the largest health value.
pub open spec fn fall_damage_spec(path: int) -> int {
    let d = (path + 5_000) / 10_000;
    if d >= 255 {
        255
    } else {
        d
    }
}

/// The number of live (not dead) tanks among the first `k`.
pub open spec fn live_count(tanks: Seq<Tank>, k: nat) -> int
    decreases k,
{
    if k == 0 {
        0
    } else {
        live_count(tanks, (k - 1) as nat) + if tanks[k - 1].dead {
            0int
        } else {
            1int
        }
    }
}

/// The still-visible blasts among the first `k`, in order.
pub open spec fn live_blasts(es: Seq<Explosion>, k: nat) -> Seq<Explosion>
    decreases k,
{
    if k == 0 {
        Seq::<Explosion>::empty()
    } else {
        let prev = live_blasts(es, (k - 1) as nat);
        if es[k - 1].cur_opacity > 0 {
            prev.push(es[k - 1])
        } else {
            prev
        }
    }
}

/// The health a tank is left with after taking, one by one and saturating
/// at zero, the blast percentage of each of the first `k` explosions
/// against its body.
pub open spec fn health_after_blasts(h: int, t: Tank, es: Seq<Explosion>, k: nat) -> int
    decreases k,
{
    if k == 0 {
        h
    } else {
        let prev = health_after_blasts(h, t, es, (k - 1) as nat);
        let p = crate::geometry::intersection_percent_spec(
            es[k - 1].pos.x as int,
            es[k - 1].pos.y as int,
            es[k - 1].max_radius as int,
            t.rect,
        );
        if prev >= p {
            prev - p
        } else {
            0
        }
    }
}

/// Health after saturating damage.
pub open spec fn sat_sub_u8(h: u8, d: int) -> u8 {
    if h >= d {
        (h - d) as u8
    } else {
        0
    }
}

/// Money after a saturating credit.
pub open spec fn sat_add_u32(m: u32, b: int) -> u32 {
    if m + b <= 0xffff_ffff {
        (m + b) as u32
    } else {
        0xffff_ffffu32
    }
}

/// A kill or hit blast: a fresh explosion of the standard blast radius at
/// the given point.
pub open spec fn blast_at_point(p: Point2, now_ms: u64) -> Explosion {
    Explosion {
        pos: p,
        max_radius: 50_000,
        cur_radius: 0,
        cur_opacity: 1000,
        created_ms: now_ms,
        landscape_updated: false,
    }
}

/// The tank list after marking every live tank whose health has reached
/// zero as dead.
pub open spec fn mark_destroyed(tanks: Seq<Tank>) -> Seq<Tank> {
    Seq::new(
        tanks.len(),
        |i: int|
            if tanks[i].health == 0 && !tanks[i].dead {
                Tank { dead: true, ..tanks[i] }
            } else {
                tanks[i]
            },
    )
}

/// How many of the first `k` tanks are newly destroyed (health zero and
/// not yet dead).
pub open spec fn kills_count(tanks: Seq<Tank>, k: nat) -> int
    decreases k,
{
    if k == 0 {
        0
    } else {
        kills_count(tanks, (k - 1) as nat) + if tanks[k - 1].health == 0 && !tanks[k - 1].dead {
            1int
        } else {
            0int
        }
    }
}

/// One blast per newly destroyed tank among the first `k`, at the tank's
/// center, in index order.
pub open spec fn kill_blasts(tanks: Seq<Tank>, now_ms: u64, k: nat) -> Seq<Explosion>
    decreases k,
{
    if k == 0 {
        Seq::<Explosion>::empty()
    } else {
        let prev = kill_blasts(tanks, now_ms, (k - 1) as nat);
        let t = tanks[k - 1];
        if t.health == 0 && !t.dead {
            prev.push(
                blast_at_point(
                    Point2 { x: (t.rect.x + t.rect.w / 2) as i64, y: (t.rect.y + t.rect.h / 2) as i64 },
                    now_ms,
                ),
            )
        } else {
            prev
        }
    }
}

/// The index of the next live tank after local cursor `pos`, scanning
/// cyclically for `k` more steps; the sentinel is returned when no live
/// tank is found.
pub open spec fn next_live_index(tanks: Seq<Tank>, pos: int, k: nat) -> int
    decreases k,
{
    if k == 0 {
        -1
    } else {
        let nxt = if pos + 1 >= tanks.len() {
            0int
        } else {
            pos + 1
        };
        if !tanks[nxt].dead {
            nxt
        } else {
            next_live_index(tanks, nxt, (k - 1) as nat)
        }
    }
}

/// Where the turn passes after the current tank: the first live tank after
/// it, cyclically; unchanged when no other tank lives.
pub open spec fn switched_index(tanks: Seq<Tank>, cur: int) -> int {
    let r = next_live_index(tanks, cur, tanks.len() as nat);
    if r == -1 {
        cur
    } else {
        r
    }
}

/// One blast advanced to `now_ms` over a grid, exactly as its own update
/// does: timed radius and opacity, and the one-shot carve on completing
/// its growth.  The result is the blast, the grid, and whether it carved.
pub open spec fn blast_step(e: Explosion, g: Seq<u8>, w: int, h: int, now_ms: u64) -> (
    Explosion,
    Seq<u8>,
    bool,
) {
    if e.cur_opacity <= 0 {
        (e, g, false)
    } else {
        let elapsed = Explosion::clamp_blast_ms(now_ms - e.created_ms);
        let radius = Explosion::raw_radius_spec(elapsed);
        let op = Explosion::opacity_spec(e.max_radius as int, elapsed);
        let newr = if radius <= e.max_radius {
            radius
        } else {
            e.max_radius as int
        };
        let e2 = Explosion { cur_opacity: op as i64, cur_radius: newr as i64, ..e };
        if !e.landscape_updated && radius >= e.max_radius {
            (
                Explosion { landscape_updated: true, ..e2 },
                crate::explosion::carved_grid(g, w, h, e.pos, e.max_radius as int),
                true,
            )
        } else {
            (e2, g, false)
        }
    }
}

/// The whole batch advanced in order, threading the grid: the blasts, the
/// grid, and whether any carve happened.
pub open spec fn blasts_pass(
    es: Seq<Explosion>,
    g: Seq<u8>,
    w: int,
    h: int,
    now_ms: u64,
    k: nat,
) -> (Seq<Explosion>, Seq<u8>, bool)
    decreases k,
{
    if k == 0 {
        (Seq::<Explosion>::empty(), g, false)
    } else {
        let prev = blasts_pass(es, g, w, h, now_ms, (k - 1) as nat);
        let st = blast_step(es[k - 1], prev.1, w, h, now_ms);
        (prev.0.push(st.0), st.1, prev.2 || st.2)
    }
}

/// Every live tank re-armed for a fresh drop at `now_ms`; the dead are
/// left as they are.
pub open spec fn redrop_live(tanks: Seq<Tank>, now_ms: u64) -> Seq<Tank> {
    Seq::new(
        tanks.len(),
        |i: int|
            if tanks[i].dead {
                tanks[i]
            } else {
                thrown_down(tanks[i], Option::None, now_ms)
            },
    )
}

/// Every live tank's drop stepped in index order, threading the grid: the
/// tanks afterwards (with fall damage applied to the newly placed when the
/// placement pass is not the round's first), the grid, whether every live
/// tank has found footing, and whether any ground was crushed.
pub open spec fn tanks_pass(
    tanks: Seq<Tank>,
    g: Seq<u8>,
    w: int,
    h: int,
    now_ms: u64,
    iteration: u64,
    k: nat,
) -> (Seq<Tank>, Seq<u8>, bool, bool)
    decreases k,
{
    if k == 0 {
        (Seq::<Tank>::empty(), g, true, false)
    } else {
        let prev = tanks_pass(tanks, g, w, h, now_ms, iteration, (k - 1) as nat);
        let t0 = tanks[k - 1];
        if t0.dead {
            (prev.0.push(t0), prev.1, prev.2, prev.3)
        } else {
            let o = drop_outcome(t0, prev.1, w, h, now_ms);
            let t1 = o.0;
            let t2 = if o.2 && iteration > 0 {
                let start = match t0.throwing {
                    Option::Some(th) => th.start_height as int,
                    Option::None => t0.rect.y + t0.rect.h - 1000,
                };
                let d = t1.rect.y + t1.rect.h - 1000 - start;
                Tank { health: sat_sub_u8(t1.health, fall_damage_spec(d)), ..t1 }
            } else {
                t1
            };
            (prev.0.push(t2), o.1, prev.2 && o.2, prev.3 || o.3)
        }
    }
}

/// One tick of the tank-settling phase, in full.  Outside the phase
/// nothing changes.  Within it, every live tank's drop is stepped (grid
/// threaded through, fall damage on the newly placed except on the round's
/// first placement pass); once all live tanks have footing, the newly
/// destroyed are marked dead, the current player is credited the bounty,
/// and the round moves to exploding (some kill), the finish (at most one
/// tank left) or aiming (turn passed on and the pass counter stepped).
pub open spec fn throwing_phase(pre: Round, post: Round) -> bool {
    if pre.state != GameState::TanksThrowing {
        post == pre
    } else {
        let w = pre.landscape.width_spec();
        let h = pre.landscape.height_spec();
        let n = pre.tanks@.len();
        let tp = tanks_pass(pre.tanks@, pre.landscape.grid(), w, h, pre.last_ms, pre.number_of_iteration, n);
        &&& post.landscape.grid() == tp.1
        &&& post.landscape.changed_spec() == (pre.landscape.changed_spec() || tp.3)
        &&& landscape_config_kept(pre.landscape, post.landscape)
        &&& post.width == pre.width
        &&& post.height == pre.height
        &&& post.wind_power == pre.wind_power
        &&& post.last_ms == pre.last_ms
        &&& post.missile == pre.missile
        &&& (if !tp.2 {
            &&& post.tanks@ == tp.0
            &&& post.state == GameState::TanksThrowing
            &&& post.explosions == pre.explosions
            &&& post.players_money == pre.players_money
            &&& post.current_tank == pre.current_tank
            &&& post.number_of_iteration == pre.number_of_iteration
        } else {
            let marked = mark_destroyed(tp.0);
            let kc = kills_count(tp.0, n);
            let pidx = marked[pre.current_tank as int].player_number - 1;
            &&& post.tanks@ == marked
            &&& post.players_money@ == pre.players_money@.update(
                pidx as int,
                sat_add_u32(pre.players_money@[pidx as int], 200 * kc),
            )
            &&& (if kc > 0 {
                &&& post.explosions@ == kill_blasts(tp.0, pre.last_ms, n)
                &&& post.state == GameState::Exploding
                &&& post.current_tank == pre.current_tank
                &&& post.number_of_iteration == pre.number_of_iteration
            } else if live_count(marked, n) <= 1 {
                &&& post.state == GameState::Finish
                &&& post.explosions == pre.explosions
                &&& post.current_tank == pre.current_tank
                &&& post.number_of_iteration == pre.number_of_iteration
            } else {
                &&& post.state == GameState::Aiming
                &&& post.explosions == pre.explosions
                &&& post.number_of_iteration == (if pre.number_of_iteration
                    <= 0xffff_ffff_ffff_fffe {
                    (pre.number_of_iteration + 1) as u64
                } else {
                    pre.number_of_iteration
                })
                &&& post.current_tank as int == (if pre.number_of_iteration > 0 {
                    switched_index(marked, pre.current_tank as int)
                } else {
                    pre.current_tank as int
                })
            })
        })
    }
}

/// Terrain configuration (dimensions, profile, settling state) untouched.
pub open spec fn landscape_config_kept(pre: Landscape, post: Landscape) -> bool {
    &&& post.width_spec() == pre.width_spec()
    &&& post.height_spec() == pre.height_spec()
    &&& post.seed_spec() == pre.seed_spec()
    &&& post.amplitude_spec() == pre.amplitude_spec()
    &&& post.dx_spec() == pre.dx_spec()
    &&& post.subsidence_active_spec() == pre.subsidence_active_spec()
    &&& post.subsidence_started_spec() == pre.subsidence_started_spec()
    &&& post.subsidence_last_rows_spec() == pre.subsidence_last_rows_spec()
}

/// One tick of the projectile phase, in full: the flight advanced against
/// terrain, bottom edge and live tanks; a hit replaces the projectile with
/// a single blast there and moves to exploding.
pub open spec fn flying_phase(pre: Round, post: Round) -> bool {
    if pre.state != GameState::FlyingOfMissile {
        post == pre
    } else {
        match pre.missile {
            Option::None => post == pre,
            Option::Some(m0) => {
                let borders = (pre.width as int, pre.height as int);
                &&& (match flight_outcome(m0, pre.landscape, pre.tanks@, borders, pre.last_ms) {
                    Option::Some(c) => {
                        &&& post.missile is None
                        &&& post.explosions@ == seq![
                            blast_at_point(
                                Point2 { x: (1000 * c.0) as i64, y: (1000 * c.1) as i64 },
                                pre.last_ms,
                            ),
                        ]
                        &&& post.state == GameState::Exploding
                    },
                    Option::None => {
                        &&& post.missile == Some(advanced_missile(m0, borders, pre.last_ms))
                        &&& post.state == GameState::FlyingOfMissile
                        &&& post.explosions == pre.explosions
                    },
                })
                &&& post == (Round {
                    missile: post.missile,
                    explosions: post.explosions,
                    state: post.state,
                    ..pre
                })
            },
        }
    }
}

/// One tick of the explosion phase, in full: every blast advanced in order
/// (carving as its growth completes); once none is visible any more, each
/// live tank takes the summed blast damage, settling is armed and the
/// round moves to subsidence.
pub open spec fn exploding_phase(pre: Round, post: Round) -> bool {
    if pre.state != GameState::Exploding {
        post == pre
    } else {
        let w = pre.landscape.width_spec();
        let h = pre.landscape.height_spec();
        let n = pre.explosions@.len();
        let bp = blasts_pass(pre.explosions@, pre.landscape.grid(), w, h, pre.last_ms, n);
        let alldone = forall|j: int| 0 <= j < n ==> (#[trigger] bp.0[j]).cur_opacity <= 0;
        &&& post.landscape.grid() == bp.1
        &&& post.landscape.changed_spec() == (pre.landscape.changed_spec() || bp.2)
        &&& post.landscape.width_spec() == w
        &&& post.landscape.height_spec() == h
        &&& post.landscape.seed_spec() == pre.landscape.seed_spec()
        &&& post.landscape.amplitude_spec() == pre.landscape.amplitude_spec()
        &&& post.landscape.dx_spec() == pre.landscape.dx_spec()
        &&& post.width == pre.width
        &&& post.height == pre.height
        &&& post.wind_power == pre.wind_power
        &&& post.last_ms == pre.last_ms
        &&& post.missile == pre.missile
        &&& post.players_money == pre.players_money
        &&& post.current_tank == pre.current_tank
        &&& post.number_of_iteration == pre.number_of_iteration
        &&& (if !alldone {
            &&& post.explosions@ == bp.0
            &&& post.state == GameState::Exploding
            &&& post.tanks == pre.tanks
            &&& post.landscape.subsidence_active_spec() == pre.landscape.subsidence_active_spec()
            &&& post.landscape.subsidence_started_spec() == pre.landscape.subsidence_started_spec()
            &&& post.landscape.subsidence_last_rows_spec()
                == pre.landscape.subsidence_last_rows_spec()
        } else {
            &&& post.explosions@.len() == 0
            &&& post.state == GameState::Subsidence
            &&& post.landscape.subsidence_active_spec()
            &&& (pre.landscape.subsidence_active_spec() ==> post.landscape.subsidence_started_spec()
                == pre.landscape.subsidence_started_spec())
            &&& (!pre.landscape.subsidence_active_spec()
                ==> post.landscape.subsidence_started_spec() == pre.last_ms
                && post.landscape.subsidence_last_rows_spec() == 0)
            &&& post.tanks@.len() == pre.tanks@.len()
            &&& (forall|ti: int|
                0 <= ti < pre.tanks@.len() ==> (#[trigger] post.tanks@[ti]) == (
                if pre.tanks@[ti].dead {
                    pre.tanks@[ti]
                } else {
                    Tank {
                        health: sat_sub_health(
                            pre.tanks@[ti].health as int,
                            pre.tanks@[ti],
                            pre.explosions@,
                            n,
                        ),
                        ..pre.tanks@[ti]
                    }
                }))
        })
    }
}

/// The health value left by the summed blasts, as a health byte.
pub open spec fn sat_sub_health(h: int, t: Tank, es: Seq<Explosion>, k: nat) -> u8 {
    health_after_blasts(h, t, es, k) as u8
}

/// One tick of the settling phase, in full: the terrain stepped by its own
/// settling relation; on completion every live tank is re-dropped in place
/// and the round returns to tank settling.
pub open spec fn subsiding_phase(pre: Round, post: Round) -> bool {
    if pre.state != GameState::Subsidence {
        post == pre
    } else {
        exists|fin: bool|
            {
                &&& #[trigger] crate::landscape::settling_step_rel(
                    pre.landscape,
                    post.landscape,
                    pre.last_ms as int,
                    fin,
                )
                &&& post.width == pre.width
                &&& post.height == pre.height
                &&& post.wind_power == pre.wind_power
                &&& post.last_ms == pre.last_ms
                &&& post.missile == pre.missile
                &&& post.explosions == pre.explosions
                &&& post.players_money == pre.players_money
                &&& post.current_tank == pre.current_tank
                &&& post.number_of_iteration == pre.number_of_iteration
                &&& (if fin {
                    &&& post.tanks@ == redrop_live(pre.tanks@, pre.last_ms)
                    &&& post.state == GameState::TanksThrowing
                } else {
                    &&& post.tanks == pre.tanks
                    &&& post.state == GameState::Subsidence
                })
            }
    }
}

/// How one tick may change the tank list: health only drops, the dead stay
/// dead, and identity and count are preserved.
pub open spec fn tanks_degrade(a: Seq<Tank>, b: Seq<Tank>) -> bool {
    &&& a.len() == b.len()
    &&& forall|i: int|
        0 <= i < a.len() ==> (#[trigger] b[i]).health <= a[i].health && (a[i].dead ==> b[i].dead)
            && b[i].player_number == a[i].player_number
}

/// Money never decreases.
pub open spec fn money_grows(a: Seq<u32>, b: Seq<u32>) -> bool {
    &&& a.len() == b.len()
    &&& forall|i: int| 0 <= i < a.len() ==> (#[trigger] b[i]) >= a[i]
}

proof fn lemma_health_after_blasts_congruent(
    h: int,
    t: Tank,
    es1: Seq<Explosion>,
    es2: Seq<Explosion>,
    k: nat,
)
    requires
        k <= es1.len(),
        k <= es2.len(),
        forall|i: int|
            0 <= i < k ==> (#[trigger] es1[i]).pos == es2[i].pos && es1[i].max_radius
                == es2[i].max_radius,
    ensures
        health_after_blasts(h, t, es1, k) == health_after_blasts(h, t, es2, k),
    decreases k,
{
    if k > 0 {
        lemma_health_after_blasts_congruent(h, t, es1, es2, (k - 1) as nat);
    }
}

proof fn lemma_health_after_bounds(h: int, t: Tank, es: Seq<Explosion>, k: nat)
    requires
        h >= 0,
    ensures
        0 <= health_after_blasts(h, t, es, k) <= h,
    decreases k,
{
    if k > 0 {
        lemma_health_after_bounds(h, t, es, (k - 1) as nat);
        crate::geometry::lemma_percent_bounds(
            es[k - 1].pos.x as int,
            es[k - 1].pos.y as int,
            es[k - 1].max_radius as int,
            t.rect,
        );
    }
}

proof fn lemma_blasts_pass_len(es: Seq<Explosion>, g: Seq<u8>, w: int, h: int, now_ms: u64, k: nat)
    ensures
        blasts_pass(es, g, w, h, now_ms, k).0.len() == k,
    decreases k,
{
    if k > 0 {
        lemma_blasts_pass_len(es, g, w, h, now_ms, (k - 1) as nat);
    }
}

proof fn lemma_tanks_pass_len(
    tanks: Seq<Tank>,
    g: Seq<u8>,
    w: int,
    h: int,
    now_ms: u64,
    iteration: u64,
    k: nat,
)
    ensures
        tanks_pass(tanks, g, w, h, now_ms, iteration, k).0.len() == k,
    decreases k,
{
    if k > 0 {
        lemma_tanks_pass_len(tanks, g, w, h, now_ms, iteration, (k - 1) as nat);
    }
}

proof fn lemma_tanks_degrade_trans(a: Seq<Tank>, b: Seq<Tank>, c: Seq<Tank>)
    requires
        tanks_degrade(a, b),
        tanks_degrade(b, c),
    ensures
        tanks_degrade(a, c),
{
}

proof fn lemma_money_grows_trans(a: Seq<u32>, b: Seq<u32>, c: Seq<u32>)
    requires
        money_grows(a, b),
        money_grows(b, c),
    ensures
        money_grows(a, c),
{
}

/// The damage a tank takes from a fall over `path_len` milli-pixels: a
/// tenth of a health point per pixel of drop, rounded, capped at 255.
pub fn fall_damage(path_len: i64) -> (r: u8)
    requires
        0 <= path_len,
    ensures
        r == fall_damage_spec(path_len as int),
{
    if path_len >= 2_545_000 {
        255
    } else {
        (((path_len as u64) + 5_000) / 10_000) as u8
    }
}

/// The x position (milli-pixels) of the tank at list index `i` of a fresh
/// round: one hundred pixels in from the left, plus an even share of the
/// playfield minus two hundred pixels, clamped into the body's working
/// range.
pub open spec fn tank_slot_x(width: u16, count: int, i: int) -> i64 {
    let dspan = width * 1000 - 200_000;
    let num = dspan * i;
    let q = if num >= 0 {
        num / (count - 1)
    } else {
        -((-num) / (count - 1))
    };
    let off = if q > 99_000_000 {
        99_000_000int
    } else if q < -99_000_000 {
        -99_000_000int
    } else {
        q
    };
    let x = 100_000 + off;
    if x > 100_000_000 {
        100_000_000i64
    } else if x < -100_000_000 {
        -100_000_000i64
    } else {
        x as i64
    }
}

/// The player numbers of a tank list, in list order.
pub open spec fn player_numbers_of(tanks: Seq<Tank>) -> Seq<u8> {
    tanks.map_values(|t: Tank| t.player_number)
}

/// The player numbers one to `count`, in order.
pub open spec fn one_to_n(count: int) -> Seq<u8> {
    Seq::new(count as nat, |i: int| (i + 1) as u8)
}

/// One complete turn-cycle: the state machine that drives tanks, missile,
/// explosions and terrain until at most one tank is left alive.
pub struct Round {
    /// Playfield width, pixels.
    pub width: u16,
    /// Playfield height, pixels.
    pub height: u16,
    pub landscape: Landscape,
    /// Wind, reused as the horizontal acceleration of projectiles,
    /// micro-pixels per second squared.
    pub wind_power: i64,
    pub tanks: Vec<Tank>,
    /// Whose turn it is: an index into `tanks`.
    pub current_tank: usize,
    pub state: GameState,
    /// The projectile in flight during `FlyingOfMissile`.
    pub missile: Option<Missile>,
    /// The explosion batch during `Exploding`.
    pub explosions: Vec<Explosion>,
    /// Completed placement passes; no fall damage on the very first one.
    pub number_of_iteration: u64,
    /// Money per player, indexed by player number minus one.
    pub players_money: Vec<u32>,
    /// The latest time the round was advanced, milli-seconds.
    pub last_ms: u64,
}

impl Round {
    pub open spec fn wf(self) -> bool {
        &&& self.landscape.wf()
        &&& self.width as int == self.landscape.width_spec()
        &&& self.height as int == self.landscape.height_spec()
        &&& 1 <= self.tanks.len() <= 255
        &&& self.current_tank < self.tanks.len()
        &&& self.players_money.len() == self.tanks.len()
        &&& forall|i: int|
            0 <= i < self.tanks.len() ==> {
                &&& (#[trigger] self.tanks[i]).wf()
                &&& 1 <= self.tanks[i].player_number <= self.tanks.len()
                &&& (self.tanks[i].throwing matches Some(t) ==> t.last_ms <= self.last_ms)
            }
        &&& (self.missile matches Some(m) ==> m.wf() && m.last_ms <= self.last_ms)
        &&& (self.state == GameState::FlyingOfMissile ==> self.missile is Some)
        &&& (self.state == GameState::Subsidence ==> self.landscape.subsidence_active_spec())
        &&& forall|i: int|
            0 <= i < self.explosions.len() ==> (#[trigger] self.explosions[i]).wf()
                && self.explosions[i].created_ms <= self.last_ms
        &&& (self.landscape.subsidence_active_spec() ==> self.landscape.subsidence_started_spec()
            <= self.last_ms)
        &&& -10_000_000 <= self.wind_power <= 10_000_000
    }

    /// A fresh round: a landscape with a random seed and profile offset
    /// (regenerate it through `generate_landscape` once the elevation
    /// profile is sampled), `count_of_tanks` tanks in shuffled player order
    /// spread across the playfield and already dropping, and a random wind.
    /// Fails exactly when a dimension is zero or fewer than two tanks are
    /// asked for.
    pub fn new(width: u16, height: u16, count_of_tanks: u8, now_ms: u64) -> (r: Result<
        Round,
        String,
    >)
        ensures
            (width == 0 || height == 0 || count_of_tanks < 2) <==> r is Err,
            r matches Ok(round) ==> {
                &&& round.wf()
                &&& round.last_ms == now_ms
                &&& round.state == GameState::TanksThrowing
                &&& round.tanks.len() == count_of_tanks
                &&& round.width == width
                &&& round.height == height
                &&& round.number_of_iteration == 0
                &&& round.missile is None
                &&& round.explosions.len() == 0
                &&& round.players_money.len() == count_of_tanks
                &&& (forall|i: int|
                    0 <= i < count_of_tanks ==> (#[trigger] round.players_money[i]) == 0)
                &&& (forall|i: int|
                    0 <= i < count_of_tanks ==> (#[trigger] round.tanks[i]).health == 100
                        && !round.tanks[i].dead)
                &&& round.current_tank == 0
                &&& round.wind_power % 100_000 == 0
                &&& player_numbers_of(round.tanks@).to_multiset() == one_to_n(
                    count_of_tanks as int,
                ).to_multiset()
                &&& (forall|i: int|
                    0 <= i < count_of_tanks ==> (#[trigger] round.tanks[i]).rect.x == tank_slot_x(
                        width,
                        count_of_tanks as int,
                        i,
                    ) && round.tanks[i].rect.y == 50_000)
            },
    {
        if count_of_tanks < 2 {
            return Err("a round needs at least two tanks".to_string());
        }
        let mut landscape = match Landscape::new(width, height) {
            Ok(l) => l,
            Err(e) => {
                return Err(e);
            },
        };
        landscape.set_seed(random_u32());
        let dx: i32 = if width >= 2 {
            random_below((width / 2) as u32) as i32
        } else {
            0
        };
        landscape.set_dx(dx);

        let count: usize = count_of_tanks as usize;
        let mut player_numbers: Vec<u8> = Vec::new();
        let mut i: usize = 0;
        while i < count
            invariant
                i <= count,
                count <= 255,
                player_numbers@.len() == i,
                forall|j: int| 0 <= j < i ==> #[trigger] player_numbers@[j] == j + 1,
                forall|j: int| 0 <= j < i ==> 1 <= #[trigger] player_numbers@[j] <= count,
            decreases count - i,
        {
            player_numbers.push((i + 1) as u8);
            i = i + 1;
        }
        proof {
            assert(player_numbers@ =~= one_to_n(count as int));
        }
        proof {
            assert forall|x: u8| player_numbers@.contains(x) implies 1 <= x <= count by {
                let j = choose|j: int|
                    0 <= j < player_numbers@.len() && player_numbers@[j] == x;
                assert(1 <= player_numbers@[j] <= count);
            }
        }
        let ghost pre_shuffle = player_numbers@;
        shuffle_players(&mut player_numbers);
        proof {
            assert forall|j: int| 0 <= j < player_numbers@.len() implies 1
                <= #[trigger] player_numbers@[j] <= count by {
                assert(player_numbers@.contains(player_numbers@[j]));
                assert(pre_shuffle.contains(player_numbers@[j]));
            }
        }

        let dspan: i64 = (width as i64) * 1000 - 200_000;
        let mut tanks: Vec<Tank> = Vec::new();
        let mut money: Vec<u32> = Vec::new();
        let mut i: usize = 0;
        while i < count
            invariant
                i <= count,
                count == count_of_tanks as int,
                2 <= count <= 255,
                player_numbers@.len() == count,
                forall|j: int|
                    0 <= j < count ==> 1 <= #[trigger] player_numbers@[j] <= count,
                tanks@.len() == i,
                money@.len() == i,
                -300_000_000 <= dspan <= 300_000_000,
                dspan == width * 1000 - 200_000,
                forall|j: int|
                    0 <= j < i ==> {
                        &&& (#[trigger] tanks@[j]).wf()
                        &&& 1 <= tanks@[j].player_number <= count
                        &&& tanks@[j].player_number == player_numbers@[j]
                        &&& tanks@[j].health == 100
                        &&& !tanks@[j].dead
                        &&& tanks@[j].rect.x == tank_slot_x(width, count as int, j)
                        &&& tanks@[j].rect.y == 50_000
                        &&& (tanks@[j].throwing matches Some(t) ==> t.last_ms == now_ms)
                    },
                forall|j: int| 0 <= j < i ==> #[trigger] money@[j] == 0,
            decreases count - i,
        {
            proof {
                assert(-100_000_000_000 <= (dspan as i128) * (i as i128) <= 100_000_000_000)
                    by (nonlinear_arith)
                    requires
                        -300_000_000 <= dspan <= 300_000_000,
                        0 <= i <= 255,
                ;
            }
            let num: i128 = (dspan as i128) * (i as i128);
            let denom: u128 = (count - 1) as u128;
            let off128: i128 = if num >= 0 {
                ((num as u128) / denom) as i128
            } else {
                -((((-num) as u128) / denom) as i128)
            };
            let off: i64 = if off128 > 99_000_000 {
                99_000_000
            } else if off128 < -99_000_000 {
                -99_000_000
            } else {
                off128 as i64
            };
            let x: i64 = if 100_000 + off > 100_000_000 {
                100_000_000
            } else if 100_000 + off < -100_000_000 {
                -100_000_000
            } else {
                100_000 + off
            };
            proof {
                assert(x as int == tank_slot_x(width, count as int, i as int));
            }
            let pn = player_numbers[i];
            let tank = Tank::new(pn, Point2 { x, y: 50_000 }, now_ms);
            tanks.push(tank);
            money.push(0);
            i = i + 1;
        }

        proof {
            assert(player_numbers_of(tanks@) =~= player_numbers@);
        }
        let wind_tenths = random_wind_tenths();
        proof {
            vstd::arithmetic::div_mod::lemma_mod_multiples_basic(wind_tenths as int, 100_000);
        }
        let round = Round {
            width,
            height,
            landscape,
            wind_power: wind_tenths * 100_000,
            tanks,
            current_tank: 0,
            state: GameState::TanksThrowing,
            missile: None,
            explosions: Vec::new(),
            number_of_iteration: 0,
            players_money: money,
            last_ms: now_ms,
        };
        Ok(round)
    }

    /// Regenerates the terrain from the sampled elevation profile (one
    /// milli-pixel offset per column); see `Landscape::generate`.
    pub fn generate_landscape(&mut self, offsets: &Vec<i64>)
        requires
            old(self).wf(),
            offsets@.len() == old(self).width as int,
            forall|i: int|
                0 <= i < offsets@.len() ==> -1_000_000_000 <= #[trigger] offsets@[i]
                    <= 1_000_000_000,
        ensures
            final(self).wf(),
            *final(self) == (Round { landscape: final(self).landscape, ..*old(self) }),
            forall|x: int, y: int|
                #[trigger] final(self).landscape.cell_filled(x, y) == (0 <= x < old(
                    self,
                ).landscape.width_spec() && 0 <= y < old(self).landscape.height_spec() && y
                    >= crate::landscape::boundary_spec(
                    old(self).landscape.height_spec(),
                    offsets@[x] as int,
                )),
    {
        let ghost l0 = self.landscape;
        self.landscape.generate(offsets);
        proof {
            crate::landscape::lemma_same_config_dims(self.landscape, l0);
        }
    }

    /// The number of tanks still alive.
    pub fn live_tanks_count(&self) -> (r: usize)
        ensures
            r == live_count(self.tanks@, self.tanks@.len()),
            r <= self.tanks.len(),
    {
        let mut n: usize = 0;
        let mut i: usize = 0;
        while i < self.tanks.len()
            invariant
                i <= self.tanks@.len(),
                n <= i,
                n == live_count(self.tanks@, i as nat),
            decreases self.tanks@.len() - i,
        {
            if !self.tanks[i].dead {
                n = n + 1;
            }
            i = i + 1;
        }
        n
    }

    /// The live explosions of the current batch, in order, for drawing.
    pub fn explosions(&self) -> (r: Vec<Explosion>)
        ensures
            r@ == live_blasts(self.explosions@, self.explosions@.len()),
            forall|i: int| 0 <= i < r@.len() ==> (#[trigger] r@[i]).cur_opacity > 0,
    {
        let mut out: Vec<Explosion> = Vec::new();
        let mut i: usize = 0;
        while i < self.explosions.len()
            invariant
                i <= self.explosions@.len(),
                out@ == live_blasts(self.explosions@, i as nat),
                forall|j: int| 0 <= j < out@.len() ==> (#[trigger] out@[j]).cur_opacity > 0,
            decreases self.explosions@.len() - i,
        {
            let e = self.explosions[i];
            if e.is_life() {
                out.push(e);
            }
            i = i + 1;
        }
        out
    }

    /// The player number whose turn it is (1 when the index is out of
    /// range).
    pub fn player_number(&self) -> (r: u8)
        ensures
            r == (if self.current_tank < self.tanks.len() {
                self.tanks[self.current_tank as int].player_number
            } else {
                1u8
            }),
    {
        if self.current_tank < self.tanks.len() {
            self.tanks[self.current_tank].player_number
        } else {
            1
        }
    }

    /// The current tank's gun angle in milli-degrees (90000 when the index
    /// is out of range).
    pub fn gun_angle(&self) -> (r: i64)
        ensures
            r == (if self.current_tank < self.tanks.len() {
                self.tanks[self.current_tank as int].angle
            } else {
                90_000i64
            }),
    {
        if self.current_tank < self.tanks.len() {
            self.tanks[self.current_tank].angle
        } else {
            90_000
        }
    }

    /// The current tank's gun power in milli-units (0 when the index is out
    /// of range).
    pub fn gun_power(&self) -> (r: i64)
        ensures
            r == (if self.current_tank < self.tanks.len() {
                self.tanks[self.current_tank as int].power
            } else {
                0i64
            }),
    {
        if self.current_tank < self.tanks.len() {
            self.tanks[self.current_tank].power
        } else {
            0
        }
    }

    /// The current tank's health (0 when the index is out of range).
    pub fn health(&self) -> (r: u8)
        ensures
            r == (if self.current_tank < self.tanks.len() {
                self.tanks[self.current_tank as int].health
            } else {
                0u8
            }),
    {
        if self.current_tank < self.tanks.len() {
            self.tanks[self.current_tank].health
        } else {
            0
        }
    }

    /// The money of the player with the given (one-based) number, or zero
    /// for an unknown player.
    pub fn money_of(&self, player_number: u8) -> (r: u32)
        ensures
            1 <= player_number <= self.players_money.len() ==> r == self.players_money[
                player_number - 1],
    {
        if player_number >= 1 && (player_number as usize) <= self.players_money.len() {
            self.players_money[(player_number - 1) as usize]
        } else {
            0
        }
    }

    /// Turns the current tank's gun by `delta` milli-degrees, clamped to
    /// straight left/right.
    pub fn inc_gun_angle(&mut self, delta: i64)
        requires
            old(self).wf(),
        ensures
            final(self).wf(),
            final(self).tanks[old(self).current_tank as int].angle == {
                let a = old(self).tanks[old(self).current_tank as int].angle + delta;
                if a > 90_000 {
                    90_000int
                } else if a < -90_000 {
                    -90_000int
                } else {
                    a
                }
            },
            *final(self) == (Round { tanks: final(self).tanks, ..*old(self) }),
            final(self).tanks@.len() == old(self).tanks@.len(),
            forall|i: int|
                0 <= i < old(self).tanks@.len() && i != old(self).current_tank
                    ==> #[trigger] final(self).tanks@[i] == old(self).tanks@[i],
            final(self).tanks[old(self).current_tank as int] == (Tank {
                angle: final(self).tanks[old(self).current_tank as int].angle as i64,
                ..old(self).tanks[old(self).current_tank as int]
            }),
    {
        let idx = self.current_tank;
        let mut t = self.tanks[idx];
        let a: i128 = (t.angle as i128) + (delta as i128);
        t.angle = if a > 90_000 {
            90_000
        } else if a < -90_000 {
            -90_000
        } else {
            a as i64
        };
        self.tanks.set(idx, t);
    }

    /// Changes the current tank's gun power by `delta` milli-units, clamped
    /// to `[0, 100000]`.
    pub fn inc_gun_power(&mut self, delta: i64)
        requires
            old(self).wf(),
        ensures
            final(self).wf(),
            final(self).tanks[old(self).current_tank as int].power == {
                let p = old(self).tanks[old(self).current_tank as int].power + delta;
                if p > 100_000 {
                    100_000int
                } else if p < 0 {
                    0int
                } else {
                    p
                }
            },
            *final(self) == (Round { tanks: final(self).tanks, ..*old(self) }),
            final(self).tanks@.len() == old(self).tanks@.len(),
            forall|i: int|
                0 <= i < old(self).tanks@.len() && i != old(self).current_tank
                    ==> #[trigger] final(self).tanks@[i] == old(self).tanks@[i],
            final(self).tanks[old(self).current_tank as int] == (Tank {
                power: final(self).tanks[old(self).current_tank as int].power as i64,
                ..old(self).tanks[old(self).current_tank as int]
            }),
    {
        let idx = self.current_tank;
        let mut t = self.tanks[idx];
        let p: i128 = (t.power as i128) + (delta as i128);
        t.power = if p > 100_000 {
            100_000
        } else if p < 0 {
            0
        } else {
            p as i64
        };
        self.tanks.set(idx, t);
    }

    /// Fires the current tank's gun: only while aiming, this creates a
    /// projectile under the current wind and gravity and moves the round to
    /// the flying phase.
    pub fn shoot(&mut self, now_ms: u64)
        requires
            old(self).wf(),
            old(self).last_ms <= now_ms,
        ensures
            final(self).wf(),
            old(self).state != GameState::Aiming ==> *final(self) == *old(self),
            old(self).state == GameState::Aiming ==> {
                let t = old(self).tanks[old(self).current_tank as int];
                &&& final(self).state == GameState::FlyingOfMissile
                &&& final(self).last_ms == now_ms
                &&& final(self).tanks == old(self).tanks
                &&& final(self).landscape == old(self).landscape
                &&& (final(self).missile matches Some(m) && m.created_ms == now_ms
                    && m.ballistics.cursor == 0 && m.ballistics.acceleration == (Vector2 {
                    x: old(self).wind_power,
                    y: crate::G,
                }) && m.ballistics.pos0.x == t.rect.x + t.rect.w / 2 + 21
                    * crate::num::sin_milli_spec(t.angle as int) && m.ballistics.pos0.y == t.rect.y
                    + t.rect.h / 2 - 21 * crate::num::cos_milli_spec(t.angle as int)
                    && m.ballistics.velocity0.x == crate::tank::POWER_SCALE * t.power
                    * crate::num::sin_milli_spec(t.angle as int) && m.ballistics.velocity0.y == -(
                crate::tank::POWER_SCALE * t.power * crate::num::cos_milli_spec(t.angle as int)))
            },
    {
        if !matches!(self.state, GameState::Aiming) {
            return ;
        }
        proof {
            crate::landscape::lemma_wf_bounds(self.landscape);
        }
        let t = self.tanks[self.current_tank];
        let acceleration = Vector2 { x: self.wind_power, y: crate::G };
        let m = t.shoot(acceleration, now_ms);
        self.missile = Some(m);
        self.state = GameState::FlyingOfMissile;
        self.last_ms = now_ms;
    }

    /// Picks the next live tank after the current one, wrapping around;
    /// with no other live tank the index is unchanged.
    fn switch_current_tank(&mut self)
        requires
            old(self).wf(),
        ensures
            final(self).wf(),
            *final(self) == (Round { current_tank: final(self).current_tank, ..*old(self) }),
            final(self).current_tank < final(self).tanks.len(),
            final(self).current_tank as int == switched_index(
                old(self).tanks@,
                old(self).current_tank as int,
            ),
    {
        let len = self.tanks.len();
        let mut current = self.current_tank;
        let mut k: usize = 0;
        while k < len
            invariant
                *self == *old(self),
                self.wf(),
                len == self.tanks@.len(),
                1 <= len,
                current < len,
                self.current_tank < len,
                k <= len,
                next_live_index(self.tanks@, old(self).current_tank as int, len as nat)
                    == next_live_index(self.tanks@, current as int, (len - k) as nat),
            decreases len - k,
        {
            current = current + 1;
            if current >= len {
                current = 0;
            }
            if !self.tanks[current].dead {
                self.current_tank = current;
                proof {
                    assert(next_live_index(self.tanks@, old(self).current_tank as int, len as nat)
                        == current as int);
                }
                return ;
            }
            k = k + 1;
        }
        proof {
            assert(next_live_index(self.tanks@, old(self).current_tank as int, len as nat) == -1);
        }
    }

    /// Advances the whole round one tick: steps falling tanks, the
    /// projectile in flight, the explosion batch and terrain settling, each
    /// phase only when it is the active one, and performs the phase
    /// transitions of the state machine.  Returns the phase the round is in
    /// afterwards.
    pub fn update(&mut self, now_ms: u64) -> (r: GameState)
        requires
            old(self).wf(),
            old(self).last_ms <= now_ms,
        ensures
            final(self).wf(),
            final(self).last_ms == now_ms,
            r == final(self).state,
            final(self).width == old(self).width,
            final(self).height == old(self).height,
            tanks_degrade(old(self).tanks@, final(self).tanks@),
            money_grows(old(self).players_money@, final(self).players_money@),
            old(self).state == GameState::Finish ==> final(self).state == GameState::Finish,
            old(self).state == GameState::Aiming ==> final(self).state == GameState::Aiming,
            exists|mid1: Round, mid2: Round, mid3: Round|
                #![trigger flying_phase(mid1, mid2), exploding_phase(mid2, mid3)]
                {
                    &&& throwing_phase((Round { last_ms: now_ms, ..*old(self) }), mid1)
                    &&& flying_phase(mid1, mid2)
                    &&& exploding_phase(mid2, mid3)
                    &&& subsiding_phase(mid3, *final(self))
                },
    {
        self.last_ms = now_ms;
        let ghost s0 = *self;
        self.update_tanks(now_ms);
        let ghost s1 = *self;
        self.update_missile(now_ms);
        let ghost s2 = *self;
        self.update_explosions(now_ms);
        let ghost s3 = *self;
        self.update_landscape(now_ms);
        proof {
            lemma_tanks_degrade_trans(s0.tanks@, s1.tanks@, s2.tanks@);
            lemma_tanks_degrade_trans(s0.tanks@, s2.tanks@, s3.tanks@);
            lemma_tanks_degrade_trans(s0.tanks@, s3.tanks@, self.tanks@);
            lemma_money_grows_trans(s0.players_money@, s1.players_money@, s2.players_money@);
            lemma_money_grows_trans(s0.players_money@, s2.players_money@, s3.players_money@);
            lemma_money_grows_trans(s0.players_money@, s3.players_money@, self.players_money@);
            assert(throwing_phase(s0, s1) && flying_phase(s1, s2) && exploding_phase(s2, s3)
                && subsiding_phase(s3, *self));
        }
        self.state
    }

    /// While tanks are falling: steps every live tank, applies fall damage
    /// once all have found footing (except on the very first placement
    /// pass), marks destroyed tanks dead (crediting the current player and
    /// spawning one explosion per kill), and moves on to exploding,
    /// aiming, or the finish.
    fn update_tanks(&mut self, now_ms: u64)
        requires
            old(self).wf(),
            old(self).last_ms == now_ms,
        ensures
            final(self).wf(),
            final(self).last_ms == now_ms,
            final(self).width == old(self).width,
            final(self).height == old(self).height,
            final(self).tanks.len() == old(self).tanks.len(),
            tanks_degrade(old(self).tanks@, final(self).tanks@),
            money_grows(old(self).players_money@, final(self).players_money@),
            old(self).state != GameState::TanksThrowing ==> *final(self) == *old(self),
            old(self).state == GameState::TanksThrowing ==> (final(self).state
                == GameState::TanksThrowing || final(self).state == GameState::Exploding
                || final(self).state == GameState::Finish || final(self).state
                == GameState::Aiming),
            throwing_phase(*old(self), *final(self)),
    {
        if !matches!(self.state, GameState::TanksThrowing) {
            return ;
        }
        let ghost r0 = *self;
        let ghost ww = r0.landscape.width_spec();
        let ghost hh = r0.landscape.height_spec();
        let ghost nn = r0.tanks@.len();
        let mut all_placed = true;
        let mut i: usize = 0;
        while i < self.tanks.len()
            invariant
                self.wf(),
                self.last_ms == now_ms,
                self.tanks@.len() == r0.tanks@.len(),
                nn == r0.tanks@.len(),
                ww == r0.landscape.width_spec(),
                hh == r0.landscape.height_spec(),
                self.width == r0.width,
                self.height == r0.height,
                self.state == r0.state,
                self.missile == r0.missile,
                self.wind_power == r0.wind_power,
                self.current_tank == r0.current_tank,
                self.number_of_iteration == r0.number_of_iteration,
                self.explosions == r0.explosions,
                tanks_degrade(r0.tanks@, self.tanks@),
                self.players_money == r0.players_money,
                self.landscape.width_spec() == ww,
                self.landscape.height_spec() == hh,
                self.landscape.seed_spec() == r0.landscape.seed_spec(),
                self.landscape.amplitude_spec() == r0.landscape.amplitude_spec(),
                self.landscape.dx_spec() == r0.landscape.dx_spec(),
                self.landscape.subsidence_active_spec()
                    == r0.landscape.subsidence_active_spec(),
                self.landscape.subsidence_started_spec()
                    == r0.landscape.subsidence_started_spec(),
                self.landscape.subsidence_last_rows_spec()
                    == r0.landscape.subsidence_last_rows_spec(),
                self.landscape.grid() == tanks_pass(
                    r0.tanks@,
                    r0.landscape.grid(),
                    ww,
                    hh,
                    now_ms,
                    r0.number_of_iteration,
                    i as nat,
                ).1,
                self.landscape.changed_spec() == (r0.landscape.changed_spec() || tanks_pass(
                    r0.tanks@,
                    r0.landscape.grid(),
                    ww,
                    hh,
                    now_ms,
                    r0.number_of_iteration,
                    i as nat,
                ).3),
                all_placed == tanks_pass(
                    r0.tanks@,
                    r0.landscape.grid(),
                    ww,
                    hh,
                    now_ms,
                    r0.number_of_iteration,
                    i as nat,
                ).2,
                forall|j: int|
                    0 <= j < i ==> (#[trigger] self.tanks@[j]) == tanks_pass(
                        r0.tanks@,
                        r0.landscape.grid(),
                        ww,
                        hh,
                        now_ms,
                        r0.number_of_iteration,
                        i as nat,
                    ).0[j],
                forall|j: int| i <= j < self.tanks@.len() ==> self.tanks@[j] == r0.tanks@[j],
                i <= self.tanks@.len(),
            decreases self.tanks@.len() - i,
        {
            proof {
                lemma_tanks_pass_len(
                    r0.tanks@,
                    r0.landscape.grid(),
                    ww,
                    hh,
                    now_ms,
                    r0.number_of_iteration,
                    i as nat,
                );
                lemma_tanks_pass_len(
                    r0.tanks@,
                    r0.landscape.grid(),
                    ww,
                    hh,
                    now_ms,
                    r0.number_of_iteration,
                    (i + 1) as nat,
                );
            }
            let ghost tpp = tanks_pass(
                r0.tanks@,
                r0.landscape.grid(),
                ww,
                hh,
                now_ms,
                r0.number_of_iteration,
                i as nat,
            );
            let t0 = self.tanks[i];
            if !t0.dead {
                let mut t = t0;
                let ghost lpre = self.landscape;
                let st = t.update(&mut self.landscape, now_ms);
                proof {
                    crate::landscape::lemma_same_config_dims(self.landscape, lpre);
                }
                match st {
                    TankState::Placed(path_len) => {
                        if self.number_of_iteration > 0 {
                            let dmg: u8 = fall_damage(path_len);
                            t.damage(dmg);
                        }
                    },
                    TankState::Dropped => {
                        all_placed = false;
                    },
                }
                self.tanks.set(i, t);
                proof {
                    let o = drop_outcome(t0, tpp.1, ww, hh, now_ms);
                    assert(t == tanks_pass(
                        r0.tanks@,
                        r0.landscape.grid(),
                        ww,
                        hh,
                        now_ms,
                        r0.number_of_iteration,
                        (i + 1) as nat,
                    ).0[i as int]);
                }
            }
            i = i + 1;
        }
        let ghost tp = tanks_pass(
            r0.tanks@,
            r0.landscape.grid(),
            ww,
            hh,
            now_ms,
            r0.number_of_iteration,
            nn as nat,
        );
        proof {
            lemma_tanks_pass_len(
                r0.tanks@,
                r0.landscape.grid(),
                ww,
                hh,
                now_ms,
                r0.number_of_iteration,
                nn as nat,
            );
            assert(self.tanks@ =~= tp.0);
        }
        if all_placed {
            let explosions = self.remove_destroyed_tanks(now_ms);
            if explosions.len() > 0 {
                self.explosions = explosions;
                self.state = GameState::Exploding;
            } else if self.live_tanks_count() <= 1 {
                self.state = GameState::Finish;
            } else {
                if self.number_of_iteration > 0 {
                    self.switch_current_tank();
                }
                self.number_of_iteration = if self.number_of_iteration
                    <= 0xffff_ffff_ffff_fffe {
                    self.number_of_iteration + 1
                } else {
                    self.number_of_iteration
                };
                self.state = GameState::Aiming;
            }
        }
    }

    /// Marks every tank whose health has reached zero as dead, credits the
    /// current player a fixed bounty per kill, and returns one explosion at
    /// each destroyed tank's center.
    fn remove_destroyed_tanks(&mut self, now_ms: u64) -> (explosions: Vec<Explosion>)
        requires
            old(self).wf(),
            old(self).last_ms == now_ms,
        ensures
            final(self).wf(),
            final(self).last_ms == now_ms,
            final(self).width == old(self).width,
            final(self).height == old(self).height,
            final(self).state == old(self).state,
            final(self).landscape == old(self).landscape,
            final(self).tanks.len() == old(self).tanks.len(),
            final(self).missile == old(self).missile,
            tanks_degrade(old(self).tanks@, final(self).tanks@),
            money_grows(old(self).players_money@, final(self).players_money@),
            forall|i: int|
                0 <= i < explosions@.len() ==> (#[trigger] explosions@[i]).wf()
                    && explosions@[i].created_ms == now_ms,
            final(self).tanks@ == mark_destroyed(old(self).tanks@),
            explosions@ == kill_blasts(old(self).tanks@, now_ms, old(self).tanks@.len() as nat),
            explosions@.len() == kills_count(old(self).tanks@, old(self).tanks@.len() as nat),
            final(self).current_tank == old(self).current_tank,
            final(self).wind_power == old(self).wind_power,
            final(self).number_of_iteration == old(self).number_of_iteration,
            final(self).explosions == old(self).explosions,
            ({
                let pidx = mark_destroyed(old(self).tanks@)[old(
                    self,
                ).current_tank as int].player_number - 1;
                final(self).players_money@ == old(self).players_money@.update(
                    pidx as int,
                    sat_add_u32(
                        old(self).players_money@[pidx as int],
                        200 * kills_count(old(self).tanks@, old(self).tanks@.len() as nat),
                    ),
                )
            }),
    {
        let ghost r0 = *self;
        let mut explosions: Vec<Explosion> = Vec::new();
        let mut destroyed: u32 = 0;
        let mut i: usize = 0;
        while i < self.tanks.len()
            invariant
                self.wf(),
                self.last_ms == now_ms,
                self.tanks@.len() == r0.tanks@.len(),
                self.width == r0.width,
                self.height == r0.height,
                self.state == r0.state,
                self.landscape == r0.landscape,
                self.missile == r0.missile,
                self.players_money == r0.players_money,
                tanks_degrade(r0.tanks@, self.tanks@),
                self.current_tank == r0.current_tank,
                self.wind_power == r0.wind_power,
                self.number_of_iteration == r0.number_of_iteration,
                self.explosions == r0.explosions,
                i <= self.tanks@.len(),
                destroyed <= i,
                destroyed as int == kills_count(r0.tanks@, i as nat),
                explosions@.len() == destroyed,
                explosions@ == kill_blasts(r0.tanks@, now_ms, i as nat),
                forall|j: int|
                    0 <= j < i ==> (#[trigger] self.tanks@[j]) == mark_destroyed(r0.tanks@)[j],
                forall|j: int| i <= j < self.tanks@.len() ==> self.tanks@[j] == r0.tanks@[j],
                forall|j: int|
                    0 <= j < explosions@.len() ==> (#[trigger] explosions@[j]).wf()
                        && explosions@[j].created_ms == now_ms,
            decreases self.tanks@.len() - i,
        {
            let t0 = self.tanks[i];
            if t0.health == 0 && !t0.dead {
                let mut t = t0;
                t.dead = true;
                self.tanks.set(i, t);
                let center = Point2 { x: t.rect.x + t.rect.w / 2, y: t.rect.y + t.rect.h / 2 };
                explosions.push(Explosion::new(center, 50_000, now_ms));
                destroyed = destroyed + 1;
            }
            i = i + 1;
        }
        proof {
            assert(self.tanks@ =~= mark_destroyed(r0.tanks@));
        }
        let pn = self.player_number();
        if pn >= 1 && (pn as usize) <= self.players_money.len() {
            let idx = (pn - 1) as usize;
            let old_money = self.players_money[idx];
            let bounty: u32 = 200 * destroyed;
            let new_money: u32 = if old_money <= 0xffff_ffffu32 - bounty {
                old_money + bounty
            } else {
                0xffff_ffff
            };
            self.players_money.set(idx, new_money);
        }
        explosions
    }

    /// While a projectile is flying: advances it against the terrain and
    /// the live tanks' silhouettes; a hit (or reaching the bottom edge)
    /// spawns a single explosion there and moves the round to exploding.
    fn update_missile(&mut self, now_ms: u64)
        requires
            old(self).wf(),
            old(self).last_ms == now_ms,
        ensures
            final(self).wf(),
            final(self).last_ms == now_ms,
            final(self).width == old(self).width,
            final(self).height == old(self).height,
            final(self).tanks.len() == old(self).tanks.len(),
            final(self).tanks == old(self).tanks,
            final(self).players_money == old(self).players_money,
            old(self).state != GameState::FlyingOfMissile ==> *final(self) == *old(self),
            old(self).state == GameState::FlyingOfMissile ==> (final(self).state
                == GameState::FlyingOfMissile || final(self).state == GameState::Exploding),
            flying_phase(*old(self), *final(self)),
    {
        if !matches!(self.state, GameState::FlyingOfMissile) {
            return ;
        }
        match self.missile {
            Option::None => {},
            Option::Some(m0) => {
                proof {
                    crate::landscape::lemma_wf_bounds(self.landscape);
                }
                let mut m = m0;
                let borders: (i64, i64) = (self.width as i64, self.height as i64);
                let hit = m.update(now_ms, borders, &self.landscape, &self.tanks);
                match hit {
                    Option::Some(pos) => {
                        self.missile = None;
                        let mut batch: Vec<Explosion> = Vec::new();
                        batch.push(Explosion::new(pos, 50_000, now_ms));
                        self.explosions = batch;
                        self.state = GameState::Exploding;
                        proof {
                            assert(self.explosions@ =~= seq![
                                blast_at_point(pos, now_ms),
                            ]);
                        }
                    },
                    Option::None => {
                        self.missile = Some(m);
                    },
                }
            },
        }
    }

    /// While explosions are running: advances each one (carving the terrain
    /// as they complete); once none is alive any more, applies blast damage
    /// to every live tank as the sum of each explosion's overlap with its
    /// body, arms terrain settling and moves the round to subsidence.
    fn update_explosions(&mut self, now_ms: u64)
        requires
            old(self).wf(),
            old(self).last_ms == now_ms,
        ensures
            final(self).wf(),
            final(self).last_ms == now_ms,
            final(self).width == old(self).width,
            final(self).height == old(self).height,
            final(self).tanks.len() == old(self).tanks.len(),
            tanks_degrade(old(self).tanks@, final(self).tanks@),
            final(self).players_money == old(self).players_money,
            old(self).state != GameState::Exploding ==> *final(self) == *old(self),
            old(self).state == GameState::Exploding ==> (final(self).state == GameState::Exploding
                || final(self).state == GameState::Subsidence),
            exploding_phase(*old(self), *final(self)),
    {
        if !matches!(self.state, GameState::Exploding) {
            return ;
        }
        let ghost r0 = *self;
        let ghost ww = r0.landscape.width_spec();
        let ghost hh = r0.landscape.height_spec();
        let ghost nn = r0.explosions@.len();
        proof {
            lemma_blasts_pass_len(r0.explosions@, r0.landscape.grid(), ww, hh, now_ms, nn as nat);
        }
        let mut alive: usize = 0;
        let mut i: usize = 0;
        while i < self.explosions.len()
            invariant
                self.wf(),
                self.last_ms == now_ms,
                self.tanks@.len() == r0.tanks@.len(),
                self.explosions@.len() == r0.explosions@.len(),
                nn == r0.explosions@.len(),
                ww == r0.landscape.width_spec(),
                hh == r0.landscape.height_spec(),
                self.width == r0.width,
                self.height == r0.height,
                self.state == r0.state,
                self.missile == r0.missile,
                self.tanks == r0.tanks,
                self.players_money == r0.players_money,
                self.wind_power == r0.wind_power,
                self.current_tank == r0.current_tank,
                self.number_of_iteration == r0.number_of_iteration,
                self.landscape.width_spec() == ww,
                self.landscape.height_spec() == hh,
                self.landscape.seed_spec() == r0.landscape.seed_spec(),
                self.landscape.amplitude_spec() == r0.landscape.amplitude_spec(),
                self.landscape.dx_spec() == r0.landscape.dx_spec(),
                self.landscape.subsidence_active_spec()
                    == r0.landscape.subsidence_active_spec(),
                self.landscape.subsidence_started_spec()
                    == r0.landscape.subsidence_started_spec(),
                self.landscape.subsidence_last_rows_spec()
                    == r0.landscape.subsidence_last_rows_spec(),
                self.landscape.grid() == blasts_pass(
                    r0.explosions@,
                    r0.landscape.grid(),
                    ww,
                    hh,
                    now_ms,
                    i as nat,
                ).1,
                self.landscape.changed_spec() == (r0.landscape.changed_spec() || blasts_pass(
                    r0.explosions@,
                    r0.landscape.grid(),
                    ww,
                    hh,
                    now_ms,
                    i as nat,
                ).2),
                forall|j: int|
                    0 <= j < i ==> (#[trigger] self.explosions@[j]) == blasts_pass(
                        r0.explosions@,
                        r0.landscape.grid(),
                        ww,
                        hh,
                        now_ms,
                        i as nat,
                    ).0[j],
                forall|j: int|
                    i <= j < self.explosions@.len() ==> (#[trigger] self.explosions@[j])
                        == r0.explosions@[j],
                forall|j: int|
                    0 <= j < self.explosions@.len() ==> (#[trigger] self.explosions@[j]).pos
                        == r0.explosions@[j].pos && self.explosions@[j].max_radius
                        == r0.explosions@[j].max_radius,
                alive == 0 ==> (forall|j: int|
                    0 <= j < i ==> (#[trigger] blasts_pass(
                        r0.explosions@,
                        r0.landscape.grid(),
                        ww,
                        hh,
                        now_ms,
                        i as nat,
                    ).0[j]).cur_opacity <= 0),
                alive > 0 ==> (exists|j: int|
                    0 <= j < i && (#[trigger] blasts_pass(
                        r0.explosions@,
                        r0.landscape.grid(),
                        ww,
                        hh,
                        now_ms,
                        i as nat,
                    ).0[j]).cur_opacity > 0),
                i <= self.explosions@.len(),
                alive <= i,
            decreases self.explosions@.len() - i,
        {
            proof {
                lemma_blasts_pass_len(
                    r0.explosions@,
                    r0.landscape.grid(),
                    ww,
                    hh,
                    now_ms,
                    i as nat,
                );
                lemma_blasts_pass_len(
                    r0.explosions@,
                    r0.landscape.grid(),
                    ww,
                    hh,
                    now_ms,
                    (i + 1) as nat,
                );
            }
            let e0 = self.explosions[i];
            let mut e = e0;
            let ghost lpre = self.landscape;
            let finished = e.update(&mut self.landscape, now_ms);
            proof {
                crate::landscape::lemma_same_config_dims(self.landscape, lpre);
                let bpp = blasts_pass(r0.explosions@, r0.landscape.grid(), ww, hh, now_ms, i as nat);
                let st = blast_step(e0, bpp.1, ww, hh, now_ms);
                assert(blasts_pass(
                    r0.explosions@,
                    r0.landscape.grid(),
                    ww,
                    hh,
                    now_ms,
                    (i + 1) as nat,
                ) == (bpp.0.push(st.0), st.1, bpp.2 || st.2));
                assert(e == st.0);
                if alive > 0 {
                    let jw = choose|j: int|
                        0 <= j < i && (#[trigger] bpp.0[j]).cur_opacity > 0;
                    assert(blasts_pass(
                        r0.explosions@,
                        r0.landscape.grid(),
                        ww,
                        hh,
                        now_ms,
                        (i + 1) as nat,
                    ).0[jw].cur_opacity > 0);
                }
            }
            self.explosions.set(i, e);
            if !finished {
                alive = alive + 1;
                proof {
                    assert(blasts_pass(
                        r0.explosions@,
                        r0.landscape.grid(),
                        ww,
                        hh,
                        now_ms,
                        (i + 1) as nat,
                    ).0[i as int].cur_opacity > 0);
                }
            }
            i = i + 1;
        }
        let ghost bp = blasts_pass(r0.explosions@, r0.landscape.grid(), ww, hh, now_ms, nn as nat);
        proof {
            assert(self.explosions@ =~= bp.0);
        }
        if alive == 0 {
            let ghost esq = self.explosions@;
            let ghost lpass = self.landscape;
            let ghost tanks_pre = self.tanks@;
            let mut ti: usize = 0;
            while ti < self.tanks.len()
                invariant
                    self.wf(),
                    self.last_ms == now_ms,
                    self.tanks@.len() == r0.tanks@.len(),
                    self.width == r0.width,
                    self.height == r0.height,
                    self.state == r0.state,
                    self.missile == r0.missile,
                    self.players_money == r0.players_money,
                    self.wind_power == r0.wind_power,
                    self.current_tank == r0.current_tank,
                    self.number_of_iteration == r0.number_of_iteration,
                    tanks_degrade(r0.tanks@, self.tanks@),
                    self.explosions@ == esq,
                    self.landscape == lpass,
                    tanks_pre == r0.tanks@,
                    nn == r0.explosions@.len(),
                    esq.len() == nn,
                    forall|j: int|
                        0 <= j < esq.len() ==> (#[trigger] esq[j]).pos == r0.explosions@[j].pos
                            && esq[j].max_radius == r0.explosions@[j].max_radius,
                    forall|tj: int|
                        0 <= tj < self.tanks@.len() && tj < ti && !tanks_pre[tj].dead
                            ==> (#[trigger] self.tanks@[tj]).health as int == health_after_blasts(
                            tanks_pre[tj].health as int,
                            tanks_pre[tj],
                            esq,
                            esq.len() as nat,
                        ),
                    forall|tj: int|
                        0 <= tj < self.tanks@.len() && !(ti <= tj) ==> (
                        #[trigger] self.tanks@[tj]) == (if tanks_pre[tj].dead {
                            tanks_pre[tj]
                        } else {
                            Tank {
                                health: sat_sub_health(
                                    tanks_pre[tj].health as int,
                                    tanks_pre[tj],
                                    esq,
                                    esq.len() as nat,
                                ),
                                ..tanks_pre[tj]
                            }
                        }),
                    forall|tj: int|
                        ti <= tj < self.tanks@.len() ==> #[trigger] self.tanks@[tj]
                            == tanks_pre[tj],
                    ti <= self.tanks@.len(),
                decreases self.tanks@.len() - ti,
            {
                let t0 = self.tanks[ti];
                if !t0.dead {
                    let mut t = t0;
                    let mut ei: usize = 0;
                    while ei < self.explosions.len()
                        invariant
                            self.wf(),
                            t.wf(),
                            t.rect.w == 41_000,
                            t.rect.h == 41_000,
                            (t.throwing matches Some(tt) ==> tt.last_ms <= self.last_ms),
                            1 <= t.player_number <= self.tanks@.len(),
                            t.health <= t0.health,
                            t.dead == t0.dead,
                            t.player_number == t0.player_number,
                            t.rect == t0.rect,
                            t == (Tank { health: t.health, ..t0 }),
                            t.health as int == health_after_blasts(
                                t0.health as int,
                                t0,
                                esq,
                                ei as nat,
                            ),
                            self.explosions@ == esq,
                            t0 == self.tanks@[ti as int],
                            ti < self.tanks@.len(),
                            ei <= self.explosions@.len(),
                        decreases self.explosions@.len() - ei,
                    {
                        let e = self.explosions[ei];
                        let percents = e.get_intersection_percents(t.rect);
                        t.damage(percents);
                        ei = ei + 1;
                    }
                    self.tanks.set(ti, t);
                }
                ti = ti + 1;
            }
            proof {
                assert forall|tj: int|
                    0 <= tj < r0.tanks@.len() && !r0.tanks@[tj].dead implies (
                #[trigger] self.tanks@[tj]).health == health_after_blasts(
                    r0.tanks@[tj].health as int,
                    r0.tanks@[tj],
                    r0.explosions@,
                    r0.explosions@.len(),
                ) by {
                    lemma_health_after_blasts_congruent(
                        r0.tanks@[tj].health as int,
                        r0.tanks@[tj],
                        esq,
                        r0.explosions@,
                        r0.explosions@.len() as nat,
                    );
                }
                assert forall|tj: int| 0 <= tj < r0.tanks@.len() implies (
                #[trigger] self.tanks@[tj]) == (if r0.tanks@[tj].dead {
                    r0.tanks@[tj]
                } else {
                    Tank {
                        health: sat_sub_health(
                            r0.tanks@[tj].health as int,
                            r0.tanks@[tj],
                            r0.explosions@,
                            nn as nat,
                        ),
                        ..r0.tanks@[tj]
                    }
                }) by {
                    lemma_health_after_blasts_congruent(
                        r0.tanks@[tj].health as int,
                        r0.tanks@[tj],
                        esq,
                        r0.explosions@,
                        nn as nat,
                    );
                }
            }
            let ghost lpre = self.landscape;
            self.landscape.subsidence(now_ms);
            proof {
                if lpre.subsidence_active_spec() {
                    crate::landscape::lemma_same_config_dims(self.landscape, lpre);
                }
            }
            self.explosions = Vec::new();
            self.state = GameState::Subsidence;
            proof {
                assert(self.explosions@ =~= Seq::<Explosion>::empty());
            }
        }
    }

    /// While the terrain is settling: steps the settling; on completion
    /// re-drops every live tank (without repositioning) and goes back to
    /// tank placement.
    fn update_landscape(&mut self, now_ms: u64)
        requires
            old(self).wf(),
            old(self).last_ms == now_ms,
        ensures
            final(self).wf(),
            final(self).last_ms == now_ms,
            final(self).width == old(self).width,
            final(self).height == old(self).height,
            final(self).tanks.len() == old(self).tanks.len(),
            tanks_degrade(old(self).tanks@, final(self).tanks@),
            final(self).players_money == old(self).players_money,
            old(self).state != GameState::Subsidence ==> *final(self) == *old(self),
            old(self).state == GameState::Subsidence ==> (final(self).state
                == GameState::Subsidence || final(self).state == GameState::TanksThrowing),
            subsiding_phase(*old(self), *final(self)),
    {
        if !matches!(self.state, GameState::Subsidence) {
            return ;
        }
        let ghost r0 = *self;
        let finished = self.landscape.update(now_ms);
        if finished {
            self.state = GameState::TanksThrowing;
            let mut i: usize = 0;
            while i < self.tanks.len()
                invariant
                    self.wf(),
                    self.last_ms == now_ms,
                    self.tanks@.len() == r0.tanks@.len(),
                    self.width == r0.width,
                    self.height == r0.height,
                    self.state == GameState::TanksThrowing,
                    self.missile == r0.missile,
                    self.players_money == r0.players_money,
                    self.wind_power == r0.wind_power,
                    self.current_tank == r0.current_tank,
                    self.number_of_iteration == r0.number_of_iteration,
                    self.explosions == r0.explosions,
                    crate::landscape::settling_step_rel(
                        r0.landscape,
                        self.landscape,
                        now_ms as int,
                        true,
                    ),
                    tanks_degrade(r0.tanks@, self.tanks@),
                    i <= self.tanks@.len(),
                    forall|j: int|
                        0 <= j < i ==> (#[trigger] self.tanks@[j]) == redrop_live(
                            r0.tanks@,
                            now_ms,
                        )[j],
                    forall|j: int| i <= j < self.tanks@.len() ==> self.tanks@[j] == r0.tanks@[j],
                decreases self.tanks@.len() - i,
            {
                let t0 = self.tanks[i];
                if !t0.dead {
                    let mut t = t0;
                    t.throw_down(None, now_ms);
                    self.tanks.set(i, t);
                }
                i = i + 1;
            }
            proof {
                assert(self.tanks@ =~= redrop_live(r0.tanks@, now_ms));
                assert(crate::landscape::settling_step_rel(
                    r0.landscape,
                    self.landscape,
                    now_ms as int,
                    true,
                ));
            }
        } else {
            proof {
                assert(crate::landscape::settling_step_rel(
                    r0.landscape,
                    self.landscape,
                    now_ms as int,
                    false,
                ));
            }
        }
    }
}

} // verus!
