//! The enemies that roam the play field.

use vstd::prelude::*;
use crate::animation::{Animation, AnimationType};
use crate::balls_and_bullets::{balls_wf, Ball, Bullet};
use crate::collisions::{collision, collision_spec, Body};
use crate::consts::{
    bullet_size, paddle_size, BALL_RADIUS, BRICK_FRAME_TIME, BULLET_IMPACT_FRAMES,
    MEANIES_FRAME_TIME, MEANIES_MAX, MEANIES_MAXX, MEANIES_MAXY, MEANIES_MINX, MEANIES_MINY,
    MEANIES_PER_SECOND, MEANIES_PORTAL_LEFT_X, MEANIES_PORTAL_RIGHT_X, MEANIES_PORTAL_Y,
    MEANIES_SPEED, MEANIES_TYPES, NLEVELS,
};
use crate::direction::{
    from_angle, from_angle_spec, lemma_unit_is_small, FRAC_PI_16, FRAC_PI_2, ONE, PI,
};
use crate::fixed::{floor_div, sat, sat_add, saturate, Size, Vector, SECOND};
use crate::game::{flashes_wf, Effects, Flash, FlashKind, Game, Sound};
use crate::paddle::Paddle;
use crate::random::{random_range, random_ratio};
use crate::shop::{secret_is_unlocked, Secret};

verus! {

/// Least heading of an enemy: a half turn and an eighth, clockwise.
pub const MEANIES_MIN_ANGLE: i64 = -1_179_648;

/// Greatest heading of an enemy: an eighth of a half turn.
pub const MEANIES_MAX_ANGLE: i64 = 131_072;

/// An enemy. It comes down from one of the two portals at the top and then
/// wanders, turning a little at random at every tick.
#[derive(Clone, Copy, Debug, PartialEq, Eq, Structural)]
pub struct Meanie {
    pub variant: usize,
    /// Length units per second.
    pub speed: i64,
    /// Heading.
    pub angle: i64,
    pub position: Vector,
    pub animation: Animation,
}

/// Number of frames of the animation of each variant.
pub open spec fn meanie_frames_spec(variant: usize) -> usize {
    if variant == 2 {
        10
    } else {
        8
    }
}

/// Number of frames of the animation of the given variant.
#[verifier::when_used_as_spec(meanie_frames_spec)]
pub fn meanie_frames(variant: usize) -> (n: usize)
    ensures
        n == meanie_frames_spec(variant),
        n > 0,
{
    if variant == 2 {
        10
    } else {
        8
    }
}

/// Size of an enemy of the given variant at the given frame.
pub open spec fn meanie_size_spec(variant: usize, frame: usize) -> Size {
    if variant == 0 && frame == 0 {
        Size { x: 49_000_000, y: 40_000_000 }
    } else if variant == 0 && frame == 1 {
        Size { x: 52_000_000, y: 43_000_000 }
    } else if variant == 0 && frame == 2 {
        Size { x: 50_000_000, y: 39_000_000 }
    } else if variant == 0 && frame == 3 {
        Size { x: 42_000_000, y: 37_000_000 }
    } else if variant == 0 && frame == 4 {
        Size { x: 48_000_000, y: 43_000_000 }
    } else if variant == 0 && frame == 5 {
        Size { x: 52_000_000, y: 47_000_000 }
    } else if variant == 0 && frame == 6 {
        Size { x: 52_000_000, y: 43_000_000 }
    } else if variant == 0 && frame == 7 {
        Size { x: 42_000_000, y: 37_000_000 }
    } else if variant == 1 && frame == 0 {
        Size { x: 44_000_000, y: 36_000_000 }
    } else if variant == 1 && frame == 1 {
        Size { x: 54_000_000, y: 37_000_000 }
    } else if variant == 1 && frame == 2 {
        Size { x: 57_000_000, y: 41_000_000 }
    } else if variant == 1 && frame == 3 {
        Size { x: 52_000_000, y: 41_000_000 }
    } else if variant == 1 && frame == 4 {
        Size { x: 40_000_000, y: 37_000_000 }
    } else if variant == 1 && frame == 5 {
        Size { x: 59_000_000, y: 41_000_000 }
    } else if variant == 1 && frame == 6 {
        Size { x: 57_000_000, y: 46_000_000 }
    } else if variant == 1 && frame == 7 {
        Size { x: 54_000_000, y: 36_000_000 }
    } else if variant == 2 && frame == 0 {
        Size { x: 36_000_000, y: 36_000_000 }
    } else if variant == 2 && frame == 1 {
        Size { x: 51_000_000, y: 45_000_000 }
    } else if variant == 2 && frame == 2 {
        Size { x: 61_000_000, y: 48_000_000 }
    } else if variant == 2 && frame == 3 {
        Size { x: 57_000_000, y: 52_000_000 }
    } else if variant == 2 && frame == 4 {
        Size { x: 36_000_000, y: 36_000_000 }
    } else if variant == 2 && frame == 5 {
        Size { x: 57_000_000, y: 49_000_000 }
    } else if variant == 2 && frame == 6 {
        Size { x: 61_000_000, y: 48_000_000 }
    } else if variant == 2 && frame == 7 {
        Size { x: 51_000_000, y: 45_000_000 }
    } else if variant == 2 && frame == 8 {
        Size { x: 36_000_000, y: 36_000_000 }
    } else if variant == 2 && frame == 9 {
        Size { x: 51_000_000, y: 47_000_000 }
    } else if variant == 2 && frame == 10 {
        Size { x: 61_000_000, y: 50_000_000 }
    } else if variant == 2 && frame == 11 {
        Size { x: 57_000_000, y: 47_000_000 }
    } else if variant == 2 && frame == 12 {
        Size { x: 37_000_000, y: 36_000_000 }
    } else if variant == 2 && frame == 13 {
        Size { x: 57_000_000, y: 47_000_000 }
    } else if variant == 2 && frame == 14 {
        Size { x: 61_000_000, y: 48_000_000 }
    } else if variant == 2 && frame == 15 {
        Size { x: 51_000_000, y: 47_000_000 }
    } else {
        Size { x: 36_000_000, y: 36_000_000 }
    }
}

/// Size of an enemy of the given variant at the given frame.
#[verifier::when_used_as_spec(meanie_size_spec)]
pub fn meanie_size(variant: usize, frame: usize) -> (s: Size)
    ensures
        s == meanie_size_spec(variant, frame),
{
    if variant == 0 && frame == 0 {
        Size { x: 49_000_000, y: 40_000_000 }
    } else if variant == 0 && frame == 1 {
        Size { x: 52_000_000, y: 43_000_000 }
    } else if variant == 0 && frame == 2 {
        Size { x: 50_000_000, y: 39_000_000 }
    } else if variant == 0 && frame == 3 {
        Size { x: 42_000_000, y: 37_000_000 }
    } else if variant == 0 && frame == 4 {
        Size { x: 48_000_000, y: 43_000_000 }
    } else if variant == 0 && frame == 5 {
        Size { x: 52_000_000, y: 47_000_000 }
    } else if variant == 0 && frame == 6 {
        Size { x: 52_000_000, y: 43_000_000 }
    } else if variant == 0 && frame == 7 {
        Size { x: 42_000_000, y: 37_000_000 }
    } else if variant == 1 && frame == 0 {
        Size { x: 44_000_000, y: 36_000_000 }
    } else if variant == 1 && frame == 1 {
        Size { x: 54_000_000, y: 37_000_000 }
    } else if variant == 1 && frame == 2 {
        Size { x: 57_000_000, y: 41_000_000 }
    } else if variant == 1 && frame == 3 {
        Size { x: 52_000_000, y: 41_000_000 }
    } else if variant == 1 && frame == 4 {
        Size { x: 40_000_000, y: 37_000_000 }
    } else if variant == 1 && frame == 5 {
        Size { x: 59_000_000, y: 41_000_000 }
    } else if variant == 1 && frame == 6 {
        Size { x: 57_000_000, y: 46_000_000 }
    } else if variant == 1 && frame == 7 {
        Size { x: 54_000_000, y: 36_000_000 }
    } else if variant == 2 && frame == 0 {
        Size { x: 36_000_000, y: 36_000_000 }
    } else if variant == 2 && frame == 1 {
        Size { x: 51_000_000, y: 45_000_000 }
    } else if variant == 2 && frame == 2 {
        Size { x: 61_000_000, y: 48_000_000 }
    } else if variant == 2 && frame == 3 {
        Size { x: 57_000_000, y: 52_000_000 }
    } else if variant == 2 && frame == 4 {
        Size { x: 36_000_000, y: 36_000_000 }
    } else if variant == 2 && frame == 5 {
        Size { x: 57_000_000, y: 49_000_000 }
    } else if variant == 2 && frame == 6 {
        Size { x: 61_000_000, y: 48_000_000 }
    } else if variant == 2 && frame == 7 {
        Size { x: 51_000_000, y: 45_000_000 }
    } else if variant == 2 && frame == 8 {
        Size { x: 36_000_000, y: 36_000_000 }
    } else if variant == 2 && frame == 9 {
        Size { x: 51_000_000, y: 47_000_000 }
    } else if variant == 2 && frame == 10 {
        Size { x: 61_000_000, y: 50_000_000 }
    } else if variant == 2 && frame == 11 {
        Size { x: 57_000_000, y: 47_000_000 }
    } else if variant == 2 && frame == 12 {
        Size { x: 37_000_000, y: 36_000_000 }
    } else if variant == 2 && frame == 13 {
        Size { x: 57_000_000, y: 47_000_000 }
    } else if variant == 2 && frame == 14 {
        Size { x: 61_000_000, y: 48_000_000 }
    } else if variant == 2 && frame == 15 {
        Size { x: 51_000_000, y: 47_000_000 }
    } else {
        Size { x: 36_000_000, y: 36_000_000 }
    }
}

/// Part of a speed along one coordinate of a unit direction.
pub open spec fn speed_along(speed: int, part: int) -> int {
    (speed * part) / (ONE as int)
}

/// A heading outside the range of headings, mirrored back at the end of the
/// range that it passed.
pub open spec fn heading_kept(angle: int) -> int {
    if angle < MEANIES_MIN_ANGLE {
        sat(2 * MEANIES_MIN_ANGLE - angle)
    } else if angle > MEANIES_MAX_ANGLE {
        sat(2 * MEANIES_MAX_ANGLE - angle)
    } else {
        angle
    }
}

impl Meanie {
    /// The variant is one of the enemy variants, and the animation is the
    /// repeating one of that variant.
    pub open spec fn wf(self) -> bool {
        &&& self.variant < MEANIES_TYPES
        &&& self.animation.wf()
        &&& self.animation.frames == meanie_frames(self.variant)
        &&& self.animation.variant == AnimationType::Repeat
    }

    /// Says whether the enemy is well formed.
    pub fn is_wf(&self) -> (b: bool)
        ensures
            b == self.wf(),
    {
        self.variant < MEANIES_TYPES && self.animation.is_wf() && self.animation.frames
            == meanie_frames(self.variant) && match self.animation.variant {
            AnimationType::Repeat => true,
            _ => false,
        }
    }

    /// The enemy as it comes out of a portal: the left one for side 0, the
    /// right one for any other side.
    pub open spec fn fresh(variant: usize, side: usize) -> Meanie {
        Meanie {
            variant,
            speed: MEANIES_SPEED,
            angle: (-FRAC_PI_2) as i64,
            position: Vector {
                x: if side == 0 {
                    MEANIES_PORTAL_LEFT_X
                } else {
                    MEANIES_PORTAL_RIGHT_X
                },
                y: MEANIES_PORTAL_Y,
            },
            animation: Animation::fresh(
                MEANIES_FRAME_TIME,
                meanie_frames(variant),
                AnimationType::Repeat,
                Vector { x: 0, y: 0 },
            ),
        }
    }

    /// An enemy as it comes out of a portal.
    pub fn new(variant: usize, side: usize) -> (m: Meanie)
        ensures
            m == Meanie::fresh(variant, side),
            variant < MEANIES_TYPES ==> m.wf(),
    {
        Meanie {
            variant,
            speed: MEANIES_SPEED,
            angle: -FRAC_PI_2,
            position: Vector {
                x: if side == 0 {
                    MEANIES_PORTAL_LEFT_X
                } else {
                    MEANIES_PORTAL_RIGHT_X
                },
                y: MEANIES_PORTAL_Y,
            },
            animation: Animation::new(
                MEANIES_FRAME_TIME,
                meanie_frames(variant),
                AnimationType::Repeat,
                Vector { x: 0, y: 0 },
            ),
        }
    }

    /// Whether the enemy is still on its way down from the portal.
    pub open spec fn descends(self) -> bool {
        self.position.y > MEANIES_MAXY
    }

    /// The heading after the turn of a tick.
    pub open spec fn turned(self, turn: int) -> int {
        heading_kept(sat(self.angle + turn))
    }

    /// Velocity at the given heading.
    pub open spec fn velocity_at(self, heading: int) -> Vector {
        let d = from_angle_spec(heading);
        Vector {
            x: sat(speed_along(self.speed as int, d.x as int)) as i64,
            y: sat(speed_along(self.speed as int, d.y as int)) as i64,
        }
    }

    /// The enemy after `dt` microseconds, its heading turned by `turn`. On
    /// its way down from the portal it only falls. After that it turns,
    /// moves along its heading, and is mirrored at the left and right bounds
    /// of its range, position and heading both.
    pub open spec fn walked(self, turn: int, dt: u32) -> Meanie {
        if self.descends() {
            Meanie {
                position: self.position.drifted(
                    Vector { x: 0, y: sat(-self.speed) as i64 },
                    dt as int,
                ),
                ..self
            }
        } else {
            let heading = self.turned(turn);
            let p = self.position.drifted(self.velocity_at(heading), dt as int);
            if p.x < MEANIES_MINX {
                Meanie {
                    position: Vector { x: sat(2 * MEANIES_MINX - p.x) as i64, y: p.y },
                    angle: sat(PI - heading) as i64,
                    ..self
                }
            } else if p.x > MEANIES_MAXX {
                Meanie {
                    position: Vector { x: sat(2 * MEANIES_MAXX - p.x) as i64, y: p.y },
                    angle: sat(-PI - heading) as i64,
                    ..self
                }
            } else {
                Meanie { position: p, angle: heading as i64, ..self }
            }
        }
    }

    /// Whether the enemy walks out of its range at the bottom.
    pub open spec fn walks_out(self, turn: int, dt: u32) -> bool {
        !self.descends() && self.walked(turn, dt).position.y < MEANIES_MINY
    }

    /// Size of the enemy at its current frame.
    pub open spec fn size(self) -> Size {
        meanie_size(self.variant, self.animation.current_frame)
    }

    /// Whether the paddle touches the enemy.
    pub open spec fn touched_by_paddle(self, paddle: Paddle) -> bool {
        collision_spec(
            Body::Rectangular(paddle.center(), paddle_size(paddle.variant)),
            self.position,
            self.size(),
        ) is Some
    }

    /// Whether the bullet touches the enemy.
    pub open spec fn touched_by_bullet(self, bullet: Bullet) -> bool {
        collision_spec(bullet.body(), self.position, self.size()) is Some
    }

    /// Whether the ball touches the enemy; a held ball does not.
    pub open spec fn touched_by_ball(self, ball: Ball) -> bool {
        !ball.caught && collision_spec(ball.body(), self.position, self.size()) is Some
    }

    /// Moves the enemy for `dt` microseconds, its heading turned by `turn`.
    /// Returns whether it walked out of its range at the bottom.
    pub fn walk(&mut self, turn: i64, dt: u32) -> (gone: bool)
        ensures
            *final(self) == old(self).walked(turn as int, dt),
            gone == old(self).walks_out(turn as int, dt),
    {
        if self.position.y > MEANIES_MAXY {
            self.position = self.position.drift(
                Vector { x: 0, y: saturate(-(self.speed as i128)) },
                dt,
            );
            return false;
        }
        let a1 = sat_add(self.angle, turn);
        let heading: i64 = if a1 < MEANIES_MIN_ANGLE {
            saturate(2 * (MEANIES_MIN_ANGLE as i128) - a1 as i128)
        } else if a1 > MEANIES_MAX_ANGLE {
            saturate(2 * (MEANIES_MAX_ANGLE as i128) - a1 as i128)
        } else {
            a1
        };
        let d = from_angle(heading);
        proof {
            lemma_unit_is_small(d);
            lemma_speed_product(self.speed as int, d.x as int);
            lemma_speed_product(self.speed as int, d.y as int);
        }
        let velocity = Vector {
            x: saturate(floor_div((self.speed as i128) * (d.x as i128), ONE as i128)),
            y: saturate(floor_div((self.speed as i128) * (d.y as i128), ONE as i128)),
        };
        let p = self.position.drift(velocity, dt);
        if p.x < MEANIES_MINX {
            self.position = Vector {
                x: saturate(2 * (MEANIES_MINX as i128) - p.x as i128),
                y: p.y,
            };
            self.angle = saturate(PI as i128 - heading as i128);
        } else if p.x > MEANIES_MAXX {
            self.position = Vector {
                x: saturate(2 * (MEANIES_MAXX as i128) - p.x as i128),
                y: p.y,
            };
            self.angle = saturate(-(PI as i128) - heading as i128);
        } else {
            self.position = p;
            self.angle = heading;
        }
        self.position.y < MEANIES_MINY
    }
}

proof fn lemma_speed_product(speed: int, part: int)
    by (nonlinear_arith)
    requires
        -0x8000_0000_0000_0000 <= speed < 0x8000_0000_0000_0000,
        -1_000_003 < part < 1_000_003,
    ensures
        -0x8000_0000_0000_0000 * 1_000_003 <= speed * part <= 0x8000_0000_0000_0000 * 1_000_003,
{
}

/// The flash of a destroyed enemy.
pub open spec fn meanie_flash(position: Vector) -> Flash {
    Flash {
        position,
        kind: FlashKind::Bullet,
        animation: Animation::fresh(
            BRICK_FRAME_TIME,
            BULLET_IMPACT_FRAMES,
            AnimationType::Despawn,
            Vector { x: 0, y: 0 },
        ),
    }
}

/// What the enemies' stage leaves of the game as it was: all but the count
/// of the enemies.
pub open spec fn meanies_keep(before: &Game, after: &Game) -> bool {
    &&& after.grid == before.grid
    &&& after.nlives == before.nlives
    &&& after.nballs == before.nballs
    &&& after.bricks_left == before.bricks_left
    &&& after.avg_delta == before.avg_delta
    &&& after.current_level == before.current_level
    &&& after.portal_open == before.portal_open
    &&& after.seconds_left == before.seconds_left
    &&& after.barrel_dist == before.barrel_dist
    &&& after.levels_unlocked == before.levels_unlocked
    &&& after.secrets_unlocked == before.secrets_unlocked
    &&& after.secrets_generated == before.secrets_generated
    &&& after.username == before.username
}

/// Destroys an enemy: it flashes where it was and is no longer counted.
pub fn meanie_destroy(effects: &mut Effects, position: Vector, game: &mut Game)
    requires
        old(game).nmeanies > 0,
    ensures
        final(effects).flashes@ == old(effects).flashes@.push(meanie_flash(position)),
        final(effects).sounds@ == old(effects).sounds@,
        final(game).nmeanies == old(game).nmeanies - 1,
        meanies_keep(old(game), final(game)),
{
    effects.flashes.push(
        Flash {
            position,
            kind: FlashKind::Bullet,
            animation: Animation::new(
                BRICK_FRAME_TIME,
                BULLET_IMPACT_FRAMES,
                AnimationType::Despawn,
                Vector { x: 0, y: 0 },
            ),
        },
    );
    game.nmeanies = game.nmeanies - 1;
}

/// The first bullet that touches the enemy, if any does.
pub fn find_bullet(meanie: &Meanie, bullets: &Vec<Bullet>) -> (found: Option<usize>)
    ensures
        match found {
            Some(i) => i < bullets@.len() && meanie.touched_by_bullet(bullets@[i as int]) && forall|
                k: int,
            |
                0 <= k < i ==> !meanie.touched_by_bullet(#[trigger] bullets@[k]),
            None => forall|k: int|
                0 <= k < bullets@.len() ==> !meanie.touched_by_bullet(#[trigger] bullets@[k]),
        },
{
    let size = meanie_size(meanie.variant, meanie.animation.current_frame);
    let mut i: usize = 0;
    while i < bullets.len()
        invariant
            i <= bullets@.len(),
            size == meanie.size(),
            forall|k: int| 0 <= k < i ==> !meanie.touched_by_bullet(#[trigger] bullets@[k]),
        decreases bullets.len() - i,
    {
        let body = Body::Rectangular(bullets[i].position, bullet_size());
        if collision(body, meanie.position, size).is_some() {
            return Some(i);
        }
        i = i + 1;
    }
    None
}

/// The first ball in play that touches the enemy, if any does.
pub fn find_ball(meanie: &Meanie, balls: &Vec<Ball>) -> (found: Option<usize>)
    ensures
        match found {
            Some(i) => i < balls@.len() && meanie.touched_by_ball(balls@[i as int]) && forall|
                k: int,
            |
                0 <= k < i ==> !meanie.touched_by_ball(#[trigger] balls@[k]),
            None => forall|k: int|
                0 <= k < balls@.len() ==> !meanie.touched_by_ball(#[trigger] balls@[k]),
        },
{
    let size = meanie_size(meanie.variant, meanie.animation.current_frame);
    let mut i: usize = 0;
    while i < balls.len()
        invariant
            i <= balls@.len(),
            size == meanie.size(),
            forall|k: int| 0 <= k < i ==> !meanie.touched_by_ball(#[trigger] balls@[k]),
        decreases balls.len() - i,
    {
        if !balls[i].caught {
            let body = Body::Round(balls[i].position, BALL_RADIUS);
            if collision(body, meanie.position, size).is_some() {
                return Some(i);
            }
        }
        i = i + 1;
    }
    None
}

/// Whether every enemy is well formed.
pub open spec fn meanies_wf(meanies: Seq<Meanie>) -> bool {
    forall|i: int| 0 <= i < meanies.len() ==> (#[trigger] meanies[i]).wf()
}

/// Whether a new enemy may appear while `roaming` enemies are in play and
/// no more than `limit` may be: there is room for one, and the secret of the
/// enemies is unlocked.
pub open spec fn may_spawn(roaming: u32, limit: u32, game: &Game) -> bool {
    roaming < limit && game.unlocked(Secret::Meanies.index_spec() as int)
}

/// The chance, in millionths, that an enemy appears during a tick of `dt`
/// microseconds: `MEANIES_PER_SECOND` times the duration of the tick.
pub open spec fn spawn_chance_spec(dt: u32) -> u32 {
    if dt * MEANIES_PER_SECOND >= SECOND {
        SECOND as u32
    } else {
        (dt * MEANIES_PER_SECOND) as u32
    }
}

/// The chance, in millionths, that an enemy appears during a tick of `dt`
/// microseconds.
#[verifier::when_used_as_spec(spawn_chance_spec)]
pub fn spawn_chance(dt: u32) -> (chance: u32)
    ensures
        chance == spawn_chance_spec(dt),
        chance <= SECOND,
{
    let scaled: u64 = dt as u64 * MEANIES_PER_SECOND;
    if scaled >= SECOND {
        SECOND as u32
    } else {
        scaled as u32
    }
}

/// What the enemies have left so far of what moves in a level: the enemies
/// that roam on, the bullets, the balls, the flashes and the sounds.
pub struct Roam {
    pub meanies: Seq<Meanie>,
    pub bullets: Seq<Bullet>,
    pub balls: Seq<Ball>,
    pub flashes: Seq<Flash>,
    pub sounds: Seq<Sound>,
}

/// Whether bullet `i` is the first that touches the enemy.
pub open spec fn first_bullet(meanie: Meanie, bullets: Seq<Bullet>, i: int) -> bool {
    &&& 0 <= i < bullets.len()
    &&& meanie.touched_by_bullet(bullets[i])
    &&& forall|k: int| 0 <= k < i ==> !meanie.touched_by_bullet(#[trigger] bullets[k])
}

/// Whether ball `j` is the first ball in play that touches the enemy.
pub open spec fn first_ball(meanie: Meanie, balls: Seq<Ball>, j: int) -> bool {
    &&& 0 <= j < balls.len()
    &&& meanie.touched_by_ball(balls[j])
    &&& forall|k: int| 0 <= k < j ==> !meanie.touched_by_ball(#[trigger] balls[k])
}

/// A ball with its vertical direction reversed.
pub open spec fn turned_back(ball: Ball) -> Ball {
    Ball { direction: ball.direction.flipped_y(), ..ball }
}

/// Whether `after` is what the tick of one enemy, its heading turned by
/// `turn`, makes of `before`. An enemy that walks out at the bottom is gone.
/// One that the paddle touches is destroyed; else one that a bullet touches,
/// together with the first such bullet; else one that a ball in play
/// touches, and the first such ball turns back. A destroyed enemy flashes.
/// Any other enemy roams on.
#[verifier::opaque]
pub open spec fn roamed(
    before: Roam,
    meanie: Meanie,
    turn: int,
    dt: u32,
    paddle: Paddle,
    after: Roam,
) -> bool {
    let m = meanie.walked(turn, dt);
    let burst = before.flashes.push(meanie_flash(m.position));
    if meanie.walks_out(turn, dt) {
        after == before
    } else if m.touched_by_paddle(paddle) {
        after == (Roam { flashes: burst, ..before })
    } else if exists|i: int| first_bullet(m, before.bullets, i) {
        forall|i: int| #[trigger]
            first_bullet(m, before.bullets, i) ==> after == (Roam {
                bullets: before.bullets.remove(i),
                sounds: before.sounds.push(Sound::BulletHit),
                flashes: burst,
                ..before
            })
    } else if exists|j: int| first_ball(m, before.balls, j) {
        forall|j: int| #[trigger]
            first_ball(m, before.balls, j) ==> after == (Roam {
                balls: before.balls.update(j, turned_back(before.balls[j])),
                flashes: burst,
                ..before
            })
    } else {
        after == (Roam { meanies: before.meanies.push(m), ..before })
    }
}

/// Whether `after` is what the ticks of the first `k` enemies can make of
/// `before`, each turning its heading by no more than a sixteenth of a half
/// turn.
#[verifier::opaque]
pub open spec fn roams(
    meanies: Seq<Meanie>,
    dt: u32,
    paddle: Paddle,
    before: Roam,
    after: Roam,
    k: nat,
) -> bool
    decreases k,
{
    if k == 0 {
        after == before
    } else {
        exists|mid: Roam, turn: int|
            {
                &&& roams(meanies, dt, paddle, before, mid, (k - 1) as nat)
                &&& -FRAC_PI_16 <= turn <= FRAC_PI_16
                &&& #[trigger] roamed(mid, meanies[k - 1], turn, dt, paddle, after)
            }
    }
}

/// The tick of one more enemy follows the ticks of those before it.
pub proof fn lemma_roams_next(
    meanies: Seq<Meanie>,
    dt: u32,
    paddle: Paddle,
    before: Roam,
    mid: Roam,
    turn: int,
    after: Roam,
    k: nat,
)
    requires
        k < meanies.len(),
        -FRAC_PI_16 <= turn <= FRAC_PI_16,
        roams(meanies, dt, paddle, before, mid, k),
        roamed(mid, meanies[k as int], turn, dt, paddle, after),
    ensures
        roams(meanies, dt, paddle, before, after, k + 1),
{
    reveal_with_fuel(roams, 2);
    let next = k + 1;
    assert(roams(meanies, dt, paddle, before, mid, (next - 1) as nat));
    assert(roamed(mid, meanies[next - 1], turn, dt, paddle, after));
}

/// Moves one enemy for a tick, its heading turned by `turn`, and lets the
/// paddle, the bullets and the balls destroy it. Returns the enemy if it
/// roams on.
pub fn meanie_roam(
    effects: &mut Effects,
    meanie: Meanie,
    turn: i64,
    bullets: &mut Vec<Bullet>,
    balls: &mut Vec<Ball>,
    paddle: &Paddle,
    game: &mut Game,
) -> (left: Option<Meanie>)
    requires
        paddle.wf(),
        balls_wf(old(balls)@),
        old(game).nmeanies > 0,
    ensures
        roamed(
            Roam {
                meanies: Seq::empty(),
                bullets: old(bullets)@,
                balls: old(balls)@,
                flashes: old(effects).flashes@,
                sounds: old(effects).sounds@,
            },
            meanie,
            turn as int,
            old(game).avg_delta,
            *paddle,
            Roam {
                meanies: match left {
                    Some(m) => seq![m],
                    None => Seq::empty(),
                },
                bullets: final(bullets)@,
                balls: final(balls)@,
                flashes: final(effects).flashes@,
                sounds: final(effects).sounds@,
            },
        ),
        final(game).nmeanies == (if left is Some {
            old(game).nmeanies
        } else {
            (old(game).nmeanies - 1) as u32
        }),
        meanies_keep(old(game), final(game)),
        balls_wf(final(balls)@),
        final(balls)@.len() == old(balls)@.len(),
        meanie.wf() && left is Some ==> left->Some_0.wf(),
        flashes_wf(old(effects).flashes@) ==> flashes_wf(final(effects).flashes@),
{
    reveal(roamed);
    let mut meanie = meanie;
    let gone = meanie.walk(turn, game.avg_delta);
    if gone {
        game.nmeanies = game.nmeanies - 1;
        return None;
    }
    let size = meanie_size(meanie.variant, meanie.animation.current_frame);
    let body = Body::Rectangular(paddle.position(), paddle_size(paddle.variant));
    if collision(body, meanie.position, size).is_some() {
        meanie_destroy(effects, meanie.position, game);
        return None;
    }
    if let Some(i) = find_bullet(&meanie, bullets) {
        proof {
            assert(first_bullet(meanie, bullets@, i as int));
            assert forall|k: int| first_bullet(meanie, bullets@, k) implies k == i by {
                if k < i {
                    assert(!meanie.touched_by_bullet(bullets@[k]));
                } else if k > i {
                    assert(!meanie.touched_by_bullet(bullets@[i as int]));
                }
            }
        }
        bullets.remove(i);
        effects.sounds.push(Sound::BulletHit);
        meanie_destroy(effects, meanie.position, game);
        return None;
    }
    proof {
        assert forall|i: int| !first_bullet(meanie, bullets@, i) by {
            if 0 <= i < bullets@.len() {
                assert(!meanie.touched_by_bullet(bullets@[i]));
            }
        }
    }
    if let Some(j) = find_ball(&meanie, balls) {
        proof {
            assert(first_ball(meanie, balls@, j as int));
            assert forall|k: int| first_ball(meanie, balls@, k) implies k == j by {
                if k < j {
                    assert(!meanie.touched_by_ball(balls@[k]));
                } else if k > j {
                    assert(!meanie.touched_by_ball(balls@[j as int]));
                }
            }
            lemma_unit_is_small(balls@[j as int].direction);
        }
        let mut ball = balls[j];
        ball.direction = ball.direction.flip_y();
        balls[j] = ball;
        meanie_destroy(effects, meanie.position, game);
        return None;
    }
    proof {
        assert forall|j: int| !first_ball(meanie, balls@, j) by {
            if 0 <= j < balls@.len() {
                assert(!meanie.touched_by_ball(balls@[j]));
            }
        }
        assert(Seq::<Meanie>::empty().push(meanie) =~= seq![meanie]);
    }
    Some(meanie)
}

/// Says whether a new enemy may appear where no more than `limit` enemies
/// may be in play.
pub fn meanie_may_arrive(limit: u32, game: &Game) -> (b: bool)
    requires
        game.secrets_unlocked@.len() == NLEVELS,
        game.secrets_generated@.len() == NLEVELS,
    ensures
        b == may_spawn(game.nmeanies, limit, game),
{
    game.nmeanies < limit && secret_is_unlocked(Secret::Meanies.index(), game)
}

/// The enemies after one of the given variant arrived at the given side.
pub open spec fn meanie_arrived(before: Seq<Meanie>, variant: usize, side: usize) -> Seq<Meanie> {
    before.push(Meanie::fresh(variant, side))
}

/// Lets an enemy of the drawn variant come out of the portal of the drawn
/// side, and counts it.
pub fn meanie_arrive(meanies: &mut Vec<Meanie>, variant: usize, side: usize, game: &mut Game)
    requires
        old(game).nmeanies < u32::MAX,
    ensures
        final(meanies)@ == meanie_arrived(old(meanies)@, variant, side),
        final(game).nmeanies == old(game).nmeanies + 1,
        meanies_keep(old(game), final(game)),
        variant < MEANIES_TYPES && meanies_wf(old(meanies)@) ==> meanies_wf(final(meanies)@),
{
    meanies.push(Meanie::new(variant, side));
    game.nmeanies = game.nmeanies + 1;
}

/// Acts on the chance of a new enemy where no more than `limit` enemies may
/// be in play. On a miss, or while no new enemy may appear, nothing happens.
/// Else an enemy of a random variant comes out of one of the two portals.
/// Returns whether one did.
pub fn meanie_chance(meanies: &mut Vec<Meanie>, hit: bool, limit: u32, game: &mut Game) -> (arrived:
    bool)
    requires
        old(game).secrets_unlocked@.len() == NLEVELS,
        old(game).secrets_generated@.len() == NLEVELS,
    ensures
        arrived == (hit && may_spawn(old(game).nmeanies, limit, old(game))),
        !arrived ==> final(meanies)@ == old(meanies)@,
        !arrived ==> final(game).nmeanies == old(game).nmeanies,
        arrived ==> final(game).nmeanies == old(game).nmeanies + 1,
        arrived ==> exists|variant: usize, side: usize|
            variant < MEANIES_TYPES && side < 2 && final(meanies)@ == #[trigger] meanie_arrived(
                old(meanies)@,
                variant,
                side,
            ),
        meanies_keep(old(game), final(game)),
        meanies_wf(old(meanies)@) ==> meanies_wf(final(meanies)@),
{
    if hit && meanie_may_arrive(limit, game) {
        let variant = random_range(0, MEANIES_TYPES as i64) as usize;
        let side = random_range(0, 2) as usize;
        meanie_arrive(meanies, variant, side, game);
        true
    } else {
        false
    }
}

/// The stage of a tick that moves the enemies, each with a random turn of
/// its heading. An enemy that walks out at the bottom is gone. One that the
/// paddle, a bullet or a ball in play touches is destroyed: the bullet is
/// gone with it, the ball turns back. While there is room and the secret of
/// the enemies is unlocked, a new enemy of a random variant may appear at
/// one of the two portals. Returns whether one did.
pub fn meanies_update(
    effects: &mut Effects,
    meanies: &mut Vec<Meanie>,
    bullets: &mut Vec<Bullet>,
    balls: &mut Vec<Ball>,
    paddle: &Paddle,
    game: &mut Game,
) -> (arrived: bool)
    requires
        paddle.wf(),
        meanies_wf(old(meanies)@),
        balls_wf(old(balls)@),
        old(game).nmeanies == old(meanies)@.len(),
        old(game).secrets_unlocked@.len() == NLEVELS,
        old(game).secrets_generated@.len() == NLEVELS,
    ensures
        roams(
            old(meanies)@,
            old(game).avg_delta,
            *paddle,
            Roam {
                meanies: Seq::empty(),
                bullets: old(bullets)@,
                balls: old(balls)@,
                flashes: old(effects).flashes@,
                sounds: old(effects).sounds@,
            },
            Roam {
                meanies: if arrived {
                    final(meanies)@.drop_last()
                } else {
                    final(meanies)@
                },
                bullets: final(bullets)@,
                balls: final(balls)@,
                flashes: final(effects).flashes@,
                sounds: final(effects).sounds@,
            },
            old(meanies)@.len(),
        ),
        arrived ==> final(game).nmeanies > 0 && may_spawn(
            (final(game).nmeanies - 1) as u32,
            MEANIES_MAX,
            old(game),
        ),
        arrived ==> final(meanies)@.len() > 0 && exists|variant: usize, side: usize|
            variant < MEANIES_TYPES && side < 2 && final(meanies)@ == #[trigger] meanie_arrived(
                final(meanies)@.drop_last(),
                variant,
                side,
            ),
        meanies_wf(final(meanies)@),
        balls_wf(final(balls)@),
        final(balls)@.len() == old(balls)@.len(),
        final(game).nmeanies == final(meanies)@.len(),
        flashes_wf(old(effects).flashes@) ==> flashes_wf(final(effects).flashes@),
        meanies_keep(old(game), final(game)),
{
    let dt = game.avg_delta;
    let ghost start = meanies@;
    let ghost init = Roam {
        meanies: Seq::empty(),
        bullets: bullets@,
        balls: balls@,
        flashes: effects.flashes@,
        sounds: effects.sounds@,
    };
    let n = meanies.len();
    let mut kept: Vec<Meanie> = Vec::new();
    let mut k: usize = 0;
    proof {
        reveal(roams);
    }
    while k < n
        invariant
            k <= n,
            n == start.len(),
            meanies@ == start,
            meanies_wf(start),
            paddle.wf(),
            dt == game.avg_delta,
            meanies_wf(kept@),
            balls_wf(balls@),
            balls@.len() == old(balls)@.len(),
            kept@.len() <= k,
            game.nmeanies == kept@.len() + (n - k),
            roams(
                start,
                dt,
                *paddle,
                init,
                Roam {
                    meanies: kept@,
                    bullets: bullets@,
                    balls: balls@,
                    flashes: effects.flashes@,
                    sounds: effects.sounds@,
                },
                k as nat,
            ),
            flashes_wf(old(effects).flashes@) ==> flashes_wf(effects.flashes@),
            meanies_keep(old(game), game),
        decreases n - k,
    {
        let meanie = meanies[k];
        let turn: i64 = if meanie.position.y > MEANIES_MAXY {
            0
        } else {
            random_range(-FRAC_PI_16, FRAC_PI_16 + 1)
        };
        let ghost mid = Roam {
            meanies: kept@,
            bullets: bullets@,
            balls: balls@,
            flashes: effects.flashes@,
            sounds: effects.sounds@,
        };
        let left = meanie_roam(effects, meanie, turn, bullets, balls, paddle, game);
        if let Some(m) = left {
            kept.push(m);
        }
        k = k + 1;
        proof {
            let next = Roam {
                meanies: kept@,
                bullets: bullets@,
                balls: balls@,
                flashes: effects.flashes@,
                sounds: effects.sounds@,
            };
            lemma_roamed_on(mid, meanie, turn as int, dt, *paddle, left, next);
            lemma_roams_next(start, dt, *paddle, init, mid, turn as int, next, (k - 1) as nat);
        }
    }
    let mut arrived = false;
    if meanie_may_arrive(MEANIES_MAX, game) {
        let hit = random_ratio(spawn_chance(dt), SECOND as u32);
        let ghost roaming = kept@;
        arrived = meanie_chance(&mut kept, hit, MEANIES_MAX, game);
        proof {
            if arrived {
                assert(kept@.drop_last() =~= roaming);
            }
        }
    }
    *meanies = kept;
    arrived
}

/// What the tick of an enemy makes of a state does not depend on the
/// enemies that roam on already: they stay, and the enemy joins them if it
/// roams on.
proof fn lemma_roamed_on(
    mid: Roam,
    meanie: Meanie,
    turn: int,
    dt: u32,
    paddle: Paddle,
    left: Option<Meanie>,
    next: Roam,
)
    requires
        roamed(
            Roam { meanies: Seq::empty(), ..mid },
            meanie,
            turn,
            dt,
            paddle,
            Roam {
                meanies: match left {
                    Some(m) => seq![m],
                    None => Seq::empty(),
                },
                ..next
            },
        ),
        next.meanies == (match left {
            Some(m) => mid.meanies.push(m),
            None => mid.meanies,
        }),
    ensures
        roamed(mid, meanie, turn, dt, paddle, next),
{
    reveal(roamed);
    let m = meanie.walked(turn, dt);
    let bare = Roam { meanies: Seq::empty(), ..mid };
    let out = Roam {
        meanies: match left {
            Some(m) => seq![m],
            None => Seq::empty(),
        },
        ..next
    };
    if meanie.walks_out(turn, dt) {
        assert(out == bare);
        assert(left is None);
    } else if m.touched_by_paddle(paddle) {
        assert(left is None);
    } else if exists|i: int| first_bullet(m, mid.bullets, i) {
        let i = choose|i: int| first_bullet(m, mid.bullets, i);
        assert(first_bullet(m, bare.bullets, i));
        assert(left is None);
        assert forall|k: int| #[trigger] first_bullet(m, mid.bullets, k) implies next == (Roam {
            bullets: mid.bullets.remove(k),
            sounds: mid.sounds.push(Sound::BulletHit),
            flashes: mid.flashes.push(meanie_flash(m.position)),
            ..mid
        }) by {
            assert(first_bullet(m, bare.bullets, k));
        }
    } else if exists|j: int| first_ball(m, mid.balls, j) {
        let j = choose|j: int| first_ball(m, mid.balls, j);
        assert(first_ball(m, bare.balls, j));
        assert(left is None);
        assert forall|k: int| #[trigger] first_ball(m, mid.balls, k) implies next == (Roam {
            balls: mid.balls.update(k, turned_back(mid.balls[k])),
            flashes: mid.flashes.push(meanie_flash(m.position)),
            ..mid
        }) by {
            assert(first_ball(m, bare.balls, k));
        }
    } else {
        assert(out.meanies == Seq::<Meanie>::empty().push(m));
        assert(out.meanies[0] == m);
        assert(left == Some(m));
    }
}

} // verus!
