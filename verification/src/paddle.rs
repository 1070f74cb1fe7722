//! The paddle that the player moves.

use vstd::prelude::*;
use crate::balls_and_bullets::{balls_wf, Ball, Bullet};
use crate::consts::{
    paddle_size, BALLAREA_MAXX, BALLAREA_MINX, GUN_LEFT_X, GUN_RIGHT_X, GUN_Y, NLEVELS, PADDLE_GUN,
    PADDLE_MAX_SPEED, PADDLE_MIN_SPEED, PADDLE_TYPES, PADDLE_Y, PORTAL_DEPTH,
};
use crate::fixed::{clamp, over_time, sat, sat_add, saturate, travel, Vector};
use crate::game::{Effects, Game, Sound};
use crate::timer::Timer;

verus! {

/// The paddle. It moves along the line `y == PADDLE_Y`; its variant decides
/// its size and what it can do.
#[derive(Clone, Copy, Debug, PartialEq, Eq, Structural)]
pub struct Paddle {
    pub variant: usize,
    /// Cool-down of the gun.
    pub gun_timer: Timer,
    /// Horizontal position of the centre.
    pub x: i64,
}

impl Paddle {
    /// The variant is one of the paddle variants.
    pub open spec fn wf(self) -> bool {
        self.variant < PADDLE_TYPES
    }

    /// Says whether the paddle is well formed.
    pub fn is_wf(&self) -> (b: bool)
        ensures
            b == self.wf(),
    {
        self.variant < PADDLE_TYPES
    }

    /// Centre of the paddle.
    pub open spec fn center(self) -> Vector {
        Vector { x: self.x, y: PADDLE_Y }
    }

    /// Centre of the paddle.
    pub fn position(&self) -> (p: Vector)
        ensures
            p == self.center(),
    {
        Vector { x: self.x, y: PADDLE_Y }
    }
}

/// The keys that steer the paddle, as they are held during a tick.
#[derive(Clone, Copy, Debug, PartialEq, Eq, Structural)]
pub struct PaddleInput {
    pub left: bool,
    pub right: bool,
    /// Move at the greater speed.
    pub fast: bool,
    /// Let go of the held balls and fire the gun.
    pub fire: bool,
}

impl PaddleInput {
    /// -1 to go left, 1 to go right, 0 to stay.
    pub open spec fn heading(self) -> int {
        (if self.right {
            1int
        } else {
            0int
        }) - (if self.left {
            1int
        } else {
            0int
        })
    }

    /// Velocity of the paddle, in length units per second.
    pub open spec fn velocity(self) -> int {
        self.heading() * (if self.fast {
            PADDLE_MAX_SPEED
        } else {
            PADDLE_MIN_SPEED
        })
    }
}

impl Paddle {
    /// Where the keys would take the paddle in `dt` microseconds if nothing
    /// stood in its way.
    pub open spec fn wanted_x(self, input: PaddleInput, dt: u32) -> int {
        sat(self.x + sat(over_time(input.velocity(), dt as int)))
    }

    /// Leftmost position of the centre: the paddle touches the left wall.
    pub open spec fn min_x(self) -> int {
        BALLAREA_MINX + paddle_size(self.variant).x / 2
    }

    /// Rightmost position of the centre: the paddle touches the right wall,
    /// or is `PORTAL_DEPTH` into the open portal.
    pub open spec fn max_x(self, portal_open: bool) -> int {
        BALLAREA_MAXX - paddle_size(self.variant).x / 2 + (if portal_open {
            PORTAL_DEPTH
        } else {
            0
        })
    }

    /// Whether the paddle leaves the level: it moves, the portal is open,
    /// and the keys take it beyond its rightmost position.
    pub open spec fn leaves(self, input: PaddleInput, dt: u32, portal_open: bool) -> bool {
        input.heading() != 0 && portal_open && self.wanted_x(input, dt) > self.max_x(portal_open)
    }

    /// Where the paddle is after the tick: where the keys take it, held
    /// between its leftmost and rightmost positions.
    pub open spec fn moved_x(self, input: PaddleInput, dt: u32, portal_open: bool) -> int {
        if input.heading() == 0 {
            self.x as int
        } else {
            clamp(self.wanted_x(input, dt), self.min_x(), self.max_x(portal_open))
        }
    }

    /// Whether the gun fires after a tick of `dt` microseconds: the paddle
    /// has the gun, the key is held and the gun has cooled down.
    pub open spec fn fires(self, input: PaddleInput, dt: u32) -> bool {
        self.variant == PADDLE_GUN && input.fire && self.gun_timer.ticked(dt as u64).finished
    }

    /// The bullets that the gun fires from a paddle at `x`: the left one,
    /// then the right one.
    pub open spec fn shots(x: i64) -> Seq<Bullet> {
        seq![
            Bullet {
                position: Vector { x: sat(x + GUN_LEFT_X) as i64, y: (PADDLE_Y + GUN_Y) as i64 },
            },
            Bullet {
                position: Vector { x: sat(x + GUN_RIGHT_X) as i64, y: (PADDLE_Y + GUN_Y) as i64 },
            },
        ]
    }
}

/// A ball after the paddle moved by `delta`: a held ball moves with the
/// paddle, and is let go when the key is held.
pub open spec fn ball_carried(ball: Ball, delta: int, fire: bool) -> Ball {
    if ball.caught {
        Ball {
            position: Vector { x: sat(ball.position.x + sat(delta)) as i64, y: ball.position.y },
            caught: !fire,
            ..ball
        }
    } else {
        ball
    }
}

/// The balls after the paddle moved to `x`: the held balls move with it, and
/// are let go when the key is held.
pub open spec fn balls_carried(balls: Seq<Ball>, paddle: Paddle, x: int, fire: bool) -> Seq<Ball> {
    balls.map_values(|b: Ball| ball_carried(b, x - paddle.x, fire))
}

/// The bullets after the stage of the paddle: two more when the gun fires.
pub open spec fn bullets_fired(
    bullets: Seq<Bullet>,
    paddle: Paddle,
    input: PaddleInput,
    dt: u32,
    x: int,
) -> Seq<Bullet> {
    if paddle.fires(input, dt) {
        bullets + Paddle::shots(x as i64)
    } else {
        bullets
    }
}

/// The stage of a tick that moves the paddle. With the portal open, a
/// paddle that is steered beyond its rightmost position leaves the level:
/// the next level becomes the current one and nothing else happens.
/// Otherwise the paddle moves between the walls, the balls it holds move
/// with it or are let go, and the gun fires two bullets when it can.
/// Returns whether the paddle left the level.
pub fn paddle_update(
    effects: &mut Effects,
    bullets: &mut Vec<Bullet>,
    input: PaddleInput,
    paddle: &mut Paddle,
    balls: &mut Vec<Ball>,
    game: &mut Game,
) -> (leaves: bool)
    requires
        old(paddle).wf(),
        old(game).current_level < NLEVELS,
    ensures
        leaves == old(paddle).leaves(input, old(game).avg_delta, old(game).portal_open),
        final(game).current_level == (if leaves {
            (old(game).current_level + 1) as usize
        } else {
            old(game).current_level
        }),
        leaves ==> *final(paddle) == *old(paddle) && final(balls)@ == old(balls)@
            && final(bullets)@ == old(bullets)@
            && final(effects).sounds@ == old(effects).sounds@,
        !leaves ==> ({
            let dt = old(game).avg_delta;
            let x = old(paddle).moved_x(input, dt, old(game).portal_open);
            let fires = old(paddle).fires(input, dt);
            &&& final(paddle).x == x
            &&& final(paddle).variant == old(paddle).variant
            &&& final(paddle).gun_timer == (if fires {
                old(paddle).gun_timer.ticked(dt as u64).restarted()
            } else {
                old(paddle).gun_timer.ticked(dt as u64)
            })
            &&& final(balls)@ == balls_carried(old(balls)@, *old(paddle), x, input.fire)
            &&& final(bullets)@ == bullets_fired(old(bullets)@, *old(paddle), input, dt, x)
            &&& final(effects).sounds@ == (if fires {
                old(effects).sounds@.push(Sound::FireBullet)
            } else {
                old(effects).sounds@
            })
        }),
        balls_wf(old(balls)@) ==> balls_wf(final(balls)@),
        final(effects).flashes@ == old(effects).flashes@,
        final(game).grid == old(game).grid,
        final(game).nlives == old(game).nlives,
        final(game).nballs == old(game).nballs,
        final(game).bricks_left == old(game).bricks_left,
        final(game).avg_delta == old(game).avg_delta,
        final(game).nmeanies == old(game).nmeanies,
        final(game).portal_open == old(game).portal_open,
        final(game).seconds_left == old(game).seconds_left,
        final(game).barrel_dist == old(game).barrel_dist,
        final(game).levels_unlocked == old(game).levels_unlocked,
        final(game).secrets_unlocked == old(game).secrets_unlocked,
        final(game).secrets_generated == old(game).secrets_generated,
        final(game).username == old(game).username,
{
    let dt = game.avg_delta;
    let heading: i64 = (if input.right {
        1i64
    } else {
        0i64
    }) - (if input.left {
        1i64
    } else {
        0i64
    });
    let speed: i64 = if input.fast {
        PADDLE_MAX_SPEED
    } else {
        PADDLE_MIN_SPEED
    };
    let mut delta: i128 = 0;
    if heading != 0 {
        assert(heading * speed == input.velocity()) by (nonlinear_arith)
            requires
                heading == input.heading(),
                speed == (if input.fast {
                    PADDLE_MAX_SPEED
                } else {
                    PADDLE_MIN_SPEED
                }),
        ;
        assert(-PADDLE_MAX_SPEED <= heading * speed <= PADDLE_MAX_SPEED) by (nonlinear_arith)
            requires
                -1 <= heading <= 1,
                0 <= speed <= PADDLE_MAX_SPEED,
        ;
        let mut new_x: i64 = sat_add(paddle.x, travel(heading * speed, dt));
        let half: i64 = (paddle_size(paddle.variant).x / 2) as i64;
        let min_x: i64 = BALLAREA_MINX + half;
        let mut max_x: i64 = BALLAREA_MAXX - half;
        if game.portal_open {
            max_x = max_x + PORTAL_DEPTH;
            if new_x > max_x {
                game.current_level = game.current_level + 1;
                return true;
            }
        }
        if new_x < min_x {
            new_x = min_x;
        } else if new_x > max_x {
            new_x = max_x;
        }
        delta = new_x as i128 - paddle.x as i128;
        paddle.x = new_x;
    }
    let ghost start = balls@;
    let ghost carried = |b: Ball| ball_carried(b, delta as int, input.fire);
    let shift = saturate(delta);
    let n = balls.len();
    let mut j: usize = 0;
    while j < n
        invariant
            j <= n,
            n == start.len(),
            balls@.len() == n,
            shift == sat(delta as int),
            carried == |b: Ball| ball_carried(b, delta as int, input.fire),
            forall|i: int| 0 <= i < j ==> #[trigger] balls@[i] == carried(start[i]),
            forall|i: int| j <= i < n ==> #[trigger] balls@[i] == start[i],
        decreases n - j,
    {
        let mut ball = balls[j];
        if ball.caught {
            ball.position.x = sat_add(ball.position.x, shift);
            ball.caught = !input.fire;
            balls[j] = ball;
        }
        j = j + 1;
    }
    proof {
        assert(balls@ =~= start.map_values(carried));
        if balls_wf(start) {
            assert forall|i: int| 0 <= i < balls@.len() implies (#[trigger] balls@[i]).wf() by {
                assert(start[i].wf());
            }
        }
    }
    paddle.gun_timer.tick(dt as u64);
    if paddle.variant == PADDLE_GUN && input.fire && paddle.gun_timer.finished() {
        bullets.push(
            Bullet { position: Vector { x: sat_add(paddle.x, GUN_LEFT_X), y: PADDLE_Y + GUN_Y } },
        );
        effects.sounds.push(Sound::FireBullet);
        bullets.push(
            Bullet { position: Vector { x: sat_add(paddle.x, GUN_RIGHT_X), y: PADDLE_Y + GUN_Y } },
        );
        paddle.gun_timer.reset();
        proof {
            assert(bullets@ =~= old(bullets)@ + Paddle::shots(paddle.x));
        }
    }
    false
}

} // verus!
