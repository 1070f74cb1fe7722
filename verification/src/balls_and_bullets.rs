//! Balls and bullets: their motion in steps of one pixel, and what they do
//! to walls, paddle and bricks.

use vstd::prelude::*;
use crate::animation::{Animation, AnimationType};
use crate::barrels::{barrels_wf, Barrel};
use crate::collisions::{
    barrels_dropped, collision, collision_spec, collision_with_bricks, drops, flashes_of,
    grid_after, lives_after, sides_of, strike_keeps, strikes, Body, BrickHit, Collision,
};
use crate::consts::{
    bullet_size, paddle_size, BALLAREA_MAXX, BALLAREA_MAXY, BALLAREA_MINX, BALL_IMPACT_FRAMES,
    BALL_INITIAL_ANGLE, BALL_INITIAL_SPEED, BALL_MAX_SPEED, BALL_MIN_SPEED, BALL_NUDGE_IMPACTS,
    BALL_RADIUS, BALL_SPEEDUP_IMPACTS, BALL_SPEED_DELTA_DEN, BALL_SPEED_DELTA_NUM, BRICK_FRAME_TIME,
    BULLET_IMPACT_FRAMES, BULLET_SPEED, GAMEAREA_CENTER_X, GAMEAREA_MINY, MULTIBALL_ANGLE_RANGE,
    NUDGE_MIN_PART, PADDLE_MAGNET, PADDLE_MAGNET_BORDER, PADDLE_MAX_ANGLE, PADDLE_MIN_ANGLE,
    PADDLE_NORMAL, PADDLE_TYPES, PADDLE_Y,
};
use crate::direction::{
    from_angle, from_angle_spec, lemma_from_angle_is_unit, lemma_rotated_is_unit,
    lemma_steep_angle_rises, lemma_unit_is_small, rotated, TENTH_RADIAN,
};
use crate::fixed::{abs, clamp, over_time, sat, sat_add, saturate, travel, Vector, UNIT};
use crate::game::{flashes_wf, Brick, Effects, Flash, FlashKind, Game, InfoAreaMsg, Message, Sound};
use crate::paddle::Paddle;
use crate::random::{random_range, WeightedDist};
use crate::timer::cap32;

verus! {

/// A ball.
#[derive(Clone, Copy, Debug, PartialEq, Eq, Structural)]
pub struct Ball {
    pub position: Vector,
    /// Impacts since the speed last changed.
    pub impacts: u32,
    /// Impacts since the ball last touched the paddle.
    pub impacts_since_paddle: u32,
    /// Length units per second.
    pub speed: u32,
    /// Unit direction of the motion.
    pub direction: Vector,
    /// Whether a magnetic paddle holds the ball.
    pub caught: bool,
    /// Whether the ball overlapped the paddle at its last step, so that the
    /// overlap is not resolved twice.
    pub in_collision: bool,
}

/// A bullet of the gun; it flies straight up.
#[derive(Clone, Copy, Debug, PartialEq, Eq, Structural)]
pub struct Bullet {
    pub position: Vector,
}

/// The number of lives that the screen shows.
#[derive(Clone, Copy, Debug, PartialEq, Eq, Structural)]
pub struct LivesDisplay {
    pub nlives_displayed: u32,
}

/// How a step of a ball ended.
#[derive(Clone, Copy, Debug, PartialEq, Eq, Structural)]
pub enum StepEnd {
    /// The ball is in play.
    Moving,
    /// The ball fell below the play field.
    Lost,
    /// A magnetic paddle caught the ball.
    Caught,
}

/// The speed after a speed-up: multiplied by the speed delta, and no more
/// than the greatest speed.
pub open spec fn sped_up(speed: u32) -> u32 {
    let faster = (speed * BALL_SPEED_DELTA_NUM) / (BALL_SPEED_DELTA_DEN as int);
    if faster > BALL_MAX_SPEED {
        BALL_MAX_SPEED
    } else {
        faster as u32
    }
}

/// The speed after a slow-down: divided by the speed delta, and no less than
/// the least speed.
pub open spec fn slowed_down(speed: u32) -> u32 {
    let slower = (speed * BALL_SPEED_DELTA_DEN) / (BALL_SPEED_DELTA_NUM as int);
    if slower < BALL_MIN_SPEED {
        BALL_MIN_SPEED
    } else {
        slower as u32
    }
}

/// A speed in percent of the first speed of a ball, rounded to the nearest.
pub open spec fn speed_percent(speed: u32) -> u32 {
    ((speed * 100 + BALL_INITIAL_SPEED / 2) / (BALL_INITIAL_SPEED as int)) as u32
}

/// A speed in percent of the first speed of a ball, rounded to the nearest.
pub fn percent_of_initial(speed: u32) -> (p: u32)
    ensures
        p == speed_percent(speed),
{
    ((speed as u64 * 100 + (BALL_INITIAL_SPEED / 2) as u64) / (BALL_INITIAL_SPEED as u64)) as u32
}

/// The direction turned by `angle`.
pub open spec fn turned(direction: Vector, angle: int) -> Vector {
    rotated(direction, from_angle_spec(angle))
}

/// The direction turned by `angle` and, where that leaves it within a
/// twentieth of horizontal or vertical, by a tenth of a radian more.
pub open spec fn nudged(direction: Vector, angle: int) -> Vector {
    let d = turned(direction, angle);
    if abs(d.x as int) < NUDGE_MIN_PART || abs(d.y as int) < NUDGE_MIN_PART {
        rotated(d, from_angle_spec(TENTH_RADIAN as int))
    } else {
        d
    }
}

/// Turns a direction by `angle`, and by a tenth of a radian more where the
/// result would be almost horizontal or almost vertical.
pub fn nudge_by(direction: Vector, angle: i64) -> (d: Vector)
    requires
        direction.is_unit(),
    ensures
        d == nudged(direction, angle as int),
        d.is_unit(),
{
    let turned = direction.rotate(from_angle(angle));
    proof {
        lemma_unit_is_small(turned);
    }
    let ax = if turned.x < 0 {
        -turned.x
    } else {
        turned.x
    };
    let ay = if turned.y < 0 {
        -turned.y
    } else {
        turned.y
    };
    if ax < NUDGE_MIN_PART || ay < NUDGE_MIN_PART {
        turned.rotate(from_angle(TENTH_RADIAN))
    } else {
        turned
    }
}

/// Turns a direction by a random angle of less than `max_rotation` to either
/// side, so that a ball leaves a loop of bounces.
pub fn nudge_ball(direction: Vector, max_rotation: i64) -> (d: Vector)
    requires
        direction.is_unit(),
        max_rotation > 0,
    ensures
        d.is_unit(),
        exists|angle: int|
            -max_rotation <= angle < max_rotation && d == #[trigger] nudged(direction, angle),
{
    let angle = random_range(-max_rotation, max_rotation);
    nudge_by(direction, angle)
}

/// Where a ball rests on a paddle of the given variant: on top of it.
pub open spec fn rest_height(variant: usize) -> int {
    PADDLE_Y + paddle_size(variant).y / 2 + BALL_RADIUS
}

/// The angle at which a ball that lands on the paddle at `ball_x` leaves it:
/// `PADDLE_MIN_ANGLE` at the right end of the paddle, `PADDLE_MAX_ANGLE` at
/// its left end, and in proportion in between.
pub open spec fn bounce_angle(paddle: Paddle, ball_x: int) -> int {
    let width = paddle_size(paddle.variant).x as int;
    let dx = clamp(paddle.x + width / 2 - ball_x, 0, width);
    PADDLE_MIN_ANGLE + ((PADDLE_MAX_ANGLE - PADDLE_MIN_ANGLE) * dx) / width
}

/// Whether a ball that lands on the paddle at `ball_x` is held: the paddle
/// is magnetic and the ball is not within the border at either end.
pub open spec fn magnet_holds(paddle: Paddle, ball_x: int) -> bool {
    let width = paddle_size(paddle.variant).x as int;
    let max_x = paddle.x + width / 2;
    &&& paddle.variant == PADDLE_MAGNET
    &&& ball_x >= max_x - width + PADDLE_MAGNET_BORDER
    &&& ball_x <= max_x - PADDLE_MAGNET_BORDER
}

impl Ball {
    /// The speed is within its bounds and the direction has unit length.
    pub open spec fn wf(self) -> bool {
        &&& BALL_MIN_SPEED <= self.speed <= BALL_MAX_SPEED
        &&& self.direction.is_unit()
    }

    /// Says whether the ball is well formed.
    pub fn is_wf(&self) -> (b: bool)
        ensures
            b == self.wf(),
    {
        BALL_MIN_SPEED <= self.speed && self.speed <= BALL_MAX_SPEED
            && self.direction.has_unit_length()
    }

    /// The ball as a body.
    pub open spec fn body(self) -> Body {
        Body::Round(self.position, BALL_RADIUS)
    }

    /// Whether the ball reaches beyond the left wall.
    pub open spec fn at_left_wall(self) -> bool {
        self.position.x - BALL_RADIUS < BALLAREA_MINX
    }

    /// Whether the ball reaches beyond the right wall.
    pub open spec fn at_right_wall(self) -> bool {
        self.position.x + BALL_RADIUS > BALLAREA_MAXX
    }

    /// Whether the ball reaches beyond the top wall.
    pub open spec fn at_top_wall(self) -> bool {
        self.position.y + BALL_RADIUS > BALLAREA_MAXY
    }

    /// Whether the whole ball is below the play field.
    pub open spec fn below_field(self) -> bool {
        self.position.y + BALL_RADIUS < GAMEAREA_MINY
    }

    /// The points at which the ball touches the walls it is at: left,
    /// right, top, in this order.
    pub open spec fn wall_marks(self) -> Seq<Vector> {
        let p = self.position;
        let left = if self.at_left_wall() {
            seq![Vector { x: sat(p.x - BALL_RADIUS) as i64, y: p.y }]
        } else {
            Seq::empty()
        };
        let right = if self.at_right_wall() {
            seq![Vector { x: sat(p.x + BALL_RADIUS) as i64, y: p.y }]
        } else {
            Seq::empty()
        };
        let top = if self.at_top_wall() {
            seq![Vector { x: p.x, y: sat(p.y + BALL_RADIUS) as i64 }]
        } else {
            Seq::empty()
        };
        left + right + top
    }

    /// The ball one step on: moved by its direction, turned away from every
    /// wall it then is at, with one impact counted for each.
    pub open spec fn stepped(self) -> Ball {
        let moved = Ball { position: self.position.plus(self.direction), ..self };
        let d1 = if moved.at_left_wall() {
            self.direction.rightward()
        } else {
            self.direction
        };
        let d2 = if moved.at_right_wall() {
            d1.leftward()
        } else {
            d1
        };
        let d3 = if moved.at_top_wall() {
            d2.downward()
        } else {
            d2
        };
        Ball {
            direction: d3,
            impacts: cap32(self.impacts + moved.wall_marks().len()),
            impacts_since_paddle: cap32(self.impacts_since_paddle + moved.wall_marks().len()),
            ..moved
        }
    }

    /// Whether the ball lands on the paddle and is held by its magnet: it
    /// meets the top of the paddle, coming down, at a new contact, and the
    /// magnet holds there.
    pub open spec fn caught_by(self, paddle: Paddle) -> bool {
        &&& !self.in_collision
        &&& collision_spec(self.body(), paddle.center(), paddle_size(paddle.variant)) == Some(
            Collision::Top,
        )
        &&& self.direction.y < 0
        &&& magnet_holds(paddle, self.position.x as int)
    }

    /// Whether the ball and the paddle meet at a new contact.
    pub open spec fn strikes_paddle(self, paddle: Paddle) -> bool {
        &&& !self.in_collision
        &&& collision_spec(self.body(), paddle.center(), paddle_size(paddle.variant)) is Some
    }

    /// The ball after the paddle had its say. Apart from the paddle, the
    /// ball is free to meet it anew. While the contact lasts, nothing
    /// changes. At a new contact the impacts since the paddle start over;
    /// on top of the paddle a ball that comes down leaves at the bounce
    /// angle, or is held by the magnet and set to rest on the paddle; on
    /// another side it is turned away from the paddle.
    pub open spec fn off_paddle(self, paddle: Paddle) -> Ball {
        match collision_spec(self.body(), paddle.center(), paddle_size(paddle.variant)) {
            None => Ball { in_collision: false, ..self },
            Some(side) => if self.in_collision {
                self
            } else {
                let met = Ball { impacts_since_paddle: 0, in_collision: true, ..self };
                match side {
                    Collision::Top => if self.direction.y < 0 {
                        let leaving = from_angle_spec(bounce_angle(paddle, self.position.x as int));
                        if magnet_holds(paddle, self.position.x as int) {
                            Ball {
                                direction: leaving,
                                caught: true,
                                in_collision: false,
                                position: Vector {
                                    x: self.position.x,
                                    y: rest_height(paddle.variant) as i64,
                                },
                                ..met
                            }
                        } else {
                            Ball { direction: leaving, ..met }
                        }
                    } else {
                        met
                    },
                    Collision::Left => Ball { direction: self.direction.leftward(), ..met },
                    Collision::Right => Ball { direction: self.direction.rightward(), ..met },
                    Collision::Bottom => Ball { direction: self.direction.downward(), ..met },
                }
            },
        }
    }

    /// Moves the ball one step and turns it away from the walls. Returns the
    /// points at which it touches a wall.
    pub fn step(&mut self) -> (marks: Vec<Vector>)
        requires
            old(self).wf(),
        ensures
            *final(self) == old(self).stepped(),
            final(self).wf(),
            marks@ == final(self).wall_marks(),
    {
        let mut marks: Vec<Vector> = Vec::new();
        self.position = self.position.offset(self.direction);
        let x = self.position.x as i128;
        let y = self.position.y as i128;
        let r = BALL_RADIUS as i128;
        if x - r < BALLAREA_MINX as i128 {
            self.direction = self.direction.point_right();
            marks.push(Vector { x: saturate(x - r), y: self.position.y });
        }
        if x + r > BALLAREA_MAXX as i128 {
            self.direction = self.direction.point_left();
            marks.push(Vector { x: saturate(x + r), y: self.position.y });
        }
        if y + r > BALLAREA_MAXY as i128 {
            self.direction = self.direction.point_down();
            marks.push(Vector { x: self.position.x, y: saturate(y + r) });
        }
        self.impacts = bump(self.impacts, marks.len());
        self.impacts_since_paddle = bump(self.impacts_since_paddle, marks.len());
        assert(marks@ =~= self.wall_marks());
        marks
    }

    /// Resolves the ball against the paddle. Returns whether the magnet
    /// caught it.
    pub fn meet_paddle(&mut self, paddle: &Paddle) -> (caught: bool)
        requires
            old(self).wf(),
            paddle.wf(),
        ensures
            *final(self) == old(self).off_paddle(*paddle),
            caught == old(self).caught_by(*paddle),
            final(self).wf(),
    {
        let p_size = paddle_size(paddle.variant);
        let contact = collision(
            Body::Round(self.position, BALL_RADIUS),
            paddle.position(),
            p_size,
        );
        match contact {
            None => {
                self.in_collision = false;
                false
            },
            Some(side) => {
                if self.in_collision {
                    return false;
                }
                self.impacts_since_paddle = 0;
                self.in_collision = true;
                match side {
                    Collision::Top => {
                        if self.direction.y < 0 {
                            let width = p_size.x as i128;
                            let max_x: i128 = paddle.x as i128 + width / 2;
                            let min_x: i128 = max_x - width;
                            let ball_x = self.position.x as i128;
                            let gap: i128 = max_x - ball_x;
                            let dx: i128 = if gap < 0 {
                                0
                            } else if gap > width {
                                width
                            } else {
                                gap
                            };
                            assert(0 <= (PADDLE_MAX_ANGLE - PADDLE_MIN_ANGLE) * dx
                                <= (PADDLE_MAX_ANGLE - PADDLE_MIN_ANGLE) * width)
                                by (nonlinear_arith)
                                requires
                                    0 <= dx <= width,
                            ;
                            let angle: i128 = PADDLE_MIN_ANGLE as i128 + ((PADDLE_MAX_ANGLE
                                - PADDLE_MIN_ANGLE) as i128 * dx) / width;
                            assert(PADDLE_MIN_ANGLE <= angle <= PADDLE_MAX_ANGLE)
                                by (nonlinear_arith)
                                requires
                                    angle == PADDLE_MIN_ANGLE + ((PADDLE_MAX_ANGLE
                                        - PADDLE_MIN_ANGLE) * dx) / (width as int),
                                    0 <= (PADDLE_MAX_ANGLE - PADDLE_MIN_ANGLE) * dx <= (
                                    PADDLE_MAX_ANGLE - PADDLE_MIN_ANGLE) * width,
                                    width > 0,
                            ;
                            self.direction = from_angle(angle as i64);
                            if paddle.variant == PADDLE_MAGNET && ball_x >= min_x
                                + PADDLE_MAGNET_BORDER as i128 && ball_x <= max_x
                                - PADDLE_MAGNET_BORDER as i128 {
                                self.caught = true;
                                self.in_collision = false;
                                self.position.y = PADDLE_Y + (p_size.y / 2) as i64
                                    + BALL_RADIUS as i64;
                                return true;
                            }
                        }
                    },
                    Collision::Left => {
                        self.direction = self.direction.point_left();
                    },
                    Collision::Right => {
                        self.direction = self.direction.point_right();
                    },
                    Collision::Bottom => {
                        self.direction = self.direction.point_down();
                    },
                }
                false
            },
        }
    }
}

/// A counter raised by `n`, held at the largest value it can take.
pub fn bump(count: u32, n: usize) -> (r: u32)
    ensures
        r == cap32(count + n),
{
    if n >= u32::MAX as usize || (n as u32) > u32::MAX - count {
        u32::MAX
    } else {
        count + n as u32
    }
}

/// The direction turned away from a brick that was met on `side`.
pub open spec fn turned_from(d: Vector, side: Collision) -> Vector {
    match side {
        Collision::Left => d.leftward(),
        Collision::Right => d.rightward(),
        Collision::Bottom => d.downward(),
        Collision::Top => d.upward(),
    }
}

/// The direction turned away from each of the bricks met, one after the
/// other.
pub open spec fn reflected(d: Vector, sides: Seq<Collision>) -> Vector
    decreases sides.len(),
{
    if sides.len() == 0 {
        d
    } else {
        turned_from(reflected(d, sides.drop_last()), sides.last())
    }
}

/// The flash of a ball on a wall.
pub open spec fn wall_flash(mark: Vector) -> Flash {
    Flash {
        position: mark,
        kind: FlashKind::Ball,
        animation: Animation::fresh(
            BRICK_FRAME_TIME,
            BALL_IMPACT_FRAMES,
            AnimationType::Despawn,
            Vector { x: 0, y: 0 },
        ),
    }
}

/// How the step of a ball ends: lost below the field, caught by the magnet,
/// or in play.
pub open spec fn step_end(ball: Ball, paddle: Paddle) -> StepEnd {
    let s = ball.stepped();
    if s.below_field() {
        StepEnd::Lost
    } else if s.caught_by(paddle) {
        StepEnd::Caught
    } else {
        StepEnd::Moving
    }
}

/// The bricks that a ball strikes during a step: none when it is lost or
/// caught, else those that it meets after walls and paddle had their say.
pub open spec fn step_strikes(ball: Ball, paddle: Paddle, grid: Seq<Option<Brick>>) -> Seq<
    BrickHit,
> {
    let p = ball.stepped().off_paddle(paddle);
    if step_end(ball, paddle) == StepEnd::Moving {
        strikes(p.body(), p.direction, grid)
    } else {
        Seq::empty()
    }
}

/// The ball after a step: moved and turned by the walls; unless it is lost,
/// turned or caught by the paddle; unless it is caught, turned by the bricks
/// it strikes.
pub open spec fn step_ball(ball: Ball, paddle: Paddle, grid: Seq<Option<Brick>>) -> Ball {
    let s = ball.stepped();
    match step_end(ball, paddle) {
        StepEnd::Lost => s,
        StepEnd::Caught => s.off_paddle(paddle),
        StepEnd::Moving => s.off_paddle(paddle).off_bricks(
            sides_of(step_strikes(ball, paddle, grid)),
        ),
    }
}

/// The grid after the step of a ball.
pub open spec fn step_grid(ball: Ball, paddle: Paddle, grid: Seq<Option<Brick>>) -> Seq<
    Option<Brick>,
> {
    let p = ball.stepped().off_paddle(paddle);
    if step_end(ball, paddle) == StepEnd::Moving {
        grid_after(p.body(), p.direction, grid)
    } else {
        grid
    }
}

/// The sounds of a step: none for a lost ball; else one for each wall, then
/// that of the magnet or of the paddle at a new contact, then one if any
/// brick was struck.
pub open spec fn step_sounds(ball: Ball, paddle: Paddle, grid: Seq<Option<Brick>>) -> Seq<Sound> {
    let s = ball.stepped();
    let walls = Seq::new(s.wall_marks().len(), |i: int| Sound::HitWall);
    let contact = if s.caught_by(paddle) {
        seq![Sound::Magnet]
    } else if s.strikes_paddle(paddle) {
        seq![Sound::Paddle]
    } else {
        Seq::empty()
    };
    let bricks = if step_strikes(ball, paddle, grid).len() > 0 {
        seq![Sound::HitBrick]
    } else {
        Seq::empty()
    };
    if s.below_field() {
        Seq::empty()
    } else {
        walls + contact + bricks
    }
}

/// The flashes of a step: none for a lost ball; else one at each wall, then
/// one on each struck brick.
pub open spec fn step_flashes(ball: Ball, paddle: Paddle, grid: Seq<Option<Brick>>) -> Seq<Flash> {
    let s = ball.stepped();
    if s.below_field() {
        Seq::empty()
    } else {
        s.wall_marks().map_values(|m: Vector| wall_flash(m)) + flashes_of(
            step_strikes(ball, paddle, grid),
        )
    }
}

/// Every flash of a step has a well-formed animation.
pub proof fn lemma_step_flashes_wf(ball: Ball, paddle: Paddle, grid: Seq<Option<Brick>>)
    ensures
        flashes_wf(step_flashes(ball, paddle, grid)),
{
    let flashes = step_flashes(ball, paddle, grid);
    let walls = ball.stepped().wall_marks().map_values(|m: Vector| wall_flash(m));
    let bricks = flashes_of(step_strikes(ball, paddle, grid));
    assert forall|i: int| 0 <= i < flashes.len() implies (#[trigger] flashes[i]).animation.wf() by {
        if i < walls.len() {
            assert(flashes[i] == walls[i]);
        } else {
            assert(flashes[i] == bricks[i - walls.len()]);
        }
    }
}

impl Ball {
    /// The ball turned away from the bricks met, with one impact counted
    /// for each.
    pub open spec fn off_bricks(self, sides: Seq<Collision>) -> Ball {
        Ball {
            direction: reflected(self.direction, sides),
            impacts: cap32(self.impacts + sides.len()),
            impacts_since_paddle: cap32(self.impacts_since_paddle + sides.len()),
            ..self
        }
    }

    /// Turns the ball away from the bricks met and counts the impacts.
    pub fn bounce(&mut self, sides: &Vec<Collision>)
        requires
            old(self).wf(),
        ensures
            *final(self) == old(self).off_bricks(sides@),
            final(self).wf(),
    {
        self.impacts = bump(self.impacts, sides.len());
        self.impacts_since_paddle = bump(self.impacts_since_paddle, sides.len());
        let mut k: usize = 0;
        while k < sides.len()
            invariant
                k <= sides.len(),
                self.direction.is_unit(),
                self.direction == reflected(old(self).direction, sides@.subrange(0, k as int)),
                self.impacts == cap32(old(self).impacts + sides@.len()),
                self.impacts_since_paddle == cap32(old(self).impacts_since_paddle + sides@.len()),
                self.position == old(self).position,
                self.speed == old(self).speed,
                self.caught == old(self).caught,
                self.in_collision == old(self).in_collision,
            decreases sides.len() - k,
        {
            self.direction = match sides[k] {
                Collision::Left => self.direction.point_left(),
                Collision::Right => self.direction.point_right(),
                Collision::Bottom => self.direction.point_down(),
                Collision::Top => self.direction.point_up(),
            };
            proof {
                assert(sides@.subrange(0, k + 1).drop_last() =~= sides@.subrange(0, k as int));
            }
            k = k + 1;
        }
        proof {
            assert(sides@.subrange(0, sides@.len() as int) =~= sides@);
        }
    }
}

/// Moves a ball one step, one pixel along its direction, and resolves it
/// against the walls, the paddle and the bricks, in this order. A ball
/// below the field is lost, and nothing else happens at that step. A ball
/// caught by the magnet meets no brick at that step.
pub fn ball_step(
    ball: &mut Ball,
    paddle: &Paddle,
    effects: &mut Effects,
    barrels: &mut Vec<Barrel>,
    game: &mut Game,
) -> (end: StepEnd)
    requires
        old(ball).wf(),
        paddle.wf(),
        old(game).wf(),
    ensures
        final(ball).wf(),
        final(game).wf(),
        end == step_end(*old(ball), *paddle),
        *final(ball) == step_ball(*old(ball), *paddle, old(game).grid@),
        final(game).grid@ == step_grid(*old(ball), *paddle, old(game).grid@),
        final(game).bricks_left <= old(game).bricks_left,
        final(game).nlives == lives_after(
            old(game).nlives,
            old(game).bricks_left,
            final(game).bricks_left,
        ),
        strike_keeps(old(game), final(game)),
        final(effects).sounds@ == old(effects).sounds@ + step_sounds(
            *old(ball),
            *paddle,
            old(game).grid@,
        ),
        final(effects).flashes@ == old(effects).flashes@ + step_flashes(
            *old(ball),
            *paddle,
            old(game).grid@,
        ),
        drops(
            old(barrels)@,
            final(barrels)@,
            step_strikes(*old(ball), *paddle, old(game).grid@),
            old(game).barrel_dist,
        ),
        barrels_dropped(
            old(barrels)@,
            final(barrels)@,
            step_strikes(*old(ball), *paddle, old(game).grid@),
            old(game).barrel_dist,
        ),
{
    let marks = ball.step();
    let ghost s = *ball;
    let ghost grid = game.grid@;
    if ball.position.y as i128 + (BALL_RADIUS as i128) < GAMEAREA_MINY as i128 {
        proof {
            assert(effects.sounds@ + Seq::<Sound>::empty() =~= effects.sounds@);
            assert(effects.flashes@ + Seq::<Flash>::empty() =~= effects.flashes@);
            assert(barrels@.subrange(0, barrels@.len() as int) =~= barrels@);
        }
        return StepEnd::Lost;
    }
    let mut k: usize = 0;
    while k < marks.len()
        invariant
            k <= marks.len(),
            effects.sounds@ == old(effects).sounds@ + Seq::new(k as nat, |i: int| Sound::HitWall),
            effects.flashes@ == old(effects).flashes@ + marks@.subrange(0, k as int).map_values(
                |m: Vector| wall_flash(m),
            ),
        decreases marks.len() - k,
    {
        let ghost sounds = effects.sounds@;
        let ghost flashes = effects.flashes@;
        effects.flashes.push(
            Flash {
                position: marks[k],
                kind: FlashKind::Ball,
                animation: Animation::new(
                    BRICK_FRAME_TIME,
                    BALL_IMPACT_FRAMES,
                    AnimationType::Despawn,
                    Vector { x: 0, y: 0 },
                ),
            },
        );
        effects.sounds.push(Sound::HitWall);
        k = k + 1;
        proof {
            assert(effects.sounds@ =~= old(effects).sounds@ + Seq::new(
                k as nat,
                |i: int| Sound::HitWall,
            ));
            assert(effects.flashes@ =~= old(effects).flashes@ + marks@.subrange(
                0,
                k as int,
            ).map_values(|m: Vector| wall_flash(m)));
        }
    }
    proof {
        assert(marks@.subrange(0, marks@.len() as int) =~= marks@);
    }
    let ghost wall_sounds = Seq::new(marks@.len(), |i: int| Sound::HitWall);
    let ghost wall_flashes = marks@.map_values(|m: Vector| wall_flash(m));
    let fresh_contact = !ball.in_collision;
    let caught = ball.meet_paddle(paddle);
    let ghost p = *ball;
    if caught {
        effects.sounds.push(Sound::Magnet);
        proof {
            assert(effects.sounds@ =~= old(effects).sounds@ + (wall_sounds + seq![Sound::Magnet]
                + Seq::<Sound>::empty()));
            assert(effects.flashes@ =~= old(effects).flashes@ + (wall_flashes + flashes_of(
                Seq::<BrickHit>::empty(),
            )));
            assert(barrels@.subrange(0, barrels@.len() as int) =~= barrels@);
        }
        return StepEnd::Caught;
    }
    if fresh_contact && ball.in_collision {
        effects.sounds.push(Sound::Paddle);
    }
    let ghost contact_sounds = if s.strikes_paddle(*paddle) {
        seq![Sound::Paddle]
    } else {
        Seq::<Sound>::empty()
    };
    assert(effects.sounds@ =~= old(effects).sounds@ + (wall_sounds + contact_sounds));
    let collisions = collision_with_bricks(
        effects,
        barrels,
        Body::Round(ball.position, BALL_RADIUS),
        ball.direction,
        game,
    );
    if collisions.len() > 0 {
        effects.sounds.push(Sound::HitBrick);
    }
    ball.bounce(&collisions);
    proof {
        let hits = strikes(p.body(), p.direction, grid);
        assert(sides_of(hits).len() == hits.len());
        let brick_sounds = if hits.len() > 0 {
            seq![Sound::HitBrick]
        } else {
            Seq::<Sound>::empty()
        };
        assert(effects.sounds@ =~= old(effects).sounds@ + (wall_sounds + contact_sounds
            + brick_sounds));
        assert(effects.flashes@ =~= old(effects).flashes@ + (wall_flashes + flashes_of(hits)));
    }
    StepEnd::Moving
}

/// Whether `after` is `before` with something added at its end.
pub open spec fn extends<T>(before: Seq<T>, after: Seq<T>) -> bool {
    before.len() <= after.len() && after.subrange(0, before.len() as int) == before
}

/// The speed after a speed-up: multiplied by the speed delta, and no more
/// than the greatest speed.
pub fn speed_up(speed: u32) -> (s: u32)
    ensures
        s == sped_up(speed),
        speed <= BALL_MAX_SPEED ==> speed <= s <= BALL_MAX_SPEED,
{
    let faster: u64 = (speed as u64 * BALL_SPEED_DELTA_NUM) / BALL_SPEED_DELTA_DEN;
    if faster > BALL_MAX_SPEED as u64 {
        BALL_MAX_SPEED
    } else {
        faster as u32
    }
}

/// The speed after a slow-down: divided by the speed delta, and no less than
/// the least speed.
pub fn slow_down(speed: u32) -> (s: u32)
    ensures
        s == slowed_down(speed),
        speed >= BALL_MIN_SPEED ==> BALL_MIN_SPEED <= s <= speed,
{
    let slower: u64 = (speed as u64 * BALL_SPEED_DELTA_DEN) / BALL_SPEED_DELTA_NUM;
    if slower < BALL_MIN_SPEED as u64 {
        BALL_MIN_SPEED
    } else {
        slower as u32
    }
}

/// Whether `after` is what the end of a tick can make of the ball `before`.
/// With more impacts than `BALL_SPEEDUP_IMPACTS` the ball speeds up and
/// counts its impacts anew. With more impacts since the paddle than
/// `BALL_NUDGE_IMPACTS` its direction is nudged by an angle within the nudge
/// range, and it counts those anew.
pub open spec fn settles_to(before: Ball, after: Ball) -> bool {
    &&& after.position == before.position
    &&& after.caught == before.caught
    &&& after.in_collision == before.in_collision
    &&& after.impacts == (if before.impacts > BALL_SPEEDUP_IMPACTS {
        0
    } else {
        before.impacts
    })
    &&& after.speed == (if before.impacts > BALL_SPEEDUP_IMPACTS {
        sped_up(before.speed)
    } else {
        before.speed
    })
    &&& after.impacts_since_paddle == (if before.impacts_since_paddle > BALL_NUDGE_IMPACTS {
        0
    } else {
        before.impacts_since_paddle
    })
    &&& if before.impacts_since_paddle > BALL_NUDGE_IMPACTS {
        exists|angle: int|
            -MULTIBALL_ANGLE_RANGE <= angle < MULTIBALL_ANGLE_RANGE && after.direction
                == #[trigger] nudged(before.direction, angle)
    } else {
        after.direction == before.direction
    }
}

/// The status line after the end of a tick of the ball `before`, which left
/// it with the speed `speed`: a nudge is reported before a speed-up, and
/// either shows the line anew.
pub open spec fn settle_message(before: Ball, speed: u32, msg: InfoAreaMsg) -> InfoAreaMsg {
    if before.impacts_since_paddle > BALL_NUDGE_IMPACTS {
        InfoAreaMsg { text: Message::Nudge(speed_percent(speed)), timer: msg.timer.restarted() }
    } else if before.impacts > BALL_SPEEDUP_IMPACTS {
        InfoAreaMsg { text: Message::Speed(speed_percent(speed)), timer: msg.timer.restarted() }
    } else {
        msg
    }
}

impl Ball {
    /// Ends the tick of a ball: speeds it up after enough impacts, and nudges
    /// it after enough impacts without a touch of the paddle.
    pub fn settle(&mut self, msg: &mut InfoAreaMsg)
        requires
            old(self).wf(),
        ensures
            final(self).wf(),
            settles_to(*old(self), *final(self)),
            *final(msg) == settle_message(*old(self), final(self).speed, *old(msg)),
    {
        if self.impacts > BALL_SPEEDUP_IMPACTS {
            self.impacts = 0;
            self.speed = speed_up(self.speed);
            msg.text = Message::Speed(percent_of_initial(self.speed));
            msg.timer.reset();
        }
        if self.impacts_since_paddle > BALL_NUDGE_IMPACTS {
            self.direction = nudge_ball(self.direction, MULTIBALL_ANGLE_RANGE);
            self.impacts_since_paddle = 0;
            msg.text = Message::Nudge(percent_of_initial(self.speed));
            msg.timer.reset();
        }
    }
}

/// A ball, the grid and how the ball's last step ended.
pub struct Run {
    pub ball: Ball,
    pub grid: Seq<Option<Brick>>,
    pub end: StepEnd,
}

/// The ball and the grid after up to `n` steps: the steps end with the one
/// at which the ball is lost or caught.
#[verifier::opaque]
pub open spec fn run(ball: Ball, paddle: Paddle, grid: Seq<Option<Brick>>, n: nat) -> Run
    decreases n,
{
    if n == 0 {
        Run { ball, grid, end: StepEnd::Moving }
    } else {
        let before = run(ball, paddle, grid, (n - 1) as nat);
        if before.end == StepEnd::Moving {
            Run {
                ball: step_ball(before.ball, paddle, before.grid),
                grid: step_grid(before.ball, paddle, before.grid),
                end: step_end(before.ball, paddle),
            }
        } else {
            before
        }
    }
}

/// The sounds of up to `n` steps of a ball, in their order.
#[verifier::opaque]
pub open spec fn run_sounds(ball: Ball, paddle: Paddle, grid: Seq<Option<Brick>>, n: nat) -> Seq<
    Sound,
>
    decreases n,
{
    if n == 0 {
        Seq::empty()
    } else {
        let before = run(ball, paddle, grid, (n - 1) as nat);
        let sounds = run_sounds(ball, paddle, grid, (n - 1) as nat);
        if before.end == StepEnd::Moving {
            sounds + step_sounds(before.ball, paddle, before.grid)
        } else {
            sounds
        }
    }
}

/// The flashes of up to `n` steps of a ball, in their order.
#[verifier::opaque]
pub open spec fn run_flashes(ball: Ball, paddle: Paddle, grid: Seq<Option<Brick>>, n: nat) -> Seq<
    Flash,
>
    decreases n,
{
    if n == 0 {
        Seq::empty()
    } else {
        let before = run(ball, paddle, grid, (n - 1) as nat);
        let flashes = run_flashes(ball, paddle, grid, (n - 1) as nat);
        if before.end == StepEnd::Moving {
            flashes + step_flashes(before.ball, paddle, before.grid)
        } else {
            flashes
        }
    }
}

/// Whether `after` is what the step that follows `at` can leave of the
/// barrels `before`: the bricks that break at that step may drop barrels.
pub open spec fn step_drops(
    at: Run,
    paddle: Paddle,
    dist: WeightedDist,
    before: Seq<Barrel>,
    after: Seq<Barrel>,
) -> bool {
    if at.end == StepEnd::Moving {
        drops(before, after, step_strikes(at.ball, paddle, at.grid), dist)
    } else {
        after == before
    }
}

/// Whether `after` is what up to `n` steps of a ball can leave of the
/// barrels `before`.
#[verifier::opaque]
pub open spec fn run_drops(
    ball: Ball,
    paddle: Paddle,
    grid: Seq<Option<Brick>>,
    dist: WeightedDist,
    before: Seq<Barrel>,
    after: Seq<Barrel>,
    n: nat,
) -> bool
    decreases n,
{
    if n == 0 {
        after == before
    } else {
        let at = run(ball, paddle, grid, (n - 1) as nat);
        exists|mid: Seq<Barrel>|
            run_drops(ball, paddle, grid, dist, before, mid, (n - 1) as nat)
                && #[trigger] step_drops(at, paddle, dist, mid, after)
    }
}

/// Whether `after` is what the tick of a ball can leave of the barrels
/// `before`.
pub open spec fn tick_drops(
    ball: Ball,
    paddle: Paddle,
    grid: Seq<Option<Brick>>,
    dt: u32,
    dist: WeightedDist,
    before: Seq<Barrel>,
    after: Seq<Barrel>,
) -> bool {
    if ball.caught {
        after == before
    } else {
        run_drops(ball, paddle, grid, dist, before, after, substeps(ball.speed, dt))
    }
}

/// The sounds of the tick of a ball.
pub open spec fn tick_sounds(ball: Ball, paddle: Paddle, grid: Seq<Option<Brick>>, dt: u32) -> Seq<
    Sound,
> {
    if ball.caught {
        Seq::empty()
    } else {
        run_sounds(ball, paddle, grid, substeps(ball.speed, dt))
    }
}

/// The flashes of the tick of a ball.
pub open spec fn tick_flashes(ball: Ball, paddle: Paddle, grid: Seq<Option<Brick>>, dt: u32) -> Seq<
    Flash,
> {
    if ball.caught {
        Seq::empty()
    } else {
        run_flashes(ball, paddle, grid, substeps(ball.speed, dt))
    }
}

/// Number of steps of one pixel that a ball of the given speed makes in `dt`
/// microseconds: the distance in pixels, rounded up.
pub open spec fn substeps(speed: u32, dt: u32) -> nat {
    ((speed * dt + 999_999_999_999) / 1_000_000_000_000) as nat
}

/// The ball and the grid after a tick of `dt` microseconds, before the end
/// of the tick settles the ball. A ball that the paddle holds does not move.
pub open spec fn ticked(ball: Ball, paddle: Paddle, grid: Seq<Option<Brick>>, dt: u32) -> Run {
    if ball.caught {
        Run { ball, grid, end: StepEnd::Caught }
    } else {
        run(ball, paddle, grid, substeps(ball.speed, dt))
    }
}

/// What step `k` of a ball adds to the steps before it.
pub proof fn lemma_next_step(
    ball: Ball,
    paddle: Paddle,
    grid: Seq<Option<Brick>>,
    dist: WeightedDist,
    before: Seq<Barrel>,
    mid: Seq<Barrel>,
    after: Seq<Barrel>,
    k: nat,
)
    ensures
        run(ball, paddle, grid, 0) == (Run { ball, grid, end: StepEnd::Moving }),
        run_sounds(ball, paddle, grid, 0) == Seq::<Sound>::empty(),
        run_flashes(ball, paddle, grid, 0) == Seq::<Flash>::empty(),
        run_drops(ball, paddle, grid, dist, before, before, 0),
        ({
            let at = run(ball, paddle, grid, k);
            &&& run(ball, paddle, grid, k + 1) == (if at.end == StepEnd::Moving {
                Run {
                    ball: step_ball(at.ball, paddle, at.grid),
                    grid: step_grid(at.ball, paddle, at.grid),
                    end: step_end(at.ball, paddle),
                }
            } else {
                at
            })
            &&& run_sounds(ball, paddle, grid, k + 1) == (if at.end == StepEnd::Moving {
                run_sounds(ball, paddle, grid, k) + step_sounds(at.ball, paddle, at.grid)
            } else {
                run_sounds(ball, paddle, grid, k)
            })
            &&& run_flashes(ball, paddle, grid, k + 1) == (if at.end == StepEnd::Moving {
                run_flashes(ball, paddle, grid, k) + step_flashes(at.ball, paddle, at.grid)
            } else {
                run_flashes(ball, paddle, grid, k)
            })
            &&& run_drops(ball, paddle, grid, dist, before, mid, k) && step_drops(
                at,
                paddle,
                dist,
                mid,
                after,
            ) ==> run_drops(ball, paddle, grid, dist, before, after, k + 1)
        }),
{
    reveal_with_fuel(run, 2);
    reveal_with_fuel(run_sounds, 2);
    reveal_with_fuel(run_flashes, 2);
    reveal_with_fuel(run_drops, 2);
}

/// Once the steps have ended, more steps change nothing.
pub proof fn lemma_run_stops(ball: Ball, paddle: Paddle, grid: Seq<Option<Brick>>, k: nat, n: nat)
    requires
        k <= n,
        run(ball, paddle, grid, k).end != StepEnd::Moving,
    ensures
        run(ball, paddle, grid, n) == run(ball, paddle, grid, k),
        run_sounds(ball, paddle, grid, n) == run_sounds(ball, paddle, grid, k),
        run_flashes(ball, paddle, grid, n) == run_flashes(ball, paddle, grid, k),
    decreases n - k,
{
    reveal(run);
    reveal(run_sounds);
    reveal(run_flashes);
    if k < n {
        lemma_run_stops(ball, paddle, grid, k, (n - 1) as nat);
    }
}

/// Once the steps have ended, more steps drop nothing.
pub proof fn lemma_run_drops_stop(
    ball: Ball,
    paddle: Paddle,
    grid: Seq<Option<Brick>>,
    dist: WeightedDist,
    before: Seq<Barrel>,
    after: Seq<Barrel>,
    k: nat,
    n: nat,
)
    requires
        k <= n,
        run(ball, paddle, grid, k).end != StepEnd::Moving,
        run_drops(ball, paddle, grid, dist, before, after, k),
    ensures
        run_drops(ball, paddle, grid, dist, before, after, n),
    decreases n - k,
{
    reveal(run_drops);
    if k < n {
        lemma_run_drops_stop(ball, paddle, grid, dist, before, after, k, (n - 1) as nat);
        lemma_run_stops(ball, paddle, grid, k, (n - 1) as nat);
        assert(step_drops(run(ball, paddle, grid, (n - 1) as nat), paddle, dist, after, after));
    }
}

/// Every flash of the steps of a ball has a well-formed animation.
pub proof fn lemma_run_flashes_wf(ball: Ball, paddle: Paddle, grid: Seq<Option<Brick>>, n: nat)
    ensures
        flashes_wf(run_flashes(ball, paddle, grid, n)),
    decreases n,
{
    reveal(run_flashes);
    if n > 0 {
        let before = run(ball, paddle, grid, (n - 1) as nat);
        let flashes = run_flashes(ball, paddle, grid, (n - 1) as nat);
        lemma_run_flashes_wf(ball, paddle, grid, (n - 1) as nat);
        if before.end == StepEnd::Moving {
            let added = step_flashes(before.ball, paddle, before.grid);
            lemma_step_flashes_wf(before.ball, paddle, before.grid);
            lemma_flashes_wf_join(flashes, added);
        }
    }
}

/// Well-formed flashes joined are well formed.
pub proof fn lemma_flashes_wf_join(first: Seq<Flash>, second: Seq<Flash>)
    requires
        flashes_wf(first),
        flashes_wf(second),
    ensures
        flashes_wf(first + second),
{
    let all = first + second;
    assert forall|i: int| 0 <= i < all.len() implies (#[trigger] all[i]).animation.wf() by {
        if i < first.len() {
            assert(all[i] == first[i]);
        } else {
            assert(all[i] == second[i - first.len()]);
        }
    }
}

/// What a tick of a ball leaves of the game: the grid, the bricks left and
/// the lives go by the grid `grid`, everything else stays.
pub open spec fn game_after_strikes(before: &Game, after: &Game, grid: Seq<Option<Brick>>) -> bool {
    &&& after.wf()
    &&& after.grid@ == grid
    &&& after.bricks_left <= before.bricks_left
    &&& after.nlives == lives_after(before.nlives, before.bricks_left, after.bricks_left)
    &&& strike_keeps(before, after)
}

/// Moves one ball for a tick of `dt` microseconds, step by step, and settles
/// it at the end. A ball that the paddle holds stays as it is.
pub fn ball_tick(
    ball: &mut Ball,
    paddle: &Paddle,
    effects: &mut Effects,
    barrels: &mut Vec<Barrel>,
    msg: &mut InfoAreaMsg,
    dt: u32,
    game: &mut Game,
) -> (end: StepEnd)
    requires
        old(ball).wf(),
        paddle.wf(),
        old(game).wf(),
    ensures
        final(ball).wf(),
        end == ticked(*old(ball), *paddle, old(game).grid@, dt).end,
        game_after_strikes(
            old(game),
            final(game),
            ticked(*old(ball), *paddle, old(game).grid@, dt).grid,
        ),
        old(ball).caught ==> *final(ball) == *old(ball) && *final(msg) == *old(msg),
        !old(ball).caught ==> settles_to(
            ticked(*old(ball), *paddle, old(game).grid@, dt).ball,
            *final(ball),
        ) && *final(msg) == settle_message(
            ticked(*old(ball), *paddle, old(game).grid@, dt).ball,
            final(ball).speed,
            *old(msg),
        ),
        final(effects).sounds@ == old(effects).sounds@ + tick_sounds(
            *old(ball),
            *paddle,
            old(game).grid@,
            dt,
        ),
        final(effects).flashes@ == old(effects).flashes@ + tick_flashes(
            *old(ball),
            *paddle,
            old(game).grid@,
            dt,
        ),
        tick_drops(
            *old(ball),
            *paddle,
            old(game).grid@,
            dt,
            old(game).barrel_dist,
            old(barrels)@,
            final(barrels)@,
        ),
        extends(old(barrels)@, final(barrels)@),
        forall|j: int|
            old(barrels)@.len() <= j < final(barrels)@.len()
                ==> (#[trigger] final(barrels)@[j]).wf(),
{
    if ball.caught {
        proof {
            assert(effects.sounds@ + Seq::<Sound>::empty() =~= effects.sounds@);
            assert(effects.flashes@ + Seq::<Flash>::empty() =~= effects.flashes@);
            assert(barrels@.subrange(0, barrels@.len() as int) =~= barrels@);
        }
        return StepEnd::Caught;
    }
    assert(ball.speed * dt <= 800_000_000 * 0xffff_ffff) by (nonlinear_arith)
        requires
            ball.speed <= 800_000_000,
            dt <= 0xffff_ffff,
    ;
    let steps: u64 = (ball.speed as u64 * dt as u64 + 999_999_999_999) / 1_000_000_000_000;
    let ghost start = *ball;
    let ghost grid = game.grid@;
    let mut end = StepEnd::Moving;
    let mut k: u64 = 0;
    proof {
        lemma_next_step(
            start,
            *paddle,
            grid,
            old(game).barrel_dist,
            barrels@,
            barrels@,
            barrels@,
            0,
        );
        assert(effects.sounds@ + Seq::<Sound>::empty() =~= effects.sounds@);
        assert(effects.flashes@ + Seq::<Flash>::empty() =~= effects.flashes@);
        assert(barrels@.subrange(0, barrels@.len() as int) =~= barrels@);
    }
    while k < steps && end == StepEnd::Moving
        invariant
            k <= steps,
            steps == substeps(start.speed, dt),
            ball.wf(),
            paddle.wf(),
            run(start, *paddle, grid, k as nat) == (Run { ball: *ball, grid: game.grid@, end }),
            game_after_strikes(old(game), game, game.grid@),
            effects.sounds@ == old(effects).sounds@ + run_sounds(start, *paddle, grid, k as nat),
            effects.flashes@ == old(effects).flashes@ + run_flashes(start, *paddle, grid, k as nat),
            run_drops(
                start,
                *paddle,
                grid,
                old(game).barrel_dist,
                old(barrels)@,
                barrels@,
                k as nat,
            ),
            extends(old(barrels)@, barrels@),
            forall|j: int|
                old(barrels)@.len() <= j < barrels@.len() ==> (#[trigger] barrels@[j]).wf(),
        decreases steps - k,
    {
        let ghost sounds = effects.sounds@;
        let ghost flashes = effects.flashes@;
        let ghost fallen = barrels@;
        let ghost from = *ball;
        let ghost bricks = game.grid@;
        end = ball_step(ball, paddle, effects, barrels, game);
        k = k + 1;
        proof {
            lemma_next_step(
                start,
                *paddle,
                grid,
                old(game).barrel_dist,
                old(barrels)@,
                fallen,
                barrels@,
                (k - 1) as nat,
            );
            assert(effects.sounds@ =~= old(effects).sounds@ + run_sounds(
                start,
                *paddle,
                grid,
                k as nat,
            ));
            assert(effects.flashes@ =~= old(effects).flashes@ + run_flashes(
                start,
                *paddle,
                grid,
                k as nat,
            ));
            assert(barrels@.subrange(0, old(barrels)@.len() as int) =~= fallen.subrange(
                0,
                old(barrels)@.len() as int,
            ));
            assert forall|j: int| old(barrels)@.len() <= j < barrels@.len() implies (
            #[trigger] barrels@[j]).wf() by {
                if j < fallen.len() {
                    assert(barrels@[j] == barrels@.subrange(0, fallen.len() as int)[j]);
                }
            }
        }
    }
    proof {
        if k < steps {
            lemma_run_stops(start, *paddle, grid, k as nat, steps as nat);
            lemma_run_drops_stop(
                start,
                *paddle,
                grid,
                old(game).barrel_dist,
                old(barrels)@,
                barrels@,
                k as nat,
                steps as nat,
            );
        }
    }
    ball.settle(msg);
    end
}

/// The smoothed duration of a frame after a frame of `raw` microseconds:
/// four fifths of the old value and one fifth of the new one.
pub open spec fn smoothed(avg: u32, raw: u32) -> u32 {
    ((4 * avg + raw) / 5) as u32
}

/// The grid after the first `k` balls had their tick, one after the other.
#[verifier::opaque]
pub open spec fn grid_after_balls(
    balls: Seq<Ball>,
    paddle: Paddle,
    grid: Seq<Option<Brick>>,
    dt: u32,
    k: nat,
) -> Seq<Option<Brick>>
    decreases k,
{
    if k == 0 {
        grid
    } else {
        ticked(
            balls[k - 1],
            paddle,
            grid_after_balls(balls, paddle, grid, dt, (k - 1) as nat),
            dt,
        ).grid
    }
}

/// Number of balls lost among the first `k`.
#[verifier::opaque]
pub open spec fn balls_lost(
    balls: Seq<Ball>,
    paddle: Paddle,
    grid: Seq<Option<Brick>>,
    dt: u32,
    k: nat,
) -> nat
    decreases k,
{
    if k == 0 {
        0
    } else {
        balls_lost(balls, paddle, grid, dt, (k - 1) as nat) + (if ticked(
            balls[k - 1],
            paddle,
            grid_after_balls(balls, paddle, grid, dt, (k - 1) as nat),
            dt,
        ).end == StepEnd::Lost {
            1nat
        } else {
            0nat
        })
    }
}

/// The sounds of the ticks of the first `k` balls, in their order.
#[verifier::opaque]
pub open spec fn sounds_of_balls(
    balls: Seq<Ball>,
    paddle: Paddle,
    grid: Seq<Option<Brick>>,
    dt: u32,
    k: nat,
) -> Seq<Sound>
    decreases k,
{
    if k == 0 {
        Seq::empty()
    } else {
        sounds_of_balls(balls, paddle, grid, dt, (k - 1) as nat) + tick_sounds(
            balls[k - 1],
            paddle,
            grid_after_balls(balls, paddle, grid, dt, (k - 1) as nat),
            dt,
        )
    }
}

/// The flashes of the ticks of the first `k` balls, in their order.
#[verifier::opaque]
pub open spec fn flashes_of_balls(
    balls: Seq<Ball>,
    paddle: Paddle,
    grid: Seq<Option<Brick>>,
    dt: u32,
    k: nat,
) -> Seq<Flash>
    decreases k,
{
    if k == 0 {
        Seq::empty()
    } else {
        flashes_of_balls(balls, paddle, grid, dt, (k - 1) as nat) + tick_flashes(
            balls[k - 1],
            paddle,
            grid_after_balls(balls, paddle, grid, dt, (k - 1) as nat),
            dt,
        )
    }
}

/// Every flash of the ticks of the balls has a well-formed animation.
pub proof fn lemma_flashes_of_balls_wf(
    balls: Seq<Ball>,
    paddle: Paddle,
    grid: Seq<Option<Brick>>,
    dt: u32,
    k: nat,
)
    ensures
        flashes_wf(flashes_of_balls(balls, paddle, grid, dt, k)),
    decreases k,
{
    reveal(flashes_of_balls);
    if k > 0 {
        lemma_flashes_of_balls_wf(balls, paddle, grid, dt, (k - 1) as nat);
        let ball = balls[k - 1];
        let bricks = grid_after_balls(balls, paddle, grid, dt, (k - 1) as nat);
        if !ball.caught {
            lemma_run_flashes_wf(ball, paddle, bricks, substeps(ball.speed, dt));
        }
        lemma_flashes_wf_join(
            flashes_of_balls(balls, paddle, grid, dt, (k - 1) as nat),
            tick_flashes(ball, paddle, bricks, dt),
        );
    }
}

/// Whether `after` is what the ticks of the first `k` balls can leave of
/// the barrels `before`.
pub open spec fn balls_drops(
    balls: Seq<Ball>,
    paddle: Paddle,
    grid: Seq<Option<Brick>>,
    dt: u32,
    dist: WeightedDist,
    before: Seq<Barrel>,
    after: Seq<Barrel>,
    k: nat,
) -> bool
    decreases k,
{
    if k == 0 {
        after == before
    } else {
        exists|mid: Seq<Barrel>|
            balls_drops(balls, paddle, grid, dt, dist, before, mid, (k - 1) as nat)
                && #[trigger] tick_drops(
                balls[k - 1],
                paddle,
                grid_after_balls(balls, paddle, grid, dt, (k - 1) as nat),
                dt,
                dist,
                mid,
                after,
            )
    }
}

/// The speed of a ball after the end of its tick.
pub open spec fn settled_speed(before: Ball) -> u32 {
    if before.impacts > BALL_SPEEDUP_IMPACTS {
        sped_up(before.speed)
    } else {
        before.speed
    }
}

/// The status line after the first `k` balls had their tick.
#[verifier::opaque]
pub open spec fn message_after_balls(
    balls: Seq<Ball>,
    paddle: Paddle,
    grid: Seq<Option<Brick>>,
    dt: u32,
    msg: InfoAreaMsg,
    k: nat,
) -> InfoAreaMsg
    decreases k,
{
    if k == 0 {
        msg
    } else {
        let before = message_after_balls(balls, paddle, grid, dt, msg, (k - 1) as nat);
        if balls[k - 1].caught {
            before
        } else {
            let moved = ticked(
                balls[k - 1],
                paddle,
                grid_after_balls(balls, paddle, grid, dt, (k - 1) as nat),
                dt,
            ).ball;
            settle_message(moved, settled_speed(moved), before)
        }
    }
}

/// Whether `kept` is what the tick can leave of the first `k` balls: the
/// balls that were not lost, in their order; a ball that the paddle holds as
/// it was, any other moved and then settled.
#[verifier::opaque]
pub open spec fn balls_after(
    balls: Seq<Ball>,
    kept: Seq<Ball>,
    paddle: Paddle,
    grid: Seq<Option<Brick>>,
    dt: u32,
    k: nat,
) -> bool
    decreases k,
{
    if k == 0 {
        kept.len() == 0
    } else {
        let moved = ticked(
            balls[k - 1],
            paddle,
            grid_after_balls(balls, paddle, grid, dt, (k - 1) as nat),
            dt,
        );
        if moved.end == StepEnd::Lost {
            balls_after(balls, kept, paddle, grid, dt, (k - 1) as nat)
        } else {
            &&& kept.len() > 0
            &&& balls_after(balls, kept.drop_last(), paddle, grid, dt, (k - 1) as nat)
            &&& if balls[k - 1].caught {
                kept.last() == balls[k - 1]
            } else {
                settles_to(moved.ball, kept.last())
            }
        }
    }
}

/// What the tick of ball `k` adds to the tick of the balls before it.
pub proof fn lemma_next_ball(
    balls: Seq<Ball>,
    kept: Seq<Ball>,
    paddle: Paddle,
    grid: Seq<Option<Brick>>,
    dt: u32,
    msg: InfoAreaMsg,
    k: nat,
)
    ensures
        grid_after_balls(balls, paddle, grid, dt, 0) == grid,
        balls_lost(balls, paddle, grid, dt, 0) == 0,
        message_after_balls(balls, paddle, grid, dt, msg, 0) == msg,
        balls_after(balls, Seq::empty(), paddle, grid, dt, 0),
        sounds_of_balls(balls, paddle, grid, dt, 0) == Seq::<Sound>::empty(),
        flashes_of_balls(balls, paddle, grid, dt, 0) == Seq::<Flash>::empty(),
        ({
            let bricks = grid_after_balls(balls, paddle, grid, dt, k);
            let moved = ticked(balls[k as int], paddle, bricks, dt);
            &&& grid_after_balls(balls, paddle, grid, dt, k + 1) == moved.grid
            &&& balls_lost(balls, paddle, grid, dt, k + 1) == balls_lost(
                balls,
                paddle,
                grid,
                dt,
                k,
            ) + (if moved.end == StepEnd::Lost {
                1nat
            } else {
                0nat
            })
            &&& message_after_balls(balls, paddle, grid, dt, msg, k + 1) == (if balls[k
                as int].caught {
                message_after_balls(balls, paddle, grid, dt, msg, k)
            } else {
                settle_message(
                    moved.ball,
                    settled_speed(moved.ball),
                    message_after_balls(balls, paddle, grid, dt, msg, k),
                )
            })
            &&& sounds_of_balls(balls, paddle, grid, dt, k + 1) == sounds_of_balls(
                balls,
                paddle,
                grid,
                dt,
                k,
            ) + tick_sounds(balls[k as int], paddle, bricks, dt)
            &&& flashes_of_balls(balls, paddle, grid, dt, k + 1) == flashes_of_balls(
                balls,
                paddle,
                grid,
                dt,
                k,
            ) + tick_flashes(balls[k as int], paddle, bricks, dt)
            &&& balls_after(balls, kept, paddle, grid, dt, k + 1) == (if moved.end
                == StepEnd::Lost {
                balls_after(balls, kept, paddle, grid, dt, k)
            } else {
                &&& kept.len() > 0
                &&& balls_after(balls, kept.drop_last(), paddle, grid, dt, k)
                &&& if balls[k as int].caught {
                    kept.last() == balls[k as int]
                } else {
                    settles_to(moved.ball, kept.last())
                }
            })
        }),
{
    reveal_with_fuel(grid_after_balls, 2);
    reveal_with_fuel(balls_lost, 2);
    reveal_with_fuel(message_after_balls, 2);
    reveal_with_fuel(balls_after, 2);
    reveal_with_fuel(sounds_of_balls, 2);
    reveal_with_fuel(flashes_of_balls, 2);
}

/// What `ball_update` leaves as it was.
pub open spec fn ball_update_keeps(before: &Game, after: &Game) -> bool {
    &&& after.nmeanies == before.nmeanies
    &&& after.current_level == before.current_level
    &&& after.portal_open == before.portal_open
    &&& after.seconds_left == before.seconds_left
    &&& after.barrel_dist == before.barrel_dist
    &&& after.levels_unlocked == before.levels_unlocked
    &&& after.secrets_unlocked == before.secrets_unlocked
    &&& after.secrets_generated == before.secrets_generated
    &&& after.username == before.username
}

/// Whether every ball is well formed.
pub open spec fn balls_wf(balls: Seq<Ball>) -> bool {
    forall|i: int| 0 <= i < balls.len() ==> (#[trigger] balls[i]).wf()
}

/// The stage of a tick that moves the balls. The duration of the frame is
/// smoothed first. Then each ball that the paddle does not hold moves step
/// by step; a ball that falls below the field leaves the game. At the end
/// of its steps a ball may speed up or be nudged.
pub fn ball_update(
    effects: &mut Effects,
    barrels: &mut Vec<Barrel>,
    balls: &mut Vec<Ball>,
    paddle: &Paddle,
    msg: &mut InfoAreaMsg,
    t_step: u32,
    game: &mut Game,
)
    requires
        old(game).wf(),
        paddle.wf(),
        balls_wf(old(balls)@),
        barrels_wf(old(barrels)@),
        old(game).nballs == old(balls)@.len(),
    ensures
        final(game).wf(),
        balls_wf(final(balls)@),
        barrels_wf(final(barrels)@),
        final(game).nballs == final(balls)@.len(),
        final(game).avg_delta == smoothed(old(game).avg_delta, t_step),
        balls_after(
            old(balls)@,
            final(balls)@,
            *paddle,
            old(game).grid@,
            final(game).avg_delta,
            old(balls)@.len(),
        ),
        *final(msg) == message_after_balls(
            old(balls)@,
            *paddle,
            old(game).grid@,
            final(game).avg_delta,
            *old(msg),
            old(balls)@.len(),
        ),
        final(balls)@.len() == old(balls)@.len() - balls_lost(
            old(balls)@,
            *paddle,
            old(game).grid@,
            final(game).avg_delta,
            old(balls)@.len(),
        ),
        final(game).grid@ == grid_after_balls(
            old(balls)@,
            *paddle,
            old(game).grid@,
            final(game).avg_delta,
            old(balls)@.len(),
        ),
        final(game).bricks_left <= old(game).bricks_left,
        final(game).nlives == lives_after(
            old(game).nlives,
            old(game).bricks_left,
            final(game).bricks_left,
        ),
        ball_update_keeps(old(game), final(game)),
        final(effects).sounds@ == old(effects).sounds@ + sounds_of_balls(
            old(balls)@,
            *paddle,
            old(game).grid@,
            final(game).avg_delta,
            old(balls)@.len(),
        ),
        final(effects).flashes@ == old(effects).flashes@ + flashes_of_balls(
            old(balls)@,
            *paddle,
            old(game).grid@,
            final(game).avg_delta,
            old(balls)@.len(),
        ),
        balls_drops(
            old(balls)@,
            *paddle,
            old(game).grid@,
            final(game).avg_delta,
            old(game).barrel_dist,
            old(barrels)@,
            final(barrels)@,
            old(balls)@.len(),
        ),
        extends(old(barrels)@, final(barrels)@),
        flashes_wf(old(effects).flashes@) ==> flashes_wf(final(effects).flashes@),
{
    game.avg_delta = ((4 * (game.avg_delta as u64) + t_step as u64) / 5) as u32;
    let dt = game.avg_delta;
    let ghost grid = old(game).grid@;
    let ghost start = old(balls)@;
    let n = balls.len();
    let mut kept: Vec<Ball> = Vec::new();
    let mut j: usize = 0;
    proof {
        lemma_next_ball(start, kept@, *paddle, grid, dt, *msg, 0);
        assert(effects.sounds@ + Seq::<Sound>::empty() =~= effects.sounds@);
        assert(effects.flashes@ + Seq::<Flash>::empty() =~= effects.flashes@);
        assert(barrels@.subrange(0, barrels@.len() as int) =~= barrels@);
    }
    while j < n
        invariant
            j <= n,
            n == start.len(),
            balls@ == start,
            balls_wf(start),
            paddle.wf(),
            game.wf(),
            dt == game.avg_delta,
            dt == smoothed(old(game).avg_delta, t_step),
            balls_wf(kept@),
            barrels_wf(barrels@),
            kept@.len() == j - balls_lost(start, *paddle, grid, dt, j as nat),
            balls_after(start, kept@, *paddle, grid, dt, j as nat),
            *msg == message_after_balls(start, *paddle, grid, dt, *old(msg), j as nat),
            balls_lost(start, *paddle, grid, dt, j as nat) <= j,
            game.nballs == n - balls_lost(start, *paddle, grid, dt, j as nat),
            game.grid@ == grid_after_balls(start, *paddle, grid, dt, j as nat),
            game.bricks_left <= old(game).bricks_left,
            game.nlives == lives_after(
                old(game).nlives,
                old(game).bricks_left,
                game.bricks_left,
            ),
            ball_update_keeps(old(game), game),
            effects.sounds@ == old(effects).sounds@ + sounds_of_balls(
                start,
                *paddle,
                grid,
                dt,
                j as nat,
            ),
            effects.flashes@ == old(effects).flashes@ + flashes_of_balls(
                start,
                *paddle,
                grid,
                dt,
                j as nat,
            ),
            balls_drops(
                start,
                *paddle,
                grid,
                dt,
                old(game).barrel_dist,
                old(barrels)@,
                barrels@,
                j as nat,
            ),
            extends(old(barrels)@, barrels@),
        decreases n - j,
    {
        let mut ball = balls[j];
        let ghost sounds = effects.sounds@;
        let ghost flashes = effects.flashes@;
        let ghost fallen = barrels@;
        let ghost held = kept@;
        let end = ball_tick(&mut ball, paddle, effects, barrels, msg, dt, game);
        match end {
            StepEnd::Lost => {
                game.nballs = game.nballs - 1;
            },
            _ => {
                kept.push(ball);
                proof {
                    assert(kept@.drop_last() =~= held);
                }
            },
        }
        proof {
            lemma_next_ball(start, kept@, *paddle, grid, dt, *old(msg), j as nat);
        }
        j = j + 1;
        proof {
            assert(tick_drops(
                start[j - 1],
                *paddle,
                grid_after_balls(start, *paddle, grid, dt, (j - 1) as nat),
                dt,
                old(game).barrel_dist,
                fallen,
                barrels@,
            ));
        }
        proof {
            assert(effects.sounds@ =~= old(effects).sounds@ + sounds_of_balls(
                start,
                *paddle,
                grid,
                dt,
                j as nat,
            ));
            assert(effects.flashes@ =~= old(effects).flashes@ + flashes_of_balls(
                start,
                *paddle,
                grid,
                dt,
                j as nat,
            ));
            assert(barrels@.subrange(0, old(barrels)@.len() as int) =~= fallen.subrange(
                0,
                old(barrels)@.len() as int,
            ));
            assert forall|i: int| 0 <= i < barrels@.len() implies (#[trigger] barrels@[i]).wf() by {
                if i < fallen.len() {
                    assert(barrels@[i] == barrels@.subrange(0, fallen.len() as int)[i]);
                }
            }
        }
    }
    *balls = kept;
    proof {
        lemma_flashes_of_balls_wf(start, *paddle, grid, dt, n as nat);
        if flashes_wf(old(effects).flashes@) {
            lemma_flashes_wf_join(
                old(effects).flashes@,
                flashes_of_balls(start, *paddle, grid, dt, n as nat),
            );
        }
    }
}

/// The ball that starts a life: held by the paddle, five pixels right of its
/// centre, at the first speed and the first angle.
pub open spec fn new_ball(paddle_variant: usize, paddle_x: i64) -> Ball {
    Ball {
        position: Vector {
            x: sat(paddle_x + 5 * UNIT) as i64,
            y: rest_height(paddle_variant) as i64,
        },
        impacts: 0,
        impacts_since_paddle: 0,
        speed: BALL_INITIAL_SPEED,
        direction: from_angle_spec(BALL_INITIAL_ANGLE as int),
        caught: true,
        in_collision: false,
    }
}

/// Puts a new ball on the paddle and counts it.
pub fn spawn_new_ball(balls: &mut Vec<Ball>, paddle_variant: usize, paddle_x: i64, game: &mut Game)
    requires
        paddle_variant < PADDLE_TYPES,
        old(game).nballs < u32::MAX,
    ensures
        final(balls)@ == old(balls)@.push(new_ball(paddle_variant, paddle_x)),
        new_ball(paddle_variant, paddle_x).wf(),
        final(game).nballs == old(game).nballs + 1,
        final(game).grid == old(game).grid,
        final(game).nlives == old(game).nlives,
        final(game).bricks_left == old(game).bricks_left,
        final(game).avg_delta == old(game).avg_delta,
        ball_update_keeps(old(game), final(game)),
{
    let size = paddle_size(paddle_variant);
    let ball = Ball {
        position: Vector {
            x: sat_add(paddle_x, 5 * UNIT),
            y: PADDLE_Y + (size.y / 2) as i64 + BALL_RADIUS as i64,
        },
        impacts: 0,
        impacts_since_paddle: 0,
        speed: BALL_INITIAL_SPEED,
        direction: from_angle(BALL_INITIAL_ANGLE),
        caught: true,
        in_collision: false,
    };
    balls.push(ball);
    game.nballs = game.nballs + 1;
}

/// The bullet after flying up for `dt` microseconds.
pub open spec fn bullet_moved(bullet: Bullet, dt: u32) -> Bullet {
    Bullet {
        position: Vector {
            x: bullet.position.x,
            y: sat(bullet.position.y + sat(over_time(BULLET_SPEED as int, dt as int))) as i64,
        },
    }
}

impl Bullet {
    /// The bullet as a body.
    pub open spec fn body(self) -> Body {
        Body::Rectangular(self.position, bullet_size())
    }

    /// Height of the tip of the bullet.
    pub open spec fn top(self) -> int {
        self.position.y + bullet_size().y / 2
    }

    /// Whether the tip of the bullet is above the top wall.
    pub open spec fn at_top_wall(self) -> bool {
        self.top() > BALLAREA_MAXY
    }
}

/// The direction of a bullet: straight up.
pub open spec fn upwards() -> Vector {
    Vector { x: 0, y: UNIT }
}

/// Whether a bullet that has moved explodes: its tip is above the top wall,
/// or it strikes a brick.
pub open spec fn bullet_explodes(moved: Bullet, grid: Seq<Option<Brick>>) -> bool {
    moved.at_top_wall() || strikes(moved.body(), upwards(), grid).len() > 0
}

/// The grid after a bullet that has moved: a bullet below the top wall
/// strikes the bricks it meets.
pub open spec fn grid_after_bullet(moved: Bullet, grid: Seq<Option<Brick>>) -> Seq<Option<Brick>> {
    if moved.at_top_wall() {
        grid
    } else {
        grid_after(moved.body(), upwards(), grid)
    }
}

/// The grid after the first `k` bullets flew for `dt` microseconds.
pub open spec fn grid_after_bullets(
    bullets: Seq<Bullet>,
    grid: Seq<Option<Brick>>,
    dt: u32,
    k: nat,
) -> Seq<Option<Brick>>
    decreases k,
{
    if k == 0 {
        grid
    } else {
        grid_after_bullet(
            bullet_moved(bullets[k - 1], dt),
            grid_after_bullets(bullets, grid, dt, (k - 1) as nat),
        )
    }
}

/// Those of the first `k` bullets that are left after flying for `dt`
/// microseconds, where they then are.
pub open spec fn bullets_left(
    bullets: Seq<Bullet>,
    grid: Seq<Option<Brick>>,
    dt: u32,
    k: nat,
) -> Seq<Bullet>
    decreases k,
{
    if k == 0 {
        Seq::empty()
    } else {
        let before = bullets_left(bullets, grid, dt, (k - 1) as nat);
        let moved = bullet_moved(bullets[k - 1], dt);
        if bullet_explodes(moved, grid_after_bullets(bullets, grid, dt, (k - 1) as nat)) {
            before
        } else {
            before.push(moved)
        }
    }
}

/// Whether `after` is what a bullet that has moved can leave of the barrels
/// `before`: below the top wall, the bricks it breaks may drop barrels.
pub open spec fn bullet_drops(
    moved: Bullet,
    grid: Seq<Option<Brick>>,
    dist: WeightedDist,
    before: Seq<Barrel>,
    after: Seq<Barrel>,
) -> bool {
    if moved.at_top_wall() {
        after == before
    } else {
        drops(before, after, strikes(moved.body(), upwards(), grid), dist)
    }
}

/// Whether `after` is what the first `k` bullets can leave of the barrels
/// `before`.
pub open spec fn bullets_drops(
    bullets: Seq<Bullet>,
    grid: Seq<Option<Brick>>,
    dt: u32,
    dist: WeightedDist,
    before: Seq<Barrel>,
    after: Seq<Barrel>,
    k: nat,
) -> bool
    decreases k,
{
    if k == 0 {
        after == before
    } else {
        exists|mid: Seq<Barrel>|
            bullets_drops(bullets, grid, dt, dist, before, mid, (k - 1) as nat)
                && #[trigger] bullet_drops(
                bullet_moved(bullets[k - 1], dt),
                grid_after_bullets(bullets, grid, dt, (k - 1) as nat),
                dist,
                mid,
                after,
            )
    }
}

/// The flash of a bullet that explodes: at its tip.
pub open spec fn bullet_flash(moved: Bullet) -> Flash {
    Flash {
        position: Vector { x: moved.position.x, y: sat(moved.top()) as i64 },
        kind: FlashKind::Bullet,
        animation: Animation::fresh(
            BRICK_FRAME_TIME,
            BULLET_IMPACT_FRAMES,
            AnimationType::Despawn,
            Vector { x: 0, y: 0 },
        ),
    }
}

/// The flashes of a bullet that has moved: one on each brick it strikes,
/// then its own when it explodes.
pub open spec fn bullet_flashes(moved: Bullet, grid: Seq<Option<Brick>>) -> Seq<Flash> {
    let bricks = if moved.at_top_wall() {
        Seq::empty()
    } else {
        flashes_of(strikes(moved.body(), upwards(), grid))
    };
    if bullet_explodes(moved, grid) {
        bricks.push(bullet_flash(moved))
    } else {
        bricks
    }
}

/// The flashes of the first `k` bullets, in their order.
pub open spec fn flashes_of_bullets(
    bullets: Seq<Bullet>,
    grid: Seq<Option<Brick>>,
    dt: u32,
    k: nat,
) -> Seq<Flash>
    decreases k,
{
    if k == 0 {
        Seq::empty()
    } else {
        flashes_of_bullets(bullets, grid, dt, (k - 1) as nat) + bullet_flashes(
            bullet_moved(bullets[k - 1], dt),
            grid_after_bullets(bullets, grid, dt, (k - 1) as nat),
        )
    }
}

/// Every flash of the bullets has a well-formed animation.
pub proof fn lemma_flashes_of_bullets_wf(
    bullets: Seq<Bullet>,
    grid: Seq<Option<Brick>>,
    dt: u32,
    k: nat,
)
    ensures
        flashes_wf(flashes_of_bullets(bullets, grid, dt, k)),
    decreases k,
{
    if k > 0 {
        lemma_flashes_of_bullets_wf(bullets, grid, dt, (k - 1) as nat);
        let moved = bullet_moved(bullets[k - 1], dt);
        let bricks = grid_after_bullets(bullets, grid, dt, (k - 1) as nat);
        let added = bullet_flashes(moved, bricks);
        let struck = flashes_of(strikes(moved.body(), upwards(), bricks));
        assert forall|i: int| 0 <= i < added.len() implies (#[trigger] added[i]).animation.wf() by {
            if !moved.at_top_wall() && i < struck.len() {
                assert(added[i] == struck[i]);
            }
        }
        lemma_flashes_wf_join(flashes_of_bullets(bullets, grid, dt, (k - 1) as nat), added);
    }
}

/// The stage of a tick that moves the bullets: each flies straight up, and
/// one that reaches the top wall or strikes a brick explodes and is gone.
pub fn bullets_update(
    effects: &mut Effects,
    barrels: &mut Vec<Barrel>,
    bullets: &mut Vec<Bullet>,
    game: &mut Game,
)
    requires
        old(game).wf(),
        barrels_wf(old(barrels)@),
    ensures
        final(bullets)@ == bullets_left(
            old(bullets)@,
            old(game).grid@,
            old(game).avg_delta,
            old(bullets)@.len(),
        ),
        game_after_strikes(
            old(game),
            final(game),
            grid_after_bullets(
                old(bullets)@,
                old(game).grid@,
                old(game).avg_delta,
                old(bullets)@.len(),
            ),
        ),
        barrels_wf(final(barrels)@),
        final(effects).sounds@ == old(effects).sounds@ + Seq::new(
            (old(bullets)@.len() - final(bullets)@.len()) as nat,
            |i: int| Sound::BulletHit,
        ),
        final(effects).flashes@ == old(effects).flashes@ + flashes_of_bullets(
            old(bullets)@,
            old(game).grid@,
            old(game).avg_delta,
            old(bullets)@.len(),
        ),
        bullets_drops(
            old(bullets)@,
            old(game).grid@,
            old(game).avg_delta,
            old(game).barrel_dist,
            old(barrels)@,
            final(barrels)@,
            old(bullets)@.len(),
        ),
        extends(old(barrels)@, final(barrels)@),
        flashes_wf(old(effects).flashes@) ==> flashes_wf(final(effects).flashes@),
{
    let dt = game.avg_delta;
    let ghost grid = game.grid@;
    let ghost start = bullets@;
    let n = bullets.len();
    let mut kept: Vec<Bullet> = Vec::new();
    let mut j: usize = 0;
    proof {
        assert(effects.sounds@ + Seq::new(0, |i: int| Sound::BulletHit) =~= effects.sounds@);
        assert(effects.flashes@ + Seq::<Flash>::empty() =~= effects.flashes@);
        assert(barrels@.subrange(0, barrels@.len() as int) =~= barrels@);
    }
    while j < n
        invariant
            j <= n,
            n == start.len(),
            bullets@ == start,
            dt == old(game).avg_delta,
            kept@ == bullets_left(start, grid, dt, j as nat),
            kept@.len() <= j,
            game_after_strikes(old(game), game, grid_after_bullets(start, grid, dt, j as nat)),
            barrels_wf(barrels@),
            effects.sounds@ == old(effects).sounds@ + Seq::new(
                (j - kept@.len()) as nat,
                |i: int| Sound::BulletHit,
            ),
            effects.flashes@ == old(effects).flashes@ + flashes_of_bullets(
                start,
                grid,
                dt,
                j as nat,
            ),
            bullets_drops(
                start,
                grid,
                dt,
                old(game).barrel_dist,
                old(barrels)@,
                barrels@,
                j as nat,
            ),
            extends(old(barrels)@, barrels@),
        decreases n - j,
    {
        let mut bullet = bullets[j];
        bullet.position.y = sat_add(bullet.position.y, travel(BULLET_SPEED, dt));
        let size = bullet_size();
        let top: i128 = bullet.position.y as i128 + (size.y / 2) as i128;
        let ghost sounds = effects.sounds@;
        let ghost flashes = effects.flashes@;
        let ghost fallen = barrels@;
        let mut explodes = top > BALLAREA_MAXY as i128;
        if !explodes {
            let collisions = collision_with_bricks(
                effects,
                barrels,
                Body::Rectangular(bullet.position, size),
                Vector { x: 0, y: UNIT },
                game,
            );
            explodes = collisions.len() > 0;
            proof {
                assert forall|i: int| 0 <= i < barrels@.len() implies (
                #[trigger] barrels@[i]).wf() by {
                    if i < fallen.len() {
                        assert(barrels@[i] == barrels@.subrange(0, fallen.len() as int)[i]);
                    }
                }
            }
        }
        if explodes {
            effects.flashes.push(
                Flash {
                    position: Vector { x: bullet.position.x, y: saturate(top) },
                    kind: FlashKind::Bullet,
                    animation: Animation::new(
                        BRICK_FRAME_TIME,
                        BULLET_IMPACT_FRAMES,
                        AnimationType::Despawn,
                        Vector { x: 0, y: 0 },
                    ),
                },
            );
            effects.sounds.push(Sound::BulletHit);
        } else {
            kept.push(bullet);
        }
        j = j + 1;
        proof {
            assert(bullet_drops(
                bullet_moved(start[j - 1], dt),
                grid_after_bullets(start, grid, dt, (j - 1) as nat),
                old(game).barrel_dist,
                fallen,
                barrels@,
            ));
            assert(effects.sounds@ =~= old(effects).sounds@ + Seq::new(
                (j - kept@.len()) as nat,
                |i: int| Sound::BulletHit,
            ));
            assert(effects.flashes@ =~= old(effects).flashes@ + flashes_of_bullets(
                start,
                grid,
                dt,
                j as nat,
            ));
            assert(barrels@.subrange(0, old(barrels)@.len() as int) =~= fallen.subrange(
                0,
                old(barrels)@.len() as int,
            ));
        }
    }
    *bullets = kept;
    proof {
        lemma_flashes_of_bullets_wf(start, grid, dt, n as nat);
        if flashes_wf(old(effects).flashes@) {
            lemma_flashes_wf_join(
                old(effects).flashes@,
                flashes_of_bullets(start, grid, dt, n as nat),
            );
        }
    }
}



/// The stage of a tick that looks after the lives. With no ball in play a
/// life is lost: the last one ends the game, any other brings the paddle
/// back to the middle in its plain variant, with a new ball on it. The
/// display then follows the number of lives. Returns whether the game is
/// over.
pub fn lives_update(
    effects: &mut Effects,
    balls: &mut Vec<Ball>,
    paddle: &mut Paddle,
    display: &mut LivesDisplay,
    game: &mut Game,
) -> (game_over: bool)
    requires
        old(game).nballs == 0 ==> old(game).nlives > 0,
    ensures
        game_over == (old(game).nballs == 0 && old(game).nlives == 1),
        final(game).nlives == (if old(game).nballs == 0 {
            (old(game).nlives - 1) as u32
        } else {
            old(game).nlives
        }),
        final(game).nballs == (if old(game).nballs == 0 && !game_over {
            1u32
        } else {
            old(game).nballs
        }),
        final(balls)@ == (if old(game).nballs == 0 && !game_over {
            old(balls)@.push(new_ball(PADDLE_NORMAL, GAMEAREA_CENTER_X))
        } else {
            old(balls)@
        }),
        *final(paddle) == (if old(game).nballs == 0 && !game_over {
            Paddle { variant: PADDLE_NORMAL, x: GAMEAREA_CENTER_X, ..*old(paddle) }
        } else {
            *old(paddle)
        }),
        final(display).nlives_displayed == (if game_over {
            old(display).nlives_displayed
        } else {
            final(game).nlives
        }),
        final(effects).sounds@ == (if old(game).nballs == 0 && !game_over {
            old(effects).sounds@.push(Sound::Start)
        } else {
            old(effects).sounds@
        }),
        final(effects).flashes@ == old(effects).flashes@,
        final(game).grid == old(game).grid,
        final(game).bricks_left == old(game).bricks_left,
        final(game).avg_delta == old(game).avg_delta,
        ball_update_keeps(old(game), final(game)),
        new_ball(PADDLE_NORMAL, GAMEAREA_CENTER_X).wf(),
{
    proof {
        let first = from_angle_spec(BALL_INITIAL_ANGLE as int);
        lemma_from_angle_is_unit(BALL_INITIAL_ANGLE as int);
    }
    if game.nballs == 0 {
        game.nlives = game.nlives - 1;
        if game.nlives == 0 {
            return true;
        }
        paddle.variant = PADDLE_NORMAL;
        paddle.x = GAMEAREA_CENTER_X;
        spawn_new_ball(balls, paddle.variant, paddle.x, game);
        effects.sounds.push(Sound::Start);
    }
    if display.nlives_displayed != game.nlives {
        display.nlives_displayed = game.nlives;
    }
    false
}

/// A nudged unit direction is a unit direction.
pub proof fn lemma_nudged_is_unit(direction: Vector, angle: int)
    requires
        direction.is_unit(),
    ensures
        nudged(direction, angle).is_unit(),
{
    lemma_from_angle_is_unit(angle);
    lemma_from_angle_is_unit(TENTH_RADIAN as int);
    lemma_rotated_is_unit(direction, from_angle_spec(angle));
    lemma_rotated_is_unit(
        rotated(direction, from_angle_spec(angle)),
        from_angle_spec(TENTH_RADIAN as int),
    );
}

/// The speed-up rule: a ball that ends a tick with more impacts than
/// `BALL_SPEEDUP_IMPACTS` has its speed multiplied by the speed delta, up to
/// the greatest speed, and counts its impacts anew; any other ball keeps
/// its speed. The speed never leaves its bounds.
pub proof fn lemma_speed_up_rule(before: Ball, after: Ball)
    requires
        before.wf(),
        settles_to(before, after),
    ensures
        before.impacts >= BALL_SPEEDUP_IMPACTS + 1 ==> after.impacts == 0 && after.speed == sped_up(
            before.speed,
        ),
        before.impacts <= BALL_SPEEDUP_IMPACTS ==> after.impacts == before.impacts && after.speed
            == before.speed,
        before.speed <= after.speed <= BALL_MAX_SPEED,
        after.wf(),
{
    if before.impacts_since_paddle > BALL_NUDGE_IMPACTS {
        let angle = choose|angle: int|
            -MULTIBALL_ANGLE_RANGE <= angle < MULTIBALL_ANGLE_RANGE && after.direction
                == #[trigger] nudged(before.direction, angle);
        lemma_nudged_is_unit(before.direction, angle);
    }
}

/// Every step keeps a ball well formed: its speed within the bounds and its
/// direction of unit length.
pub proof fn lemma_step_keeps_ball(ball: Ball, paddle: Paddle, grid: Seq<Option<Brick>>)
    requires
        ball.wf(),
    ensures
        step_ball(ball, paddle, grid).wf(),
        step_ball(ball, paddle, grid).speed == ball.speed,
{
    lemma_unit_is_small(ball.direction);
    let s = ball.stepped();
    lemma_flips_keep_unit(ball.direction);
    lemma_flips_keep_unit(ball.direction.rightward());
    lemma_flips_keep_unit(ball.direction.rightward().leftward());
    lemma_flips_keep_unit(ball.direction.leftward());
    assert(s.wf());
    let p = s.off_paddle(paddle);
    lemma_flips_keep_unit(s.direction);
    lemma_from_angle_is_unit(bounce_angle(paddle, s.position.x as int));
    assert(p.wf());
    lemma_reflected_is_unit(p.direction, sides_of(step_strikes(ball, paddle, grid)));
}

/// Turning a unit direction towards a side keeps its length.
pub proof fn lemma_flips_keep_unit(d: Vector)
    requires
        d.is_unit(),
    ensures
        d.rightward().is_unit(),
        d.leftward().is_unit(),
        d.upward().is_unit(),
        d.downward().is_unit(),
{
    lemma_unit_is_small(d);
    let x = d.x as int;
    let y = d.y as int;
    assert(abs(x) * abs(x) == x * x && (-abs(x)) * (-abs(x)) == x * x) by (nonlinear_arith);
    assert(abs(y) * abs(y) == y * y && (-abs(y)) * (-abs(y)) == y * y) by (nonlinear_arith);
}

/// Turning a unit direction away from bricks keeps its length.
pub proof fn lemma_reflected_is_unit(d: Vector, sides: Seq<Collision>)
    requires
        d.is_unit(),
    ensures
        reflected(d, sides).is_unit(),
    decreases sides.len(),
{
    if sides.len() > 0 {
        lemma_reflected_is_unit(d, sides.drop_last());
        lemma_flips_keep_unit(reflected(d, sides.drop_last()));
    }
}

/// The bounce angle lies between the angles of the two ends of the paddle.
pub proof fn lemma_bounce_angle_bounds(paddle: Paddle, ball_x: int)
    requires
        paddle.wf(),
    ensures
        PADDLE_MIN_ANGLE <= bounce_angle(paddle, ball_x) <= PADDLE_MAX_ANGLE,
{
    let width = paddle_size(paddle.variant).x as int;
    let dx = clamp(paddle.x + width / 2 - ball_x, 0, width);
    let span = PADDLE_MAX_ANGLE - PADDLE_MIN_ANGLE;
    assert(0 <= (span * dx) / width <= span) by (nonlinear_arith)
        requires
            0 <= dx <= width,
            width > 0,
            span >= 0,
    ;
}

/// A ball that comes down on top of the paddle leaves it upwards.
pub proof fn lemma_paddle_sends_ball_up(ball: Ball, paddle: Paddle)
    requires
        ball.wf(),
        paddle.wf(),
        !ball.in_collision,
        ball.direction.y < 0,
        collision_spec(ball.body(), paddle.center(), paddle_size(paddle.variant)) == Some(
            Collision::Top,
        ),
    ensures
        ball.off_paddle(paddle).direction.y >= 97_000,
{
    lemma_bounce_angle_bounds(paddle, ball.position.x as int);
    lemma_steep_angle_rises(bounce_angle(paddle, ball.position.x as int));
}

} // verus!
