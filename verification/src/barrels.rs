//! Falling barrels and the effects of picking them up.

use vstd::prelude::*;
use crate::animation::{Animation, AnimationType};
use crate::balls_and_bullets::{
    balls_wf, percent_of_initial, slow_down, slowed_down, sped_up, speed_percent, speed_up,
    turned, Ball,
};
use crate::collisions::{collision, collision_spec, Body};
use crate::consts::{
    barrel_size, paddle_size, paddle_size_spec, BALL_MAX_SPEED, BALL_MIN_SPEED, BARREL_CHANCE_DEN,
    BARREL_CHANCE_NUM, BARREL_FRAMES, BARREL_FRAME_TIME, BARREL_SPEED, BARREL_TYPES, EXTRA_TIME,
    GAMEAREA_MINY, MULTIBALL_ANGLE_RANGE, MULTIBALL_MAX, PADDLE_GUN, PADDLE_LARGE, PADDLE_MAGNET,
    PADDLE_SMALL, PADDLE_TYPES,
};
use crate::countdown_and_portal::Countdown;
use crate::direction::{
    dot, from_angle, from_angle_spec, lemma_flat_angle_cosine, lemma_turn_stays_near, QUARTER_DOT,
};
use crate::fixed::Vector;
use crate::game::{Effects, Game, InfoAreaMsg, Message, Sound};
use crate::paddle::Paddle;
use crate::random::{dist_weights, random_range, random_ratio, sample_index, WeightedDist};
use crate::timer::{cap64, Timer};

verus! {

/// A falling pickup. The variant is its effect on the paddle, the balls or
/// the countdown.
#[derive(Clone, Copy, Debug, PartialEq, Eq, Structural)]
pub struct Barrel {
    pub variant: usize,
    pub position: Vector,
    pub animation: Animation,
}

impl Barrel {
    /// The variant is one of the barrel variants, and the animation repeats.
    pub open spec fn wf(self) -> bool {
        &&& self.variant < BARREL_TYPES
        &&& self.animation.wf()
        &&& self.animation.variant == AnimationType::Repeat
    }

    /// Says whether the barrel is well formed.
    pub fn is_wf(&self) -> (b: bool)
        ensures
            b == self.wf(),
    {
        self.variant < BARREL_TYPES && self.animation.is_wf()
            && self.animation.variant == AnimationType::Repeat
    }

    /// A barrel that starts to fall at `position`.
    pub open spec fn fresh(variant: usize, position: Vector) -> Barrel {
        Barrel {
            variant,
            position,
            animation: Animation::fresh(
                BARREL_FRAME_TIME,
                BARREL_FRAMES,
                AnimationType::Repeat,
                Vector { x: 0, y: (-BARREL_SPEED) as i64 },
            ),
        }
    }

    /// A barrel that starts to fall at `position`.
    pub fn new(variant: usize, position: Vector) -> (b: Barrel)
        ensures
            b == Barrel::fresh(variant, position),
            variant < BARREL_TYPES ==> b.wf(),
    {
        Barrel {
            variant,
            position,
            animation: Animation::new(
                BARREL_FRAME_TIME,
                BARREL_FRAMES,
                AnimationType::Repeat,
                Vector { x: 0, y: -BARREL_SPEED },
            ),
        }
    }
}

/// Whether `after` is what a chance of a barrel at `position` can leave of
/// `before`: the same barrels, or those and a new barrel at `position`, of a
/// barrel variant that the distribution can draw.
pub open spec fn spawn_outcome(
    before: Seq<Barrel>,
    after: Seq<Barrel>,
    position: Vector,
    dist: WeightedDist,
) -> bool {
    ||| after == before
    ||| exists|variant: usize|
        {
            &&& variant < BARREL_TYPES
            &&& variant < dist_weights(dist).len()
            &&& dist_weights(dist)[variant as int] > 0
            &&& after == before.push(#[trigger] Barrel::fresh(variant, position))
        }
}

/// Drops a barrel at `position` with a chance of 15 in 100, its variant drawn
/// with the weights of the game; a draw that is no barrel variant drops none.
pub fn barrels_spawn(barrels: &mut Vec<Barrel>, position: Vector, game: &Game)
    ensures
        spawn_outcome(old(barrels)@, final(barrels)@, position, game.barrel_dist),
{
    let hit = random_ratio(BARREL_CHANCE_NUM, BARREL_CHANCE_DEN);
    barrel_chance(barrels, position, hit, game);
}

/// Whether `after` is what a draw of a variant can make of the barrels
/// `before`: the variant is one that the distribution can draw, and the
/// barrels are those that this variant leaves.
pub open spec fn draw_outcome(
    before: Seq<Barrel>,
    after: Seq<Barrel>,
    position: Vector,
    dist: WeightedDist,
) -> bool {
    exists|variant: usize|
        {
            &&& variant < dist_weights(dist).len()
            &&& dist_weights(dist)[variant as int] > 0
            &&& after == #[trigger] barrel_dropped(before, variant, position)
        }
}

/// Acts on the chance of a barrel at `position`. A miss drops nothing. On a
/// hit the variant is drawn with the weights of the game, and a barrel of
/// that variant starts to fall.
pub fn barrel_chance(barrels: &mut Vec<Barrel>, position: Vector, hit: bool, game: &Game)
    ensures
        !hit ==> final(barrels)@ == old(barrels)@,
        hit ==> draw_outcome(old(barrels)@, final(barrels)@, position, game.barrel_dist),
        spawn_outcome(old(barrels)@, final(barrels)@, position, game.barrel_dist),
{
    if hit {
        let variant: usize = sample_index(&game.barrel_dist);
        barrel_drop(barrels, variant, position);
    }
}

/// The barrels after a draw of `variant` for a barrel at `position`: one
/// more, which starts to fall there, where the draw is a barrel variant, and
/// the same barrels where it is not.
pub open spec fn barrel_dropped(before: Seq<Barrel>, variant: usize, position: Vector) -> Seq<
    Barrel,
> {
    if variant < BARREL_TYPES {
        before.push(Barrel::fresh(variant, position))
    } else {
        before
    }
}

/// Lets a barrel of the drawn variant start to fall at `position`. A draw
/// that is no barrel variant drops nothing.
pub fn barrel_drop(barrels: &mut Vec<Barrel>, variant: usize, position: Vector)
    ensures
        final(barrels)@ == barrel_dropped(old(barrels)@, variant, position),
{
    if variant < BARREL_TYPES {
        barrels.push(Barrel::new(variant, position));
    }
}

/// Barrel variants by their effect.
pub const BARREL_EXTEND: usize = 0;

pub const BARREL_GUN: usize = 1;

pub const BARREL_SHRINK: usize = 2;

pub const BARREL_MAGNET: usize = 3;

pub const BARREL_MULTIBALL: usize = 4;

pub const BARREL_FAST: usize = 5;

pub const BARREL_SLOW: usize = 6;

/// Reserved: this barrel has no effect.
pub const BARREL_PORTAL: usize = 7;

/// Reserved: this barrel has no effect.
pub const BARREL_EXTRA_LIFE: usize = 8;

pub const BARREL_EXTRA_TIME: usize = 9;

/// What the barrels picked up during a tick add up to.
#[derive(Clone, Copy, Debug, PartialEq, Eq, Structural)]
pub struct Pickups {
    /// Number of barrels picked up.
    pub count: usize,
    /// Variant of the last barrel picked up.
    pub last: usize,
    /// Variant of the paddle after the pickups.
    pub paddle_variant: usize,
    /// Multiball barrels picked up.
    pub multiball: usize,
    /// Speed-ups less slow-downs.
    pub speed_steps: i128,
    /// Extra-time barrels picked up.
    pub extra_time: usize,
}

/// Whether a barrel touches the paddle.
pub open spec fn picked_up(barrel: Barrel, paddle: Paddle) -> bool {
    collision_spec(
        Body::Rectangular(barrel.position, barrel_size()),
        paddle.center(),
        paddle_size(paddle.variant),
    ) is Some
}

/// Whether a barrel has fallen below the play field.
pub open spec fn fell_out(barrel: Barrel) -> bool {
    barrel.position.y < GAMEAREA_MINY
}

/// The sum of pickups after one more barrel of the given variant.
pub open spec fn tally(p: Pickups, variant: usize) -> Pickups {
    let p = Pickups { count: (p.count + 1) as usize, last: variant, ..p };
    if variant == BARREL_EXTEND {
        Pickups { paddle_variant: PADDLE_LARGE, ..p }
    } else if variant == BARREL_GUN {
        Pickups { paddle_variant: PADDLE_GUN, ..p }
    } else if variant == BARREL_SHRINK {
        Pickups { paddle_variant: PADDLE_SMALL, ..p }
    } else if variant == BARREL_MAGNET {
        Pickups { paddle_variant: PADDLE_MAGNET, ..p }
    } else if variant == BARREL_MULTIBALL {
        Pickups { multiball: (p.multiball + 1) as usize, ..p }
    } else if variant == BARREL_FAST {
        Pickups { speed_steps: (p.speed_steps + 1) as i128, ..p }
    } else if variant == BARREL_SLOW {
        Pickups { speed_steps: (p.speed_steps - 1) as i128, ..p }
    } else if variant == BARREL_EXTRA_TIME {
        Pickups { extra_time: (p.extra_time + 1) as usize, ..p }
    } else {
        p
    }
}

/// The sum of the pickups among the first `k` barrels. The size of the
/// paddle at the start of the tick decides which barrels touch it.
pub open spec fn pickups_upto(barrels: Seq<Barrel>, paddle: Paddle, k: nat) -> Pickups
    decreases k,
{
    if k == 0 {
        Pickups {
            count: 0,
            last: 0,
            paddle_variant: paddle.variant,
            multiball: 0,
            speed_steps: 0,
            extra_time: 0,
        }
    } else {
        let before = pickups_upto(barrels, paddle, (k - 1) as nat);
        if picked_up(barrels[k - 1], paddle) {
            tally(before, barrels[k - 1].variant)
        } else {
            before
        }
    }
}

/// Those of the first `k` barrels that stay in play: they neither touch the
/// paddle nor have fallen below the field.
pub open spec fn barrels_left_upto(barrels: Seq<Barrel>, paddle: Paddle, k: nat) -> Seq<Barrel>
    decreases k,
{
    if k == 0 {
        Seq::empty()
    } else {
        let before = barrels_left_upto(barrels, paddle, (k - 1) as nat);
        if picked_up(barrels[k - 1], paddle) || fell_out(barrels[k - 1]) {
            before
        } else {
            before.push(barrels[k - 1])
        }
    }
}

/// The sounds of the pickups among the first `k` barrels.
pub open spec fn pickup_sounds_upto(barrels: Seq<Barrel>, paddle: Paddle, k: nat) -> Seq<Sound>
    decreases k,
{
    if k == 0 {
        Seq::empty()
    } else {
        let before = pickup_sounds_upto(barrels, paddle, (k - 1) as nat);
        if picked_up(barrels[k - 1], paddle) {
            before.push(Sound::Barrel(barrels[k - 1].variant))
        } else {
            before
        }
    }
}

/// The sum of the pickups among the barrels.
pub open spec fn pickups(barrels: Seq<Barrel>, paddle: Paddle) -> Pickups {
    pickups_upto(barrels, paddle, barrels.len())
}

/// The barrels that stay in play.
pub open spec fn barrels_left(barrels: Seq<Barrel>, paddle: Paddle) -> Seq<Barrel> {
    barrels_left_upto(barrels, paddle, barrels.len())
}

/// The sounds of the pickups.
pub open spec fn pickup_sounds(barrels: Seq<Barrel>, paddle: Paddle) -> Seq<Sound> {
    pickup_sounds_upto(barrels, paddle, barrels.len())
}

/// The countdown after `n` extra-time barrels: each adds `EXTRA_TIME` to the
/// duration, unless the countdown has run out.
pub open spec fn countdown_extended(countdown: Countdown, n: usize) -> Countdown {
    if countdown.timer.remaining_spec() > 0 {
        Countdown {
            timer: Timer {
                duration: cap64(countdown.timer.duration + n * EXTRA_TIME),
                ..countdown.timer
            },
        }
    } else {
        countdown
    }
}

/// A speed after `steps` speed-ups, or after `-steps` slow-downs.
pub open spec fn speed_scaled(speed: u32, steps: int) -> u32
    decreases vstd::math::abs(steps),
{
    if steps > 0 {
        sped_up(speed_scaled(speed, steps - 1))
    } else if steps < 0 {
        slowed_down(speed_scaled(speed, steps + 1))
    } else {
        speed
    }
}

/// A ball after the pickups of a tick: its speed is scaled, and with it the
/// count of its impacts starts over; a paddle that is not magnetic lets go
/// of it.
pub open spec fn ball_adjusted(ball: Ball, p: Pickups) -> Ball {
    Ball {
        speed: speed_scaled(ball.speed, p.speed_steps as int),
        impacts: if p.speed_steps != 0 {
            0
        } else {
            ball.impacts
        },
        caught: ball.caught && p.paddle_variant == PADDLE_MAGNET,
        ..ball
    }
}

/// How often a ball can split while `nballs` balls are in play: each split
/// adds two, and a split needs two balls of room below `MULTIBALL_MAX`.
pub open spec fn split_room(nballs: u32) -> nat {
    if nballs < MULTIBALL_MAX - 1 {
        ((MULTIBALL_MAX - nballs) / 2) as nat
    } else {
        0
    }
}

/// How often an adjusted ball splits: a held ball never, any other as often
/// as there are multiball barrels and room.
pub open spec fn splits_of(adjusted: Ball, credits: usize, nballs: u32) -> nat {
    if adjusted.caught {
        0
    } else if credits <= split_room(nballs) {
        credits as nat
    } else {
        split_room(nballs)
    }
}

/// Number of splits among the first `k` balls, `nballs` being in play at
/// the start.
pub open spec fn splits_upto(balls: Seq<Ball>, p: Pickups, nballs: u32, k: nat) -> nat
    decreases k,
{
    if k == 0 {
        0
    } else {
        let before = splits_upto(balls, p, nballs, (k - 1) as nat);
        before + splits_of(
            ball_adjusted(balls[k - 1], p),
            p.multiball,
            (nballs + 2 * before) as u32,
        )
    }
}

/// How often ball `j` splits.
pub open spec fn splits_at(balls: Seq<Ball>, p: Pickups, nballs: u32, j: int) -> nat {
    (splits_upto(balls, p, nballs, (j + 1) as nat) - splits_upto(balls, p, nballs, j as nat)) as nat
}

/// Those of the first `k` balls that do not split, adjusted.
pub open spec fn balls_kept_upto(balls: Seq<Ball>, p: Pickups, nballs: u32, k: nat) -> Seq<Ball>
    decreases k,
{
    if k == 0 {
        Seq::empty()
    } else {
        let before = balls_kept_upto(balls, p, nballs, (k - 1) as nat);
        if splits_at(balls, p, nballs, k - 1) == 0 {
            before.push(ball_adjusted(balls[k - 1], p))
        } else {
            before
        }
    }
}

/// A ball that a split makes of `source`: at the same place and speed, free,
/// with no impacts, its direction turned by `angle`.
pub open spec fn split_of(source: Ball, angle: int) -> Ball {
    Ball {
        position: source.position,
        impacts: 0,
        impacts_since_paddle: 0,
        speed: source.speed,
        direction: turned(source.direction, angle),
        caught: false,
        in_collision: false,
    }
}

/// Whether `ball` is one that a split of one of `balls` can have made: the
/// source turned by an angle within `MULTIBALL_ANGLE_RANGE`, so that the
/// product of the two directions is at least `QUARTER_DOT`.
pub open spec fn split_from(ball: Ball, balls: Seq<Ball>, p: Pickups, nballs: u32) -> bool {
    exists|j: int, angle: int|
        {
            &&& 0 <= j < balls.len()
            &&& splits_at(balls, p, nballs, j) > 0
            &&& -MULTIBALL_ANGLE_RANGE <= angle < MULTIBALL_ANGLE_RANGE
            &&& ball == #[trigger] split_of(ball_adjusted(balls[j], p), angle)
            &&& dot(balls[j].direction, ball.direction) >= QUARTER_DOT
        }
}

/// The status line after the pickups: it names the last barrel, or, where
/// the speed changed and there is a ball, the speed of the last ball; it
/// shows anew from the last pickup on.
pub open spec fn pickup_message(msg: InfoAreaMsg, p: Pickups, balls: Seq<Ball>) -> InfoAreaMsg {
    if p.count == 0 {
        msg
    } else {
        InfoAreaMsg {
            text: if p.speed_steps != 0 && balls.len() > 0 {
                Message::Speed(speed_percent(ball_adjusted(balls.last(), p).speed))
            } else {
                Message::Barrel(p.last)
            },
            timer: msg.timer.restarted(),
        }
    }
}

/// A ball that a split makes of `source`. A turn by an angle within
/// `MULTIBALL_ANGLE_RANGE` leaves the new direction within that range of the
/// old one.
pub fn split_ball(source: &Ball, angle: i64) -> (ball: Ball)
    requires
        source.wf(),
    ensures
        ball == split_of(*source, angle as int),
        ball.wf(),
        -MULTIBALL_ANGLE_RANGE <= angle <= MULTIBALL_ANGLE_RANGE ==> dot(
            source.direction,
            ball.direction,
        ) >= QUARTER_DOT,
{
    let rotation = from_angle(angle);
    proof {
        if -MULTIBALL_ANGLE_RANGE <= angle <= MULTIBALL_ANGLE_RANGE {
            lemma_flat_angle_cosine(angle as int);
            lemma_turn_stays_near(source.direction, rotation);
        }
    }
    Ball {
        position: source.position,
        impacts: 0,
        impacts_since_paddle: 0,
        speed: source.speed,
        direction: source.direction.rotate(rotation),
        caught: false,
        in_collision: false,
    }
}

/// A speed after `steps` speed-ups, or after `-steps` slow-downs.
pub fn scale_speed(speed: u32, steps: i128) -> (s: u32)
    requires
        BALL_MIN_SPEED <= speed <= BALL_MAX_SPEED,
        steps > i128::MIN,
    ensures
        s == speed_scaled(speed, steps as int),
        BALL_MIN_SPEED <= s <= BALL_MAX_SPEED,
{
    let mut s = speed;
    let mut k: i128 = 0;
    if steps >= 0 {
        while k < steps
            invariant
                0 <= k <= steps,
                s == speed_scaled(speed, k as int),
                BALL_MIN_SPEED <= s <= BALL_MAX_SPEED,
            decreases steps - k,
        {
            s = speed_up(s);
            k = k + 1;
        }
    } else {
        while k > steps
            invariant
                steps <= k <= 0,
                s == speed_scaled(speed, k as int),
                BALL_MIN_SPEED <= s <= BALL_MAX_SPEED,
            decreases k - steps,
        {
            s = slow_down(s);
            k = k - 1;
        }
    }
    s
}

/// Whether every barrel is well formed.
pub open spec fn barrels_wf(barrels: Seq<Barrel>) -> bool {
    forall|i: int| 0 <= i < barrels.len() ==> (#[trigger] barrels[i]).wf()
}

/// The status line after the first part of the stage: it names the last
/// barrel picked up.
pub open spec fn collect_message(msg: InfoAreaMsg, p: Pickups) -> InfoAreaMsg {
    if p.count == 0 {
        msg
    } else {
        InfoAreaMsg { text: Message::Barrel(p.last), timer: msg.timer.restarted() }
    }
}

/// First part of the barrels' stage: takes the barrels that touch the
/// paddle or have fallen below the field out of play, and adds up what the
/// picked ones do. Extra time is given at once.
pub fn collect_barrels(
    effects: &mut Effects,
    barrels: &mut Vec<Barrel>,
    paddle: &Paddle,
    countdown: &mut Countdown,
    msg: &mut InfoAreaMsg,
) -> (p: Pickups)
    requires
        paddle.wf(),
        barrels_wf(old(barrels)@),
    ensures
        p == pickups(old(barrels)@, *paddle),
        final(barrels)@ == barrels_left(old(barrels)@, *paddle),
        barrels_wf(final(barrels)@),
        final(effects).sounds@ == old(effects).sounds@ + pickup_sounds(
            old(barrels)@,
            *paddle,
        ),
        final(effects).flashes@ == old(effects).flashes@,
        *final(countdown) == countdown_extended(*old(countdown), p.extra_time),
        *final(msg) == collect_message(*old(msg), p),
        p.paddle_variant < PADDLE_TYPES,
        p.count <= old(barrels)@.len(),
        p.multiball <= p.count,
        -p.count <= p.speed_steps <= p.count,
        p.count == 0 ==> p.paddle_variant == paddle.variant,
{
    let ghost start = barrels@;
    let n = barrels.len();
    let paddle_size = paddle_size(paddle.variant);
    let mut p = Pickups {
        count: 0,
        last: 0,
        paddle_variant: paddle.variant,
        multiball: 0,
        speed_steps: 0,
        extra_time: 0,
    };
    let mut kept: Vec<Barrel> = Vec::new();
    let mut k: usize = 0;
    proof {
        assert(effects.sounds@ + Seq::<Sound>::empty() =~= effects.sounds@);
    }
    while k < n
        invariant
            k <= n,
            n == start.len(),
            barrels@ == start,
            barrels_wf(start),
            paddle.wf(),
            paddle_size == paddle_size_spec(paddle.variant),
            p == pickups_upto(start, *paddle, k as nat),
            kept@ == barrels_left_upto(start, *paddle, k as nat),
            barrels_wf(kept@),
            effects.sounds@ == old(effects).sounds@ + pickup_sounds_upto(start, *paddle, k as nat),
            effects.flashes@ == old(effects).flashes@,
            *countdown == countdown_extended(*old(countdown), p.extra_time),
            *msg == collect_message(*old(msg), p),
            p.paddle_variant < PADDLE_TYPES,
            p.count <= k,
            p.multiball <= p.count,
            p.extra_time <= p.count,
            -p.count <= p.speed_steps <= p.count,
            p.count == 0 ==> p.paddle_variant == paddle.variant,
        decreases n - k,
    {
        let barrel = barrels[k];
        let ghost sounds = effects.sounds@;
        if collision(
            Body::Rectangular(barrel.position, barrel_size()),
            paddle.position(),
            paddle_size,
        ).is_some() {
            p.count = p.count + 1;
            p.last = barrel.variant;
            if barrel.variant == BARREL_EXTEND {
                p.paddle_variant = PADDLE_LARGE;
            } else if barrel.variant == BARREL_GUN {
                p.paddle_variant = PADDLE_GUN;
            } else if barrel.variant == BARREL_SHRINK {
                p.paddle_variant = PADDLE_SMALL;
            } else if barrel.variant == BARREL_MAGNET {
                p.paddle_variant = PADDLE_MAGNET;
            } else if barrel.variant == BARREL_MULTIBALL {
                p.multiball = p.multiball + 1;
            } else if barrel.variant == BARREL_FAST {
                p.speed_steps = p.speed_steps + 1;
            } else if barrel.variant == BARREL_SLOW {
                p.speed_steps = p.speed_steps - 1;
            } else if barrel.variant == BARREL_EXTRA_TIME {
                p.extra_time = p.extra_time + 1;
                if countdown.timer.remaining() > 0 {
                    let duration = countdown.timer.duration;
                    countdown.timer.set_duration(
                        if duration > u64::MAX - EXTRA_TIME {
                            u64::MAX
                        } else {
                            duration + EXTRA_TIME
                        },
                    );
                }
            }
            msg.text = Message::Barrel(barrel.variant);
            msg.timer.reset();
            effects.sounds.push(Sound::Barrel(barrel.variant));
        } else if barrel.position.y >= GAMEAREA_MINY {
            kept.push(barrel);
        }
        k = k + 1;
        proof {
            assert(effects.sounds@ =~= old(effects).sounds@ + pickup_sounds_upto(
                start,
                *paddle,
                k as nat,
            ));
        }
    }
    *barrels = kept;
    p
}

/// What the barrels' stage leaves of the game as it was: all but the count
/// of the balls.
pub open spec fn barrels_update_keeps(before: &Game, after: &Game) -> bool {
    &&& after.grid == before.grid
    &&& after.nlives == before.nlives
    &&& after.bricks_left == before.bricks_left
    &&& after.avg_delta == before.avg_delta
    &&& after.nmeanies == before.nmeanies
    &&& after.current_level == before.current_level
    &&& after.portal_open == before.portal_open
    &&& after.seconds_left == before.seconds_left
    &&& after.barrel_dist == before.barrel_dist
    &&& after.levels_unlocked == before.levels_unlocked
    &&& after.secrets_unlocked == before.secrets_unlocked
    &&& after.secrets_generated == before.secrets_generated
    &&& after.username == before.username
}

/// The stage of a tick that applies the barrels. A barrel that touches the
/// paddle is picked up: it changes the variant of the paddle, earns a split
/// of the balls, scales their speed or extends the countdown. A paddle that
/// is not magnetic lets go of the balls. Each ball in play then splits as
/// often as multiball barrels were picked up and there is room: a first
/// split makes three balls of it, each further split two more.
pub fn barrels_update(
    effects: &mut Effects,
    barrels: &mut Vec<Barrel>,
    balls: &mut Vec<Ball>,
    paddle: &mut Paddle,
    countdown: &mut Countdown,
    msg: &mut InfoAreaMsg,
    game: &mut Game,
)
    requires
        old(paddle).wf(),
        barrels_wf(old(barrels)@),
        balls_wf(old(balls)@),
        old(game).nballs == old(balls)@.len(),
    ensures
        final(barrels)@ == barrels_left(old(barrels)@, *old(paddle)),
        barrels_wf(final(barrels)@),
        final(effects).sounds@ == old(effects).sounds@ + pickup_sounds(
            old(barrels)@,
            *old(paddle),
        ),
        final(effects).flashes@ == old(effects).flashes@,
        *final(countdown) == countdown_extended(
            *old(countdown),
            pickups(old(barrels)@, *old(paddle)).extra_time,
        ),
        *final(paddle) == (Paddle {
            variant: pickups(old(barrels)@, *old(paddle)).paddle_variant,
            ..*old(paddle)
        }),
        final(paddle).wf(),
        *final(msg) == pickup_message(
            *old(msg),
            pickups(old(barrels)@, *old(paddle)),
            old(balls)@,
        ),
        barrels_update_keeps(old(game), final(game)),
        balls_wf(final(balls)@),
        final(game).nballs == final(balls)@.len(),
        old(game).nballs <= MULTIBALL_MAX ==> final(game).nballs <= MULTIBALL_MAX,
        pickups(old(barrels)@, *old(paddle)).count == 0 ==> final(balls)@ == old(balls)@,
        pickups(old(barrels)@, *old(paddle)).count > 0 ==> ({
            let p = pickups(old(barrels)@, *old(paddle));
            let nb = old(game).nballs;
            let kept = balls_kept_upto(old(balls)@, p, nb, old(balls)@.len());
            &&& final(balls)@.len() == old(balls)@.len() + 2 * splits_upto(
                old(balls)@,
                p,
                nb,
                old(balls)@.len(),
            )
            &&& kept.len() <= final(balls)@.len()
            &&& final(balls)@.subrange(0, kept.len() as int) == kept
            &&& forall|i: int|
                kept.len() <= i < final(balls)@.len() ==> split_from(
                    #[trigger] final(balls)@[i],
                    old(balls)@,
                    p,
                    nb,
                )
        }),
{
    let p = collect_barrels(effects, barrels, paddle, countdown, msg);
    if p.count == 0 {
        return ;
    }
    paddle.variant = p.paddle_variant;
    let ghost start = balls@;
    let ghost nb = game.nballs;
    let n = balls.len();
    let mut kept: Vec<Ball> = Vec::new();
    let mut news: Vec<Ball> = Vec::new();
    let mut j: usize = 0;
    while j < n
        invariant
            j <= n,
            n == start.len(),
            balls@ == start,
            balls_wf(start),
            nb == n,
            p.count > 0,
            -p.count <= p.speed_steps <= p.count,
            paddle.variant == p.paddle_variant,
            kept@ == balls_kept_upto(start, p, nb, j as nat),
            kept@.len() <= j,
            balls_wf(kept@),
            balls_wf(news@),
            game.nballs == nb + 2 * splits_upto(start, p, nb, j as nat),
            nb <= MULTIBALL_MAX ==> game.nballs <= MULTIBALL_MAX,
            news@.len() == (j - kept@.len()) + 2 * splits_upto(start, p, nb, j as nat),
            forall|i: int| 0 <= i < news@.len() ==> split_from(#[trigger] news@[i], start, p, nb),
            *msg == (InfoAreaMsg {
                text: if p.speed_steps != 0 && j > 0 {
                    Message::Speed(speed_percent(ball_adjusted(start[j - 1], p).speed))
                } else {
                    Message::Barrel(p.last)
                },
                timer: old(msg).timer.restarted(),
            }),
            barrels_update_keeps(old(game), game),
        decreases n - j,
    {
        let mut ball = balls[j];
        if p.speed_steps != 0 {
            ball.speed = scale_speed(ball.speed, p.speed_steps);
            ball.impacts = 0;
            msg.text = Message::Speed(percent_of_initial(ball.speed));
        }
        if paddle.variant != PADDLE_MAGNET {
            ball.caught = false;
        }
        assert(ball == ball_adjusted(start[j as int], p));
        let ghost before = game.nballs;
        let ghost total = splits_of(ball, p.multiball, before);
        let mut m = p.multiball;
        let mut splits: usize = 0;
        while m > 0 && !ball.caught && game.nballs < MULTIBALL_MAX - 1
            invariant
                ball.wf(),
                ball == ball_adjusted(start[j as int], p),
                0 <= j < start.len(),
                m + splits == p.multiball,
                splits <= total,
                game.nballs == before + 2 * splits,
                nb <= MULTIBALL_MAX ==> game.nballs <= MULTIBALL_MAX,
                total == splits_of(ball, p.multiball, before),
                splits_at(start, p, nb, j as int) == total,
                !ball.caught ==> split_room(game.nballs) == split_room(before) - splits,
                balls_wf(news@),
                news@.len() == (j - kept@.len()) + 2 * splits_upto(start, p, nb, j as nat) + (
                if splits > 0 {
                    1 + 2 * splits
                } else {
                    0
                }),
                forall|i: int|
                    0 <= i < news@.len() ==> split_from(#[trigger] news@[i], start, p, nb),
                barrels_update_keeps(old(game), game),
            decreases m,
        {
            m = m - 1;
            let makes: usize = if splits == 0 {
                3
            } else {
                2
            };
            let mut made: usize = 0;
            while made < makes
                invariant
                    made <= makes,
                    ball.wf(),
                    ball == ball_adjusted(start[j as int], p),
                    0 <= j < start.len(),
                    splits_at(start, p, nb, j as int) > 0,
                    balls_wf(news@),
                    news@.len() == (j - kept@.len()) + 2 * splits_upto(start, p, nb, j as nat) + (
                    if splits > 0 {
                        1 + 2 * splits
                    } else {
                        0
                    }) + made,
                    forall|i: int|
                        0 <= i < news@.len() ==> split_from(#[trigger] news@[i], start, p, nb),
                decreases makes - made,
            {
                let angle = random_range(-MULTIBALL_ANGLE_RANGE, MULTIBALL_ANGLE_RANGE);
                let new_ball = split_ball(&ball, angle);
                proof {
                    assert(new_ball == split_of(ball_adjusted(start[j as int], p), angle as int));
                    assert(dot(start[j as int].direction, new_ball.direction) >= QUARTER_DOT);
                    assert(split_from(new_ball, start, p, nb));
                }
                news.push(new_ball);
                made = made + 1;
            }
            game.nballs = game.nballs + 2;
            splits = splits + 1;
        }
        assert(splits == total);
        if splits == 0 {
            kept.push(ball);
        }
        j = j + 1;
    }
    proof {
        let k = kept@;
        let w = news@;
        assert((k + w).subrange(0, k.len() as int) =~= k);
    }
    kept.append(&mut news);
    *balls = kept;
}

/// The multiball split is exact: with one multiball barrel picked up, one
/// ball in play that the paddle does not hold splits once, which leaves
/// three balls where there was one; and every ball that a split makes has
/// the speed and the place of its source, is well formed, and has the
/// direction of the source turned by an angle within the range, so that the
/// product of the two directions is at least `QUARTER_DOT`.
pub proof fn lemma_multiball_split_exact(ball: Ball, p: Pickups, made: Ball, angle: int)
    requires
        ball.wf(),
        p.multiball == 1,
        BALL_MIN_SPEED <= speed_scaled(ball.speed, p.speed_steps as int) <= BALL_MAX_SPEED,
        !ball_adjusted(ball, p).caught,
        -MULTIBALL_ANGLE_RANGE <= angle <= MULTIBALL_ANGLE_RANGE,
        made == split_of(ball_adjusted(ball, p), angle),
    ensures
        splits_upto(seq![ball], p, 1, 1) == 1,
        seq![ball].len() + 2 * splits_upto(seq![ball], p, 1, 1) == 3,
        balls_kept_upto(seq![ball], p, 1, 1).len() == 0,
        made.speed == ball_adjusted(ball, p).speed,
        made.position == ball.position,
        made.direction == turned(ball.direction, angle),
        dot(ball.direction, made.direction) >= QUARTER_DOT,
        made.wf(),
{
    let balls = seq![ball];
    assert(splits_upto(balls, p, 1, 0) == 0);
    assert(balls[0] == ball);
    assert(split_room(1) == 13);
    assert(splits_of(ball_adjusted(ball, p), p.multiball, 1) == 1);
    assert(splits_upto(balls, p, 1, 1) == 1);
    assert(splits_at(balls, p, 1, 0) == 1);
    assert(balls_kept_upto(balls, p, 1, 0).len() == 0);
    lemma_flat_angle_cosine(angle);
    lemma_turn_stays_near(ball.direction, from_angle_spec(angle));
}

} // verus!
