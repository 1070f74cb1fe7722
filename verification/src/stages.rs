//! What each stage of a tick makes of a level, stated over snapshots of the
//! level, so that a whole tick is the chain of its stages.

use vstd::prelude::*;
use crate::animation::{animate, barrel_animated, flashes_left, meanie_animated};
use crate::balls_and_bullets::{
    ball_update, balls_after, balls_drops, balls_lost, balls_wf, bullets_drops, bullets_left,
    bullets_update, flashes_of_balls, flashes_of_bullets, grid_after_balls, grid_after_bullets,
    lives_update, message_after_balls, new_ball, smoothed, sounds_of_balls, Ball, Bullet,
    LivesDisplay,
};
use crate::barrels::{
    balls_kept_upto, barrels_left, barrels_update, countdown_extended, pickup_message,
    pickup_sounds, pickups, split_from, splits_upto, Barrel, Pickups,
};
use crate::collisions::lives_after;
use crate::consts::{GAMEAREA_CENTER_X, MEANIES_MAX, MEANIES_TYPES, PADDLE_NORMAL};
use crate::countdown_and_portal::{
    countdown_update, message_ticked, portal_update, runs_out, whole_seconds, Countdown, Portal,
    PortalState,
};
use crate::game::{count_bricks, Brick, Flash, Game, Goal, InfoAreaMsg, Level, Sound};
use crate::meanies::{meanie_arrived, meanies_update, roams, Meanie, Roam};
use crate::paddle::{balls_carried, bullets_fired, paddle_update, Paddle, PaddleInput};
use crate::random::WeightedDist;
use crate::shop::Secret;

verus! {

/// A level and the counters of its game at one moment of a tick.
pub struct Scene {
    pub paddle: Paddle,
    pub balls: Seq<Ball>,
    pub bullets: Seq<Bullet>,
    pub barrels: Seq<Barrel>,
    pub meanies: Seq<Meanie>,
    pub portal: Portal,
    pub countdown: Countdown,
    pub msg: InfoAreaMsg,
    pub lives: LivesDisplay,
    pub goal: Goal,
    pub sounds: Seq<Sound>,
    pub flashes: Seq<Flash>,
    pub grid: Seq<Option<Brick>>,
    pub nlives: u32,
    pub bricks_left: u32,
    pub portal_open: bool,
    pub seconds_left: u64,
    pub avg_delta: u32,
}

/// The level and the counters of its game as they are.
pub open spec fn scene(level: &Level, game: &Game) -> Scene {
    Scene {
        paddle: level.paddle,
        balls: level.balls@,
        bullets: level.bullets@,
        barrels: level.barrels@,
        meanies: level.meanies@,
        portal: level.portal,
        countdown: level.countdown,
        msg: level.msg,
        lives: level.lives,
        goal: level.goal,
        sounds: level.effects.sounds@,
        flashes: level.effects.flashes@,
        grid: game.grid@,
        nlives: game.nlives,
        bricks_left: game.bricks_left,
        portal_open: game.portal_open,
        seconds_left: game.seconds_left,
        avg_delta: game.avg_delta,
    }
}

/// The stage of the paddle, for a paddle that stays in the level: the paddle
/// moves, the balls it holds move with it or are let go, and the gun may
/// fire.
pub open spec fn after_paddle(a: Scene, input: PaddleInput, b: Scene) -> bool {
    let dt = a.avg_delta;
    let x = a.paddle.moved_x(input, dt, a.portal_open);
    let fires = a.paddle.fires(input, dt);
    b == (Scene {
        paddle: Paddle {
            x: x as i64,
            gun_timer: if fires {
                a.paddle.gun_timer.ticked(dt as u64).restarted()
            } else {
                a.paddle.gun_timer.ticked(dt as u64)
            },
            variant: a.paddle.variant,
        },
        balls: balls_carried(a.balls, a.paddle, x, input.fire),
        bullets: bullets_fired(a.bullets, a.paddle, input, dt, x),
        sounds: if fires {
            a.sounds.push(Sound::FireBullet)
        } else {
            a.sounds
        },
        ..a
    })
}

/// The stage of the balls: the frame time is smoothed, the balls move and
/// strike, and broken bricks may drop barrels.
pub open spec fn after_balls(a: Scene, t_step: u32, dist: WeightedDist, b: Scene) -> bool {
    let dt = smoothed(a.avg_delta, t_step);
    let n = a.balls.len();
    &&& balls_after(a.balls, b.balls, a.paddle, a.grid, dt, n)
    &&& b.balls.len() == n - balls_lost(a.balls, a.paddle, a.grid, dt, n)
    &&& balls_drops(a.balls, a.paddle, a.grid, dt, dist, a.barrels, b.barrels, n)
    &&& b.bricks_left == count_bricks(b.grid)
    &&& b.bricks_left <= a.bricks_left
    &&& b == (Scene {
        avg_delta: dt,
        balls: b.balls,
        barrels: b.barrels,
        msg: message_after_balls(a.balls, a.paddle, a.grid, dt, a.msg, n),
        grid: grid_after_balls(a.balls, a.paddle, a.grid, dt, n),
        sounds: a.sounds + sounds_of_balls(a.balls, a.paddle, a.grid, dt, n),
        flashes: a.flashes + flashes_of_balls(a.balls, a.paddle, a.grid, dt, n),
        bricks_left: b.bricks_left,
        nlives: lives_after(a.nlives, a.bricks_left, b.bricks_left),
        ..a
    })
}

/// The stage of the bullets: they fly and strike, those that explode are
/// gone, and broken bricks may drop barrels.
pub open spec fn after_bullets(a: Scene, dist: WeightedDist, b: Scene) -> bool {
    let dt = a.avg_delta;
    let n = a.bullets.len();
    let left = bullets_left(a.bullets, a.grid, dt, n);
    &&& bullets_drops(a.bullets, a.grid, dt, dist, a.barrels, b.barrels, n)
    &&& b.bricks_left == count_bricks(b.grid)
    &&& b.bricks_left <= a.bricks_left
    &&& b == (Scene {
        bullets: left,
        barrels: b.barrels,
        grid: grid_after_bullets(a.bullets, a.grid, dt, n),
        sounds: a.sounds + Seq::new((n - left.len()) as nat, |i: int| Sound::BulletHit),
        flashes: a.flashes + flashes_of_bullets(a.bullets, a.grid, dt, n),
        bricks_left: b.bricks_left,
        nlives: lives_after(a.nlives, a.bricks_left, b.bricks_left),
        ..a
    })
}

/// Whether `after` is what the pickups can make of the balls `before`:
/// without a pickup the same balls; else the balls that do not split,
/// adjusted, followed by the balls that the splits made.
pub open spec fn balls_picked(before: Seq<Ball>, p: Pickups, after: Seq<Ball>) -> bool {
    if p.count == 0 {
        after == before
    } else {
        let nb = before.len() as u32;
        let kept = balls_kept_upto(before, p, nb, before.len());
        &&& after.len() == before.len() + 2 * splits_upto(before, p, nb, before.len())
        &&& kept.len() <= after.len()
        &&& after.subrange(0, kept.len() as int) == kept
        &&& forall|i: int|
            kept.len() <= i < after.len() ==> split_from(#[trigger] after[i], before, p, nb)
    }
}

/// The stage of the barrels: those that touch the paddle are picked up and
/// take effect on the paddle, the countdown, the status line and the balls;
/// those below the field are gone.
pub open spec fn after_barrels(a: Scene, b: Scene) -> bool {
    let p = pickups(a.barrels, a.paddle);
    &&& balls_picked(a.balls, p, b.balls)
    &&& b == (Scene {
        barrels: barrels_left(a.barrels, a.paddle),
        balls: b.balls,
        paddle: Paddle { variant: p.paddle_variant, ..a.paddle },
        countdown: countdown_extended(a.countdown, p.extra_time),
        msg: pickup_message(a.msg, p, a.balls),
        sounds: a.sounds + pickup_sounds(a.barrels, a.paddle),
        ..a
    })
}

/// The stage of the portal.
pub open spec fn after_portal(a: Scene, b: Scene) -> bool {
    let portal = a.portal.updated(a.bricks_left);
    b == (Scene {
        portal,
        portal_open: a.portal_open || (a.portal.portal_state == PortalState::Opening
            && portal.portal_state == PortalState::Open),
        sounds: if a.portal.starts_opening(a.bricks_left) {
            a.sounds.push(Sound::Portal)
        } else {
            a.sounds
        },
        ..a
    })
}

/// The stage of the countdown, in a level whose portal is unlocked for good
/// or not: the countdown and the status line run, and a countdown that runs
/// out in an unlocked level closes the portal.
pub open spec fn after_countdown(a: Scene, unlocked: bool, b: Scene) -> bool {
    let dt = a.avg_delta;
    let timer = a.countdown.timer.ticked(dt as u64);
    let closing = runs_out(a.countdown, dt) && unlocked;
    b == (Scene {
        countdown: Countdown { timer },
        seconds_left: whole_seconds(timer.remaining_spec()),
        msg: message_ticked(a.msg, dt),
        portal: if closing {
            a.portal.closing()
        } else {
            a.portal
        },
        portal_open: a.portal_open && !closing,
        sounds: if closing {
            a.sounds.push(Sound::Portal)
        } else {
            a.sounds
        },
        ..a
    })
}

/// The enemies that roamed on, without the one that arrived.
pub open spec fn roamed_on(meanies: Seq<Meanie>, arrived: bool) -> Seq<Meanie> {
    if arrived {
        meanies.drop_last()
    } else {
        meanies
    }
}

/// The stage of the enemies, with the secret of the enemies unlocked or
/// not: each enemy roams or is destroyed, and a new one may arrive.
pub open spec fn after_meanies(a: Scene, unlocked: bool, arrived: bool, b: Scene) -> bool {
    &&& roams(
        a.meanies,
        a.avg_delta,
        a.paddle,
        Roam {
            meanies: Seq::empty(),
            bullets: a.bullets,
            balls: a.balls,
            flashes: a.flashes,
            sounds: a.sounds,
        },
        Roam {
            meanies: roamed_on(b.meanies, arrived),
            bullets: b.bullets,
            balls: b.balls,
            flashes: b.flashes,
            sounds: b.sounds,
        },
        a.meanies.len(),
    )
    &&& arrived ==> {
        &&& unlocked
        &&& 0 < b.meanies.len() <= MEANIES_MAX
        &&& exists|variant: usize, side: usize|
            variant < MEANIES_TYPES && side < 2 && b.meanies == #[trigger] meanie_arrived(
                b.meanies.drop_last(),
                variant,
                side,
            )
    }
    &&& b.balls.len() == a.balls.len()
    &&& b == (Scene {
        meanies: b.meanies,
        bullets: b.bullets,
        balls: b.balls,
        flashes: b.flashes,
        sounds: b.sounds,
        ..a
    })
}

/// The stage of the animations: flashes, barrels, enemies and the portal
/// play on, and a flash is gone after its last frame.
pub open spec fn after_animation(a: Scene, b: Scene) -> bool {
    let dt = a.avg_delta;
    b == (Scene {
        flashes: flashes_left(a.flashes, dt, a.flashes.len()),
        barrels: a.barrels.map_values(|x: Barrel| barrel_animated(x, dt)),
        meanies: a.meanies.map_values(|m: Meanie| meanie_animated(m, dt)),
        portal: Portal { animation: a.portal.animation.stepped(dt).0, ..a.portal },
        ..a
    })
}

/// The stage of the lives: with no ball in play a life is lost; unless it
/// was the last, the paddle goes back to the middle in its plain variant
/// with a new ball on it. The display follows while the game goes on.
pub open spec fn after_lives(a: Scene, b: Scene) -> bool {
    let lost = a.balls.len() == 0;
    let over = lost && a.nlives == 1;
    let nlives = if lost {
        (a.nlives - 1) as u32
    } else {
        a.nlives
    };
    b == (Scene {
        nlives,
        balls: if lost && !over {
            a.balls.push(new_ball(PADDLE_NORMAL, GAMEAREA_CENTER_X))
        } else {
            a.balls
        },
        paddle: if lost && !over {
            Paddle { variant: PADDLE_NORMAL, x: GAMEAREA_CENTER_X, ..a.paddle }
        } else {
            a.paddle
        },
        lives: LivesDisplay {
            nlives_displayed: if over {
                a.lives.nlives_displayed
            } else {
                nlives
            },
        },
        sounds: if lost && !over {
            a.sounds.push(Sound::Start)
        } else {
            a.sounds
        },
        ..a
    })
}

/// What a tick leaves of the game: the weights of the barrels, the records
/// and the name of the player.
pub open spec fn records_kept(before: &Game, after: &Game) -> bool {
    &&& after.barrel_dist == before.barrel_dist
    &&& after.levels_unlocked == before.levels_unlocked
    &&& after.secrets_unlocked == before.secrets_unlocked
    &&& after.secrets_generated == before.secrets_generated
    &&& after.username == before.username
}

/// What every stage leaves of the game while the paddle stays in the level:
/// the current level, and what a tick leaves.
pub open spec fn game_kept(before: &Game, after: &Game) -> bool {
    after.current_level == before.current_level && records_kept(before, after)
}

/// Runs the stage of the paddle. Returns whether the paddle leaves the
/// level: the next level is then the current one, and nothing else changed.
pub(crate) fn run_paddle(level: &mut Level, input: PaddleInput, game: &mut Game) -> (leaves: bool)
    requires
        old(level).wf(old(game)),
    ensures
        leaves == old(level).paddle.leaves(input, old(game).avg_delta, old(game).portal_open),
        leaves ==> scene(final(level), final(game)) == scene(old(level), old(game)),
        leaves ==> final(game).current_level == old(game).current_level + 1,
        leaves ==> final(game).grid == old(game).grid,
        leaves ==> records_kept(old(game), final(game)),
        final(game).wf(),
        balls_wf(final(level).balls@),
        final(game).nballs == final(level).balls@.len(),
        final(game).nmeanies == final(level).meanies@.len(),
        !leaves ==> final(level).wf(final(game)) && game_kept(old(game), final(game))
            && after_paddle(scene(old(level), old(game)), input, scene(final(level), final(game))),
{
    paddle_update(
        &mut level.effects,
        &mut level.bullets,
        input,
        &mut level.paddle,
        &mut level.balls,
        game,
    )
}

/// Runs the stage of the balls.
pub(crate) fn run_balls(level: &mut Level, t_step: u32, game: &mut Game)
    requires
        old(level).wf(old(game)),
    ensures
        final(level).wf(final(game)),
        game_kept(old(game), final(game)),
        after_balls(
            scene(old(level), old(game)),
            t_step,
            old(game).barrel_dist,
            scene(final(level), final(game)),
        ),
{
    ball_update(
        &mut level.effects,
        &mut level.barrels,
        &mut level.balls,
        &level.paddle,
        &mut level.msg,
        t_step,
        game,
    );
}

/// Runs the stage of the bullets.
pub(crate) fn run_bullets(level: &mut Level, game: &mut Game)
    requires
        old(level).wf(old(game)),
    ensures
        final(level).wf(final(game)),
        game_kept(old(game), final(game)),
        after_bullets(
            scene(old(level), old(game)),
            old(game).barrel_dist,
            scene(final(level), final(game)),
        ),
{
    bullets_update(&mut level.effects, &mut level.barrels, &mut level.bullets, game);
}

/// Runs the stage of the barrels.
pub(crate) fn run_barrels(level: &mut Level, game: &mut Game)
    requires
        old(level).wf(old(game)),
    ensures
        final(level).wf(final(game)),
        game_kept(old(game), final(game)),
        after_barrels(scene(old(level), old(game)), scene(final(level), final(game))),
{
    barrels_update(
        &mut level.effects,
        &mut level.barrels,
        &mut level.balls,
        &mut level.paddle,
        &mut level.countdown,
        &mut level.msg,
        game,
    );
}

/// Runs the stage of the portal.
pub(crate) fn run_portal(level: &mut Level, game: &mut Game)
    requires
        old(level).wf(old(game)),
    ensures
        final(level).wf(final(game)),
        game_kept(old(game), final(game)),
        after_portal(scene(old(level), old(game)), scene(final(level), final(game))),
{
    portal_update(&mut level.effects, &mut level.portal, game);
}

/// Runs the stage of the countdown.
pub(crate) fn run_countdown(level: &mut Level, game: &mut Game)
    requires
        old(level).wf(old(game)),
    ensures
        final(level).wf(final(game)),
        game_kept(old(game), final(game)),
        after_countdown(
            scene(old(level), old(game)),
            old(game).level_unlocked(old(game).current_level as int),
            scene(final(level), final(game)),
        ),
{
    countdown_update(
        &mut level.effects,
        &mut level.countdown,
        &mut level.portal,
        &mut level.msg,
        game,
    );
}

/// Runs the stage of the enemies. Returns whether a new one arrived.
pub(crate) fn run_meanies(level: &mut Level, game: &mut Game) -> (arrived: bool)
    requires
        old(level).wf(old(game)),
    ensures
        final(level).wf(final(game)),
        game_kept(old(game), final(game)),
        after_meanies(
            scene(old(level), old(game)),
            old(game).unlocked(Secret::Meanies.index_spec() as int),
            arrived,
            scene(final(level), final(game)),
        ),
{
    meanies_update(
        &mut level.effects,
        &mut level.meanies,
        &mut level.bullets,
        &mut level.balls,
        &level.paddle,
        game,
    )
}

/// Runs the stage of the animations.
pub(crate) fn run_animation(level: &mut Level, game: &Game)
    requires
        old(level).wf(game),
    ensures
        final(level).wf(game),
        after_animation(scene(old(level), game), scene(final(level), game)),
{
    let ghost dt = game.avg_delta;
    let ghost barrels = level.barrels@;
    let ghost meanies = level.meanies@;
    animate(&mut level.effects, &mut level.barrels, &mut level.meanies, &mut level.portal, game);
    proof {
        assert(level.barrels@ =~= barrels.map_values(|x: Barrel| barrel_animated(x, dt)));
        assert(level.meanies@ =~= meanies.map_values(|m: Meanie| meanie_animated(m, dt)));
    }
}

/// Runs the stage of the lives. Returns whether the game is over.
pub(crate) fn run_lives(level: &mut Level, game: &mut Game) -> (game_over: bool)
    requires
        old(level).wf(old(game)),
    ensures
        game_over == (final(game).nlives == 0),
        !game_over ==> final(level).wf(final(game)),
        final(game).wf(),
        balls_wf(final(level).balls@),
        final(game).nballs == final(level).balls@.len(),
        final(game).nmeanies == final(level).meanies@.len(),
        game_kept(old(game), final(game)),
        after_lives(scene(old(level), old(game)), scene(final(level), final(game))),
{
    lives_update(
        &mut level.effects,
        &mut level.balls,
        &mut level.paddle,
        &mut level.lives,
        game,
    )
}

/// The scenes between the stages of a tick, and whether an enemy arrived.
pub struct Stages {
    pub steered: Scene,
    pub moved: Scene,
    pub shot: Scene,
    pub picked: Scene,
    pub gated: Scene,
    pub timed: Scene,
    pub roamed: Scene,
    pub arrived: bool,
    pub played: Scene,
}

/// Whether `after` is what a tick in which the paddle stays in the level
/// can make of `before`, stage after stage: the paddle; the balls; the
/// bullets; the barrels; the portal; the countdown; the enemies; the
/// animations; the lives.
pub open spec fn ticks(
    before: Scene,
    input: PaddleInput,
    t_step: u32,
    dist: WeightedDist,
    level_unlocked: bool,
    meanies_unlocked: bool,
    w: Stages,
    after: Scene,
) -> bool {
    &&& after_paddle(before, input, w.steered)
    &&& after_balls(w.steered, t_step, dist, w.moved)
    &&& after_bullets(w.moved, dist, w.shot)
    &&& after_barrels(w.shot, w.picked)
    &&& after_portal(w.picked, w.gated)
    &&& after_countdown(w.gated, level_unlocked, w.timed)
    &&& after_meanies(w.timed, meanies_unlocked, w.arrived, w.roamed)
    &&& after_animation(w.roamed, w.played)
    &&& after_lives(w.played, after)
}

/// After a tick in which the paddle stays in the level, the frame time is
/// the smoothed one, the countdown has run for that time from where the
/// pickups left it, the game shows its whole seconds, and the portal closes
/// where the countdown forced it to and else is as its own stage left it.
pub proof fn lemma_tick_countdown(
    before: Scene,
    input: PaddleInput,
    t_step: u32,
    dist: WeightedDist,
    level_unlocked: bool,
    meanies_unlocked: bool,
    w: Stages,
    after: Scene,
)
    requires
        ticks(before, input, t_step, dist, level_unlocked, meanies_unlocked, w, after),
    ensures
        after.avg_delta == smoothed(before.avg_delta, t_step),
        after.countdown.timer == countdown_extended(
            before.countdown,
            pickups(w.shot.barrels, w.steered.paddle).extra_time,
        ).timer.ticked(after.avg_delta as u64),
        after.seconds_left == whole_seconds(after.countdown.timer.remaining_spec()),
        after.portal.portal_state == (if runs_out(w.gated.countdown, after.avg_delta)
            && level_unlocked {
            PortalState::Closing
        } else {
            before.portal.updated(w.shot.bricks_left).portal_state
        }),
{
}

} // verus!
