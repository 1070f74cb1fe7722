//! The shared state of a game: the brick grid, the counters and the player's
//! progress.

use vstd::prelude::*;
use crate::animation::{animate, Animation};
use crate::balls_and_bullets::{
    ball_update, balls_lost, balls_wf, bullets_update, grid_after_balls, grid_after_bullets,
    lives_update, new_ball, smoothed, spawn_new_ball, Ball, Bullet, LivesDisplay,
};
use crate::barrels::{barrels_update, barrels_wf, Barrel};
use crate::collisions::lives_after;
use crate::consts::{
    level_timer, BRICK_TYPES, EXTRA_TIME, GAMEAREA_CENTER_X, GRID_COLS, GRID_ROWS, GUN_TIMER,
    INFOAREA_TIMER, MULTIBALL_MAX, NLEVELS, NLIVES, PADDLE_NORMAL, UNLOCKED_PORTAL_TIMER,
};
use crate::countdown_and_portal::{
    countdown_update, portal_update, seconds_up, whole_seconds, Countdown, Portal, PortalState,
};
use crate::fixed::Vector;
use crate::meanies::{meanies_update, meanies_wf, Meanie};
use crate::paddle::{balls_carried, bullets_fired, paddle_update, Paddle, PaddleInput};
use crate::random::{dist_weights, weighted_index, WeightedDist};
use crate::shop::{
    barrel_weights, level_is_unlocked, secret_is_discovered, weights_for, Secret,
};
use crate::stages::{
    run_animation, run_balls, run_barrels, run_bullets, run_countdown, run_lives, run_meanies,
    run_paddle, run_portal, scene, ticks, Stages,
};
use crate::timer::{Timer, TimerMode};

verus! {

/// A brick of the grid. The variant is its colour and its behaviour: 0 to 11
/// break at the first hit, 12 becomes 11 at the first hit, 13 never breaks
/// and 14 is invisible and breaks at the first hit.
#[derive(Clone, Copy, Debug, PartialEq, Eq, Structural)]
pub struct Brick {
    pub variant: usize,
}

/// Variant of the brick that takes two hits.
pub const BRICK_TWO_HITS: usize = 12;

/// Variant that a two-hit brick takes after its first hit.
pub const BRICK_ONE_HIT: usize = 11;

/// Variant of the brick that never breaks.
pub const BRICK_INDESTRUCTIBLE: usize = 13;

/// Variant of the invisible brick.
pub const BRICK_INVISIBLE: usize = 14;

/// A sound to play.
#[derive(Clone, Copy, Debug, PartialEq, Eq, Structural)]
pub enum Sound {
    HitWall,
    HitBrick,
    FireBullet,
    Paddle,
    Magnet,
    BulletHit,
    Start,
    Portal,
    Chime,
    /// The sound of the barrel variant picked up.
    Barrel(usize),
}

/// Which frames a flash plays.
#[derive(Clone, Copy, Debug, PartialEq, Eq, Structural)]
pub enum FlashKind {
    /// The flash of a brick of the given variant.
    Brick(usize),
    /// The flash of a ball on a wall.
    Ball,
    /// The flash of a bullet or of an enemy.
    Bullet,
}

/// A short animation shown where something was hit; it is removed after its
/// last frame.
#[derive(Clone, Copy, Debug, PartialEq, Eq, Structural)]
pub struct Flash {
    pub position: Vector,
    pub kind: FlashKind,
    pub animation: Animation,
}

/// Whether the animation of every flash is well formed.
pub open spec fn flashes_wf(flashes: Seq<Flash>) -> bool {
    forall|i: int| 0 <= i < flashes.len() ==> (#[trigger] flashes[i]).animation.wf()
}

/// What the simulation asks its host to present: sounds to play once, and
/// the flashes on screen.
#[derive(Debug)]
pub struct Effects {
    pub sounds: Vec<Sound>,
    pub flashes: Vec<Flash>,
}

/// Text of the status line.
#[derive(Clone, Copy, Debug, PartialEq, Eq, Structural)]
pub enum Message {
    Empty,
    /// The ball's speed, in percent of its first speed.
    Speed(u32),
    /// A nudge of a ball, with its speed in percent of its first speed.
    Nudge(u32),
    /// The title of the barrel variant picked up.
    Barrel(usize),
}

/// The status line and the time for which it still shows.
#[derive(Clone, Copy, Debug, PartialEq, Eq, Structural)]
pub struct InfoAreaMsg {
    pub text: Message,
    pub timer: Timer,
}

/// State shared by the stages of a tick.
#[derive(Debug)]
pub struct Game {
    /// The bricks, row after row; `None` where there is none.
    pub grid: Vec<Option<Brick>>,
    pub nlives: u32,
    /// Balls in play.
    pub nballs: u32,
    /// Enemies in play.
    pub nmeanies: u32,
    pub current_level: usize,
    /// Bricks left to destroy: all but those that never break.
    pub bricks_left: u32,
    pub portal_open: bool,
    /// Whole seconds left on the countdown, rounded up.
    pub seconds_left: u64,
    /// Smoothed duration of a frame, in microseconds.
    pub avg_delta: u32,
    /// Draws the variant of a barrel.
    pub barrel_dist: WeightedDist,
    /// Per level, the code that unlocked its portal, or nothing.
    pub levels_unlocked: Vec<String>,
    /// Per secret, the code of another player that unlocked it, or nothing.
    pub secrets_unlocked: Vec<String>,
    /// Per secret, the code made when the player discovered it, or nothing.
    pub secrets_generated: Vec<String>,
    pub username: String,
}

/// 1 for a cell whose brick is left to destroy, 0 for any other.
pub open spec fn counted(cell: Option<Brick>) -> nat {
    match cell {
        Some(b) => if b.variant != BRICK_INDESTRUCTIBLE {
            1
        } else {
            0
        },
        None => 0,
    }
}

/// Number of bricks of a grid that are left to destroy.
pub open spec fn count_bricks(grid: Seq<Option<Brick>>) -> nat
    decreases grid.len(),
{
    if grid.len() == 0 {
        0
    } else {
        count_bricks(grid.drop_last()) + counted(grid.last())
    }
}

/// Replacing one cell changes the count by what the old and the new cell
/// count for; the count is never more than the number of cells.
pub proof fn lemma_count_update(grid: Seq<Option<Brick>>, i: int, cell: Option<Brick>)
    requires
        0 <= i < grid.len(),
    ensures
        count_bricks(grid.update(i, cell)) == count_bricks(grid) - counted(grid[i]) + counted(cell),
        count_bricks(grid) >= counted(grid[i]),
        count_bricks(grid) <= grid.len(),
    decreases grid.len(),
{
    let n = grid.len() - 1;
    if i == n {
        assert(grid.update(i, cell).drop_last() =~= grid.drop_last());
        lemma_count_bound(grid.drop_last());
    } else {
        lemma_count_update(grid.drop_last(), i, cell);
        assert(grid.update(i, cell).drop_last() =~= grid.drop_last().update(i, cell));
    }
}

/// A grid holds no more bricks than it has cells.
pub proof fn lemma_count_bound(grid: Seq<Option<Brick>>)
    ensures
        count_bricks(grid) <= grid.len(),
    decreases grid.len(),
{
    if grid.len() > 0 {
        lemma_count_bound(grid.drop_last());
    }
}

/// A grid in which nothing is left to destroy holds no brick but those that
/// never break.
pub proof fn lemma_count_zero(grid: Seq<Option<Brick>>, i: int)
    requires
        count_bricks(grid) == 0,
        0 <= i < grid.len(),
    ensures
        counted(grid[i]) == 0,
    decreases grid.len(),
{
    if i < grid.len() - 1 {
        lemma_count_zero(grid.drop_last(), i);
    }
}

impl Game {
    /// The grid has a cell for each place, every brick has one of the
    /// variants, the counter of bricks agrees with the grid, and there is a
    /// record for every level and secret.
    pub open spec fn wf(&self) -> bool {
        &&& self.grid@.len() == GRID_ROWS * GRID_COLS
        &&& forall|i: int|
            0 <= i < self.grid@.len() ==> match #[trigger] self.grid@[i] {
                Some(b) => b.variant < BRICK_TYPES,
                None => true,
            }
        &&& self.bricks_left == count_bricks(self.grid@)
        &&& self.levels_unlocked@.len() == NLEVELS
        &&& self.secrets_unlocked@.len() == NLEVELS
        &&& self.secrets_generated@.len() == NLEVELS
    }
}

/// A grid without bricks holds nothing to destroy.
pub proof fn lemma_count_empty(grid: Seq<Option<Brick>>)
    requires
        forall|i: int| 0 <= i < grid.len() ==> (#[trigger] grid[i]) is None,
    ensures
        count_bricks(grid) == 0,
    decreases grid.len(),
{
    if grid.len() > 0 {
        lemma_count_empty(grid.drop_last());
    }
}

/// Smoothed duration of a frame before any frame was timed: a sixtieth of a
/// second.
pub const FIRST_DELTA: u32 = 16_667;

/// `n` empty records.
fn empty_records(n: usize) -> (records: Vec<String>)
    ensures
        records@.len() == n,
        forall|i: int| 0 <= i < n ==> (#[trigger] records@[i])@.len() == 0,
{
    let mut records: Vec<String> = Vec::new();
    let mut k: usize = 0;
    while k < n
        invariant
            k <= n,
            records@.len() == k,
            forall|i: int| 0 <= i < k ==> (#[trigger] records@[i])@.len() == 0,
        decreases n - k,
    {
        records.push(String::new());
        k = k + 1;
    }
    records
}

impl Game {
    /// The game of a player who has not played yet: all lives, no bricks, no
    /// progress, and the barrels drawn with the weights that go with no
    /// unlocked secret.
    pub fn new(username: String) -> (game: Game)
        ensures
            game.wf(),
            game.username == username,
            game.nlives == NLIVES,
            game.nballs == 0,
            game.nmeanies == 0,
            game.current_level == 0,
            game.bricks_left == 0,
            !game.portal_open,
            game.seconds_left == 0,
            game.avg_delta == FIRST_DELTA,
            forall|i: int| 0 <= i < game.grid@.len() ==> (#[trigger] game.grid@[i]) is None,
            forall|i: int|
                0 <= i < NLEVELS ==> !game.discovered(i) && !game.unlocked(i)
                    && !#[trigger] game.level_unlocked(i),
            dist_weights(game.barrel_dist) == barrel_weights(false, false, false),
    {
        let mut grid: Vec<Option<Brick>> = Vec::new();
        let mut k: usize = 0;
        while k < GRID_ROWS * GRID_COLS
            invariant
                k <= GRID_ROWS * GRID_COLS,
                grid@.len() == k,
                forall|i: int| 0 <= i < k ==> (#[trigger] grid@[i]) is None,
            decreases GRID_ROWS * GRID_COLS - k,
        {
            grid.push(None);
            k = k + 1;
        }
        proof {
            lemma_count_empty(grid@);
        }
        let weights = weights_for(false, false, false);
        let dist = weighted_index(&weights);
        Game {
            grid,
            nlives: NLIVES,
            nballs: 0,
            nmeanies: 0,
            current_level: 0,
            bricks_left: 0,
            portal_open: false,
            seconds_left: 0,
            avg_delta: FIRST_DELTA,
            barrel_dist: dist.unwrap(),
            levels_unlocked: empty_records(NLEVELS),
            secrets_unlocked: empty_records(NLEVELS),
            secrets_generated: empty_records(NLEVELS),
            username,
        }
    }
}

/// What the player is to do before the countdown of the level runs out.
#[derive(Clone, Copy, Debug, PartialEq, Eq, Structural)]
pub enum Goal {
    /// Beat the countdown to discover the secret of the level.
    DiscoverSecret,
    /// Beat the shorter countdown to unlock the portal of the level for good.
    UnlockLevel,
    /// Leave through the portal before it closes.
    Exit,
}

/// The entities of a level.
#[derive(Debug)]
pub struct Level {
    pub paddle: Paddle,
    pub balls: Vec<Ball>,
    pub bullets: Vec<Bullet>,
    pub barrels: Vec<Barrel>,
    pub meanies: Vec<Meanie>,
    pub portal: Portal,
    pub countdown: Countdown,
    pub msg: InfoAreaMsg,
    pub lives: LivesDisplay,
    pub effects: Effects,
    pub goal: Goal,
}

/// The brick that a character of a level stands for: none for a space, and
/// the variant given by a hexadecimal digit from `0` to `e`.
pub open spec fn brick_of_char(ch: u8) -> Option<Brick> {
    if 0x30 <= ch <= 0x39 {
        Some(Brick { variant: (ch - 0x30) as usize })
    } else if 0x61 <= ch <= 0x65 {
        Some(Brick { variant: (ch - 0x61 + 10) as usize })
    } else {
        None
    }
}

/// Whether a character may stand in a level: a space or a hexadecimal digit
/// from `0` to `e`.
pub open spec fn char_valid(ch: u8) -> bool {
    ch == 0x20 || 0x30 <= ch <= 0x39 || 0x61 <= ch <= 0x65
}

/// Whether the rows make a level: there is a row for every row of the grid,
/// with a valid character for every column.
pub open spec fn level_valid(rows: Seq<Vec<u8>>) -> bool {
    &&& rows.len() == GRID_ROWS
    &&& forall|r: int| 0 <= r < GRID_ROWS ==> (#[trigger] rows[r])@.len() == GRID_COLS
    &&& forall|r: int, c: int|
        0 <= r < GRID_ROWS && 0 <= c < GRID_COLS ==> char_valid(#[trigger] rows[r]@[c])
}

/// The grid that the rows of a level stand for.
pub open spec fn level_grid(rows: Seq<Vec<u8>>) -> Seq<Option<Brick>> {
    Seq::new(
        (GRID_ROWS * GRID_COLS) as nat,
        |i: int| brick_of_char(rows[i / (GRID_COLS as int)]@[i % (GRID_COLS as int)]),
    )
}

/// Says whether the rows make a level.
pub fn level_is_valid(rows: &Vec<Vec<u8>>) -> (valid: bool)
    ensures
        valid == level_valid(rows@),
{
    if rows.len() != GRID_ROWS {
        return false;
    }
    let mut r: usize = 0;
    while r < GRID_ROWS
        invariant
            r <= GRID_ROWS,
            rows@.len() == GRID_ROWS,
            forall|i: int| 0 <= i < r ==> (#[trigger] rows@[i])@.len() == GRID_COLS,
            forall|i: int, c: int|
                0 <= i < r && 0 <= c < GRID_COLS ==> char_valid(#[trigger] rows@[i]@[c]),
        decreases GRID_ROWS - r,
    {
        if rows[r].len() != GRID_COLS {
            return false;
        }
        let mut c: usize = 0;
        while c < GRID_COLS
            invariant
                r < GRID_ROWS,
                c <= GRID_COLS,
                rows@.len() == GRID_ROWS,
                rows@[r as int]@.len() == GRID_COLS,
                forall|k: int| 0 <= k < c ==> char_valid(#[trigger] rows@[r as int]@[k]),
            decreases GRID_COLS - c,
        {
            let ch = rows[r][c];
            if !(ch == 0x20 || (0x30 <= ch && ch <= 0x39) || (0x61 <= ch && ch <= 0x65)) {
                return false;
            }
            c = c + 1;
        }
        r = r + 1;
    }
    true
}

impl Game {
    /// There is a record for every level and secret, and the current level
    /// is one of the levels.
    pub open spec fn has_records(&self) -> bool {
        &&& self.levels_unlocked@.len() == NLEVELS
        &&& self.secrets_unlocked@.len() == NLEVELS
        &&& self.secrets_generated@.len() == NLEVELS
        &&& self.current_level < NLEVELS
    }

    /// What the player is to do in the current level: leave, where the
    /// portal is unlocked for good; else unlock the portal, where the secret
    /// is discovered; else discover the secret.
    pub open spec fn goal(&self) -> Goal {
        if self.level_unlocked(self.current_level as int) {
            Goal::Exit
        } else if self.discovered(self.current_level as int) {
            Goal::UnlockLevel
        } else {
            Goal::DiscoverSecret
        }
    }

    /// Duration of the countdown of the current level: that of the level to
    /// discover its secret, `EXTRA_TIME` less to unlock its portal, and
    /// `UNLOCKED_PORTAL_TIMER` to leave through an unlocked portal.
    pub open spec fn countdown_time(&self) -> u64 {
        match self.goal() {
            Goal::Exit => UNLOCKED_PORTAL_TIMER,
            Goal::UnlockLevel => (level_timer(self.current_level) - EXTRA_TIME) as u64,
            Goal::DiscoverSecret => level_timer(self.current_level),
        }
    }
}

impl Game {
    /// Says whether the game is well formed.
    pub fn is_wf(&self) -> (b: bool)
        ensures
            b == self.wf(),
    {
        if self.grid.len() != GRID_ROWS * GRID_COLS || self.levels_unlocked.len() != NLEVELS
            || self.secrets_unlocked.len() != NLEVELS || self.secrets_generated.len() != NLEVELS {
            return false;
        }
        let mut count: u32 = 0;
        let mut i: usize = 0;
        while i < GRID_ROWS * GRID_COLS
            invariant
                i <= GRID_ROWS * GRID_COLS,
                self.grid@.len() == GRID_ROWS * GRID_COLS,
                count == count_bricks(self.grid@.subrange(0, i as int)),
                count <= i,
                forall|k: int|
                    0 <= k < i ==> match #[trigger] self.grid@[k] {
                        Some(b) => b.variant < BRICK_TYPES,
                        None => true,
                    },
            decreases GRID_ROWS * GRID_COLS - i,
        {
            proof {
                assert(self.grid@.subrange(0, i + 1).drop_last() =~= self.grid@.subrange(
                    0,
                    i as int,
                ));
            }
            if let Some(brick) = self.grid[i] {
                if brick.variant >= BRICK_TYPES {
                    return false;
                }
                if brick.variant != BRICK_INDESTRUCTIBLE {
                    count = count + 1;
                }
            }
            i = i + 1;
        }
        proof {
            assert(self.grid@.subrange(0, self.grid@.len() as int) =~= self.grid@);
        }
        count == self.bricks_left
    }

    /// Says whether the game has its records and is at one of the levels.
    pub fn has_its_records(&self) -> (b: bool)
        ensures
            b == self.has_records(),
    {
        self.levels_unlocked.len() == NLEVELS && self.secrets_unlocked.len() == NLEVELS
            && self.secrets_generated.len() == NLEVELS && self.current_level < NLEVELS
    }
}

impl Level {
    /// Says whether the level is well formed.
    pub fn is_wf(&self, game: &Game) -> (b: bool)
        ensures
            b == self.wf(game),
    {
        if !(game.is_wf() && game.has_its_records() && game.nlives > 0 && self.paddle.is_wf()
            && self.portal.animation.is_wf() && self.balls.len() <= u32::MAX as usize
            && game.nballs as usize == self.balls.len() && game.nballs <= MULTIBALL_MAX
            && self.meanies.len() <= u32::MAX as usize
            && game.nmeanies as usize == self.meanies.len()) {
            return false;
        }
        let mut i: usize = 0;
        while i < self.balls.len()
            invariant
                i <= self.balls@.len(),
                forall|k: int| 0 <= k < i ==> (#[trigger] self.balls@[k]).wf(),
            decreases self.balls.len() - i,
        {
            if !self.balls[i].is_wf() {
                return false;
            }
            i = i + 1;
        }
        let mut i: usize = 0;
        while i < self.barrels.len()
            invariant
                i <= self.barrels@.len(),
                forall|k: int| 0 <= k < i ==> (#[trigger] self.barrels@[k]).wf(),
            decreases self.barrels.len() - i,
        {
            if !self.barrels[i].is_wf() {
                return false;
            }
            i = i + 1;
        }
        let mut i: usize = 0;
        while i < self.meanies.len()
            invariant
                i <= self.meanies@.len(),
                forall|k: int| 0 <= k < i ==> (#[trigger] self.meanies@[k]).wf(),
            decreases self.meanies.len() - i,
        {
            if !self.meanies[i].is_wf() {
                return false;
            }
            i = i + 1;
        }
        let mut i: usize = 0;
        while i < self.effects.flashes.len()
            invariant
                i <= self.effects.flashes@.len(),
                forall|k: int| 0 <= k < i ==> (#[trigger] self.effects.flashes@[k]).animation.wf(),
            decreases self.effects.flashes.len() - i,
        {
            if !self.effects.flashes[i].animation.is_wf() {
                return false;
            }
            i = i + 1;
        }
        true
    }

    /// The entities are well formed and agree with the counters of the
    /// game, there are no more balls than `MULTIBALL_MAX`, and the game goes
    /// on: a life is left and the current level is one of the levels.
    pub open spec fn wf(&self, game: &Game) -> bool {
        self.fits(game) && game.nlives > 0
    }

    /// The entities are well formed and agree with the counters of the
    /// game, there are no more balls than `MULTIBALL_MAX`, and the current
    /// level is one of the levels.
    pub open spec fn fits(&self, game: &Game) -> bool {
        &&& game.wf()
        &&& game.has_records()
        &&& self.paddle.wf()
        &&& balls_wf(self.balls@)
        &&& barrels_wf(self.barrels@)
        &&& meanies_wf(self.meanies@)
        &&& flashes_wf(self.effects.flashes@)
        &&& self.portal.animation.wf()
        &&& game.nballs == self.balls@.len()
        &&& game.nballs <= MULTIBALL_MAX
        &&& game.nmeanies == self.meanies@.len()
    }
}

/// What entering a level leaves of the game as it was.
pub open spec fn enter_keeps(before: &Game, after: &Game) -> bool {
    &&& after.current_level == before.current_level
    &&& after.avg_delta == before.avg_delta
    &&& after.barrel_dist == before.barrel_dist
    &&& after.levels_unlocked == before.levels_unlocked
    &&& after.secrets_unlocked == before.secrets_unlocked
    &&& after.secrets_generated == before.secrets_generated
    &&& after.username == before.username
}

/// Enters the current level, whose bricks are given as rows of characters.
/// The paddle starts in the middle with a ball on it. The countdown is set
/// by what the player has reached in this level, and the portal starts to
/// open where it is unlocked for good. The first level starts with all
/// lives; any other level starts with the lives that are left, be it none.
/// The grid is filled from the rows, and the bricks to destroy are counted.
pub fn game_enter(rows: &Vec<Vec<u8>>, game: &mut Game) -> (level: Level)
    requires
        level_valid(rows@),
        old(game).has_records(),
        old(game).grid@.len() == GRID_ROWS * GRID_COLS,
    ensures
        level.fits(final(game)),
        final(game).nlives > 0 ==> level.wf(final(game)),
        enter_keeps(old(game), final(game)),
        final(game).grid@ == level_grid(rows@),
        final(game).nlives == (if old(game).current_level == 0 {
            NLIVES
        } else {
            old(game).nlives
        }),
        final(game).nballs == 1,
        final(game).nmeanies == 0,
        !final(game).portal_open,
        final(game).seconds_left == whole_seconds(old(game).countdown_time()),
        level.paddle == (Paddle {
            variant: PADDLE_NORMAL,
            gun_timer: Timer::fresh(GUN_TIMER, TimerMode::Once),
            x: GAMEAREA_CENTER_X,
        }),
        level.balls@ == seq![new_ball(PADDLE_NORMAL, GAMEAREA_CENTER_X)],
        level.bullets@.len() == 0,
        level.barrels@.len() == 0,
        level.meanies@.len() == 0,
        level.portal == Portal::fresh(old(game).level_unlocked(old(game).current_level as int)),
        level.countdown == (Countdown {
            timer: Timer::fresh(old(game).countdown_time(), TimerMode::Once),
        }),
        level.msg == (InfoAreaMsg {
            text: Message::Empty,
            timer: Timer::fresh(INFOAREA_TIMER, TimerMode::Once),
        }),
        level.lives == (LivesDisplay { nlives_displayed: 0 }),
        level.goal == old(game).goal(),
        level.effects.flashes@.len() == 0,
        level.effects.sounds@ == (if old(game).level_unlocked(old(game).current_level as int) {
            seq![Sound::Portal]
        } else {
            Seq::empty()
        }).push(
            if old(game).current_level == 3 {
                Sound::Chime
            } else {
                Sound::Start
            },
        ),
{
    let paddle = Paddle {
        variant: PADDLE_NORMAL,
        gun_timer: Timer::new(GUN_TIMER, TimerMode::Once),
        x: GAMEAREA_CENTER_X,
    };
    let mut balls: Vec<Ball> = Vec::new();
    game.nballs = 0;
    spawn_new_ball(&mut balls, paddle.variant, paddle.x, game);
    game.nmeanies = 0;
    let unlocked = level_is_unlocked(game.current_level, game);
    let mut time = level_timer(game.current_level);
    let mut goal = Goal::DiscoverSecret;
    if unlocked {
        time = UNLOCKED_PORTAL_TIMER;
        goal = Goal::Exit;
    } else if secret_is_discovered(game.current_level, game) {
        time = time - EXTRA_TIME;
        goal = Goal::UnlockLevel;
    }
    game.seconds_left = seconds_up(time);
    let mut effects = Effects { sounds: Vec::new(), flashes: Vec::new() };
    game.portal_open = false;
    if unlocked {
        effects.sounds.push(Sound::Portal);
    }
    let portal = Portal::new(unlocked);
    if game.current_level == 0 {
        game.nlives = NLIVES;
    }
    game.bricks_left = 0;
    let ghost target = level_grid(rows@);
    let mut i: usize = 0;
    proof {
        lemma_count_prefix_zero(game.grid@);
    }
    while i < GRID_ROWS * GRID_COLS
        invariant
            i <= GRID_ROWS * GRID_COLS,
            level_valid(rows@),
            target == level_grid(rows@),
            game.grid@.len() == GRID_ROWS * GRID_COLS,
            forall|k: int| 0 <= k < i ==> #[trigger] game.grid@[k] == target[k],
            game.bricks_left == count_bricks(game.grid@.subrange(0, i as int)),
            game.bricks_left <= i,
            enter_keeps(old(game), game),
            game.has_records(),
            game.nballs == 1,
            game.nmeanies == 0,
            !game.portal_open,
            game.seconds_left == whole_seconds(old(game).countdown_time()),
            game.nlives == (if old(game).current_level == 0 {
                NLIVES
            } else {
                old(game).nlives
            }),
        decreases GRID_ROWS * GRID_COLS - i,
    {
        let r = i / GRID_COLS;
        let c = i % GRID_COLS;
        let ch = rows[r][c];
        let cell = if ch == 0x20 {
            None
        } else if ch <= 0x39 {
            Some(Brick { variant: (ch - 0x30) as usize })
        } else {
            Some(Brick { variant: (ch - 0x61 + 10) as usize })
        };
        assert(char_valid(rows@[r as int]@[c as int]));
        let ghost before = game.grid@;
        game.grid[i] = cell;
        proof {
            assert(game.grid@.subrange(0, i + 1).drop_last() =~= before.subrange(0, i as int));
        }
        if let Some(brick) = cell {
            if brick.variant != BRICK_INDESTRUCTIBLE {
                game.bricks_left = game.bricks_left + 1;
            }
        }
        i = i + 1;
    }
    proof {
        assert(game.grid@.subrange(0, game.grid@.len() as int) =~= game.grid@);
        assert(game.grid@ =~= target);
    }
    effects.sounds.push(
        if game.current_level == 3 {
            Sound::Chime
        } else {
            Sound::Start
        },
    );
    Level {
        paddle,
        balls,
        bullets: Vec::new(),
        barrels: Vec::new(),
        meanies: Vec::new(),
        portal,
        countdown: Countdown { timer: Timer::new(time, TimerMode::Once) },
        msg: InfoAreaMsg {
            text: Message::Empty,
            timer: Timer::new(INFOAREA_TIMER, TimerMode::Once),
        },
        lives: LivesDisplay { nlives_displayed: 0 },
        effects,
        goal,
    }
}

/// No brick is counted in the empty start of a grid.
proof fn lemma_count_prefix_zero(grid: Seq<Option<Brick>>)
    ensures
        count_bricks(grid.subrange(0, 0)) == 0,
{
}

/// The paddle, the balls and the bullets after the stage of the paddle, for
/// a paddle that stays in the level.
pub struct Steered {
    pub paddle: Paddle,
    pub balls: Seq<Ball>,
    pub bullets: Seq<Bullet>,
}

/// What the stage of the paddle makes of a level that the paddle does not
/// leave.
pub open spec fn steered(level: &Level, input: PaddleInput, game: &Game) -> Steered {
    let dt = game.avg_delta;
    let x = level.paddle.moved_x(input, dt, game.portal_open);
    Steered {
        paddle: Paddle {
            x: x as i64,
            gun_timer: if level.paddle.fires(input, dt) {
                level.paddle.gun_timer.ticked(dt as u64).restarted()
            } else {
                level.paddle.gun_timer.ticked(dt as u64)
            },
            variant: level.paddle.variant,
        },
        balls: balls_carried(level.balls@, level.paddle, x, input.fire),
        bullets: bullets_fired(level.bullets@, level.paddle, input, dt, x),
    }
}

/// The grid after a tick in which the paddle stays in the level: the balls
/// strike first, one after the other, then the bullets.
pub open spec fn tick_grid(level: &Level, input: PaddleInput, t_step: u32, game: &Game) -> Seq<
    Option<Brick>,
> {
    let s = steered(level, input, game);
    let dt = smoothed(game.avg_delta, t_step);
    grid_after_bullets(
        s.bullets,
        grid_after_balls(s.balls, s.paddle, game.grid@, dt, s.balls.len()),
        dt,
        s.bullets.len(),
    )
}

/// Whether a tick in which the paddle stays in the level costs a life: no
/// ball is left in play.
pub open spec fn tick_loses_life(
    level: &Level,
    input: PaddleInput,
    t_step: u32,
    game: &Game,
) -> bool {
    let s = steered(level, input, game);
    let dt = smoothed(game.avg_delta, t_step);
    balls_lost(s.balls, s.paddle, game.grid@, dt, s.balls.len()) == s.balls.len()
}

/// How a tick of a level ended.
#[derive(Clone, Copy, Debug, PartialEq, Eq, Structural)]
pub enum TickEnd {
    /// The level goes on.
    Playing,
    /// The paddle left through the portal: the next level is the current one.
    NextLevel,
    /// The last life is lost.
    GameOver,
}

/// Advances a level by one tick, stage after stage: the paddle; the balls;
/// the bullets; the barrels; the portal; the countdown; the enemies; the
/// animations; the lives. A paddle that leaves through the portal ends the
/// tick at once, with nothing else changed; else the level and the counters
/// of the game are what the stages make of them one after the other
/// (`ticks`).
pub fn game_update(level: &mut Level, input: PaddleInput, t_step: u32, game: &mut Game) -> (end:
    TickEnd)
    requires
        old(level).wf(old(game)),
    ensures
        end == TickEnd::Playing ==> final(level).wf(final(game)),
        end == TickEnd::NextLevel <==> old(level).paddle.leaves(
            input,
            old(game).avg_delta,
            old(game).portal_open,
        ),
        end == TickEnd::NextLevel ==> final(game).current_level == old(game).current_level + 1
            && final(game).nlives == old(game).nlives && final(game).grid == old(game).grid
            && final(game).bricks_left == old(game).bricks_left,
        end != TickEnd::NextLevel ==> final(game).current_level == old(game).current_level
            && final(game).avg_delta == smoothed(old(game).avg_delta, t_step),
        end == TickEnd::GameOver <==> end != TickEnd::NextLevel && final(game).nlives == 0,
        end != TickEnd::NextLevel ==> final(game).grid@ == tick_grid(
            old(level),
            input,
            t_step,
            old(game),
        ),
        end != TickEnd::NextLevel ==> final(game).nlives == lives_after(
            old(game).nlives,
            old(game).bricks_left,
            final(game).bricks_left,
        ) - (if tick_loses_life(old(level), input, t_step, old(game)) {
            1int
        } else {
            0int
        }),
        end != TickEnd::NextLevel && final(game).bricks_left == 0 && old(level).portal.portal_state
            == PortalState::Closed ==> final(level).portal.portal_state != PortalState::Closed,
        end == TickEnd::NextLevel ==> scene(final(level), final(game)) == scene(
            old(level),
            old(game),
        ),
        end != TickEnd::NextLevel ==> exists|w: Stages| #[trigger]
            ticks(
                scene(old(level), old(game)),
                input,
                t_step,
                old(game).barrel_dist,
                old(game).level_unlocked(old(game).current_level as int),
                old(game).unlocked(Secret::Meanies.index_spec() as int),
                w,
                scene(final(level), final(game)),
            ),
        final(game).wf(),
        balls_wf(final(level).balls@),
        final(game).nballs == final(level).balls@.len(),
        final(game).nmeanies == final(level).meanies@.len(),
        final(game).bricks_left <= old(game).bricks_left,
        final(game).barrel_dist == old(game).barrel_dist,
        final(game).levels_unlocked == old(game).levels_unlocked,
        final(game).secrets_unlocked == old(game).secrets_unlocked,
        final(game).secrets_generated == old(game).secrets_generated,
        final(game).username == old(game).username,
{
    let ghost before = scene(level, game);
    let ghost dist = game.barrel_dist;
    let ghost level_unlocked = game.level_unlocked(game.current_level as int);
    let ghost meanies_unlocked = game.unlocked(Secret::Meanies.index_spec() as int);
    let leaves = run_paddle(level, input, game);
    if leaves {
        return TickEnd::NextLevel;
    }
    let ghost s1 = scene(level, game);
    run_balls(level, t_step, game);
    let ghost s2 = scene(level, game);
    run_bullets(level, game);
    let ghost s3 = scene(level, game);
    run_barrels(level, game);
    let ghost s4 = scene(level, game);
    run_portal(level, game);
    let ghost s5 = scene(level, game);
    run_countdown(level, game);
    let ghost s6 = scene(level, game);
    let arrived = run_meanies(level, game);
    let ghost s7 = scene(level, game);
    run_animation(level, game);
    let ghost s8 = scene(level, game);
    let game_over = run_lives(level, game);
    proof {
        let w = Stages {
            steered: s1,
            moved: s2,
            shot: s3,
            picked: s4,
            gated: s5,
            timed: s6,
            roamed: s7,
            arrived,
            played: s8,
        };
        assert(ticks(
            before,
            input,
            t_step,
            dist,
            level_unlocked,
            meanies_unlocked,
            w,
            scene(level, game),
        ));
    }
    if game_over {
        TickEnd::GameOver
    } else {
        TickEnd::Playing
    }
}

} // verus!
