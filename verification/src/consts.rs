//! Dimensions of the play field and tuning values of the game.
//!
//! Lengths are in length units, speeds in length units per second and
//! durations in microseconds.

use vstd::prelude::*;
use crate::fixed::{Size, UNIT};

verus! {

pub const NLEVELS: usize = 8;

pub const NLIVES: u32 = 3;

pub const SCREEN_WIDTH: i64 = 800 * UNIT;

pub const SCREEN_HEIGHT: i64 = 640 * UNIT;

pub const GAMEAREA_MINX: i64 = -400 * UNIT;

pub const GAMEAREA_MAXX: i64 = 240 * UNIT;

pub const GAMEAREA_MINY: i64 = -320 * UNIT;

pub const GAMEAREA_MAXY: i64 = 320 * UNIT;

pub const GAMEAREA_CENTER_X: i64 = -80 * UNIT;

pub const GAMEAREA_CENTER_Y: i64 = 0;

pub const BALLAREA_MINX: i64 = -380 * UNIT;

pub const BALLAREA_MAXX: i64 = 220 * UNIT;

pub const BALLAREA_MAXY: i64 = 280 * UNIT;

/// Time for which a status message stays on screen.
pub const INFOAREA_TIMER: u64 = 3_000_000;

pub const GRID_ROWS: usize = 22;

pub const GRID_COLS: usize = 15;

pub const BRICK_WIDTH: i64 = 40 * UNIT;

pub const BRICK_HEIGHT: i64 = 20 * UNIT;

pub const BRICK_TYPES: usize = 15;

pub const BRICK_FRAMES: usize = 4;

/// Time between two frames of a brick's or a wall's impact flash.
pub const BRICK_FRAME_TIME: u64 = 50_000;

pub const PORTAL_FRAMES: usize = 4;

/// Time between two frames of the portal.
pub const PORTAL_FRAME_TIME: u64 = 50_000;

pub const BARREL_TYPES: usize = 10;

pub const BARREL_FRAMES: usize = 10;

/// Time between two frames of a barrel.
pub const BARREL_FRAME_TIME: u64 = 111_111;

pub const BARREL_SPEED: i64 = 150 * UNIT;

/// A destroyed brick drops a barrel with a chance of `BARREL_CHANCE_NUM` in
/// `BARREL_CHANCE_DEN`.
pub const BARREL_CHANCE_NUM: u32 = 15;

pub const BARREL_CHANCE_DEN: u32 = 100;

pub const BALL_RADIUS: u32 = 10_000_000;

pub const BALL_INITIAL_SPEED: u32 = 350_000_000;

pub const BALL_MIN_SPEED: u32 = 200_000_000;

pub const BALL_MAX_SPEED: u32 = 800_000_000;

/// A speed change multiplies or divides the speed by
/// `BALL_SPEED_DELTA_NUM / BALL_SPEED_DELTA_DEN`.
pub const BALL_SPEED_DELTA_NUM: u64 = 115;

pub const BALL_SPEED_DELTA_DEN: u64 = 100;

/// Angle at which a new ball leaves the paddle: three eighths of a half
/// turn.
pub const BALL_INITIAL_ANGLE: i64 = 393_216;

/// A nudged direction whose horizontal or vertical part is shorter than this,
/// a twentieth of its length, is turned once more.
pub const NUDGE_MIN_PART: i64 = 50_000;

pub const BALL_SPEEDUP_IMPACTS: u32 = 50;

pub const BALL_NUDGE_IMPACTS: u32 = 75;

pub const MULTIBALL_MAX: u32 = 27;

/// A nudge turns a direction by less than this: a quarter of a half turn.
pub const MULTIBALL_ANGLE_RANGE: i64 = 262_144;

pub const BALL_IMPACT_FRAMES: usize = 4;

pub const PADDLE_TYPES: usize = 5;

pub const PADDLE_NORMAL: usize = 0;

pub const PADDLE_LARGE: usize = 1;

pub const PADDLE_GUN: usize = 2;

pub const PADDLE_SMALL: usize = 3;

pub const PADDLE_MAGNET: usize = 4;

pub const PADDLE_MAGNET_BORDER: i64 = 5 * UNIT;

pub const PADDLE_Y: i64 = -290 * UNIT;

/// Angle at which a ball leaves the right end of the paddle: a sixteenth of
/// a half turn.
pub const PADDLE_MIN_ANGLE: i64 = 65_536;

/// Angle at which a ball leaves the left end of the paddle.
pub const PADDLE_MAX_ANGLE: i64 = 983_040;

pub const PADDLE_MIN_SPEED: i64 = 400 * UNIT;

pub const PADDLE_MAX_SPEED: i64 = 800 * UNIT;

/// How far past the right wall the paddle may go while the portal is open.
pub const PORTAL_DEPTH: i64 = 20 * UNIT;

pub const MEANIES_TYPES: usize = 3;

/// Time between two frames of an enemy.
pub const MEANIES_FRAME_TIME: u64 = 125_000;

pub const MEANIES_MAX: u32 = 0;

pub const MEANIES_SPEED: i64 = 40 * UNIT;

pub const MEANIES_PORTAL_LEFT_X: i64 = -245 * UNIT;

pub const MEANIES_PORTAL_RIGHT_X: i64 = 85 * UNIT;

pub const MEANIES_PORTAL_Y: i64 = 300 * UNIT;

pub const MEANIES_MINY: i64 = -280 * UNIT;

pub const MEANIES_MAXY: i64 = 240 * UNIT;

pub const MEANIES_MINX: i64 = -340 * UNIT;

pub const MEANIES_MAXX: i64 = 180 * UNIT;

/// Enemies that appear per second while there is room for one.
pub const MEANIES_PER_SECOND: u64 = 1;

/// Cool-down of the gun.
pub const GUN_TIMER: u64 = 500_000;

pub const GUN_LEFT_X: i64 = -21 * UNIT;

pub const GUN_RIGHT_X: i64 = 19 * UNIT;

pub const GUN_Y: i64 = 25 * UNIT;

pub const BULLET_IMPACT_FRAMES: usize = 4;

pub const BULLET_SPEED: i64 = 400 * UNIT;

/// Time added to the countdown by an extra-time barrel.
pub const EXTRA_TIME: u64 = 30_000_000;

/// Countdown of a level whose portal is already unlocked.
pub const UNLOCKED_PORTAL_TIMER: u64 = 10_000_000;

/// Size of a brick: a little less than its grid cell.
pub open spec fn brick_size_spec() -> Size {
    Size { x: 38_000_000, y: 18_000_000 }
}

/// Size of a brick.
#[verifier::when_used_as_spec(brick_size_spec)]
pub fn brick_size() -> (s: Size)
    ensures
        s == brick_size_spec(),
{
    Size { x: 38_000_000, y: 18_000_000 }
}

/// Size of a barrel.
pub open spec fn barrel_size_spec() -> Size {
    Size { x: 40_000_000, y: 18_000_000 }
}

/// Size of a barrel.
#[verifier::when_used_as_spec(barrel_size_spec)]
pub fn barrel_size() -> (s: Size)
    ensures
        s == barrel_size_spec(),
{
    Size { x: 40_000_000, y: 18_000_000 }
}

/// Size of a bullet.
pub open spec fn bullet_size_spec() -> Size {
    Size { x: 7_000_000, y: 20_000_000 }
}

/// Size of a bullet.
#[verifier::when_used_as_spec(bullet_size_spec)]
pub fn bullet_size() -> (s: Size)
    ensures
        s == bullet_size_spec(),
{
    Size { x: 7_000_000, y: 20_000_000 }
}

/// Width of the paddle of each variant; every paddle is 20 pixels high.
pub open spec fn paddle_width(variant: usize) -> u32 {
    if variant == PADDLE_LARGE {
        150_000_000
    } else if variant == PADDLE_GUN {
        92_000_000
    } else if variant == PADDLE_SMALL {
        50_000_000
    } else if variant == PADDLE_MAGNET {
        94_000_000
    } else {
        90_000_000
    }
}

/// Size of the paddle of each variant.
pub open spec fn paddle_size_spec(variant: usize) -> Size {
    Size { x: paddle_width(variant), y: 20_000_000 }
}

/// Size of the paddle of the given variant.
#[verifier::when_used_as_spec(paddle_size_spec)]
pub fn paddle_size(variant: usize) -> (s: Size)
    requires
        variant < PADDLE_TYPES,
    ensures
        s == paddle_size_spec(variant),
{
    let x: u32 = if variant == PADDLE_LARGE {
        150_000_000
    } else if variant == PADDLE_GUN {
        92_000_000
    } else if variant == PADDLE_SMALL {
        50_000_000
    } else if variant == PADDLE_MAGNET {
        94_000_000
    } else {
        90_000_000
    };
    Size { x, y: 20_000_000 }
}

/// Duration of the countdown of each level.
pub open spec fn level_timer_spec(level: usize) -> u64 {
    if level == 0 {
        210_000_000
    } else {
        150_000_000
    }
}

/// Duration of the countdown of the given level.
#[verifier::when_used_as_spec(level_timer_spec)]
pub fn level_timer(level: usize) -> (t: u64)
    requires
        level < NLEVELS,
    ensures
        t == level_timer_spec(level),
{
    if level == 0 {
        210_000_000
    } else {
        150_000_000
    }
}

} // verus!
