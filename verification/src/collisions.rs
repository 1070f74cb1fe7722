//! Overlap tests between a moving body and a static rectangle, the grid of
//! the bricks, and what a body does to the bricks it runs into.

use vstd::prelude::*;
use crate::animation::{Animation, AnimationType};
use crate::barrels::{barrels_spawn, spawn_outcome, Barrel};
use crate::consts::{
    brick_size, BALLAREA_MAXY, BALLAREA_MINX, BARREL_TYPES, BRICK_FRAMES, BRICK_FRAME_TIME,
    BRICK_HEIGHT, BRICK_WIDTH, GRID_COLS, GRID_ROWS,
};
use crate::fixed::{abs, clamp, Size, Vector};
use crate::game::{
    lemma_count_update, Brick, Effects, Flash, FlashKind, Game, BRICK_INVISIBLE, BRICK_ONE_HIT,
    BRICK_TWO_HITS,
};
use crate::random::{dist_weights, WeightedDist};

verus! {

/// Side of the obstacle on which the body lies when the two overlap.
#[derive(Clone, Copy, Debug, PartialEq, Eq, Structural)]
pub enum Collision {
    Left,
    Right,
    Top,
    Bottom,
}

/// Shape of a moving body: a rectangle given by centre and size, or a circle
/// given by centre and radius.
#[derive(Clone, Copy, Debug, PartialEq, Eq, Structural)]
pub enum Body {
    Rectangular(Vector, Size),
    Round(Vector, u32),
}

impl Collision {
    /// The side seen in a mirror that swaps left and right.
    pub open spec fn mirrored_x(self) -> Collision {
        match self {
            Collision::Left => Collision::Right,
            Collision::Right => Collision::Left,
            other => other,
        }
    }

    /// The side seen in a mirror that swaps top and bottom.
    pub open spec fn mirrored_y(self) -> Collision {
        match self {
            Collision::Top => Collision::Bottom,
            Collision::Bottom => Collision::Top,
            other => other,
        }
    }
}

impl Body {
    /// Centre of the body.
    pub open spec fn center(self) -> Vector {
        match self {
            Body::Rectangular(p, _) => p,
            Body::Round(p, _) => p,
        }
    }

    /// Centre of the body.
    pub fn position(&self) -> (p: Vector)
        ensures
            p == self.center(),
    {
        match self {
            Body::Rectangular(p, _) => *p,
            Body::Round(p, _) => *p,
        }
    }
}

/// Twice the gap left on one axis between two intervals of lengths `a` and
/// `b` whose centres are `d` apart; negative or zero when they touch.
pub open spec fn gap2(d: int, a: int, b: int) -> int {
    2 * abs(d) - (a + b)
}

/// Whether two rectangles share a point, edges included.
pub open spec fn rect_overlap(bp: Vector, bs: Size, op: Vector, os: Size) -> bool {
    gap2(bp.x - op.x, bs.x as int, os.x as int) <= 0 && gap2(bp.y - op.y, bs.y as int, os.y as int)
        <= 0
}

/// Side for two overlapping rectangles: the axis on which they penetrate less
/// decides, and on that axis the sign of the offset between the centres.
pub open spec fn rect_side(bp: Vector, bs: Size, op: Vector, os: Size) -> Collision {
    if gap2(bp.x - op.x, bs.x as int, os.x as int) > gap2(bp.y - op.y, bs.y as int, os.y as int) {
        if bp.x < op.x {
            Collision::Left
        } else {
            Collision::Right
        }
    } else {
        if bp.y < op.y {
            Collision::Bottom
        } else {
            Collision::Top
        }
    }
}

/// Twice the offset, on one axis, from the point of an interval (centre `o`,
/// length `s`) that lies nearest to `p`, to `p` itself.
pub open spec fn reach2(p: int, o: int, s: int) -> int {
    2 * p - clamp(2 * p, 2 * o - s, 2 * o + s)
}

/// Whether a circle and a rectangle share a point: the rectangle's point
/// nearest to the centre lies within the radius.
pub open spec fn circle_overlap(bp: Vector, r: u32, op: Vector, os: Size) -> bool {
    let dx = reach2(bp.x as int, op.x as int, os.x as int);
    let dy = reach2(bp.y as int, op.y as int, os.y as int);
    dx * dx + dy * dy <= 4 * (r as int) * (r as int)
}

/// Side for an overlapping circle: the larger component of the offset from
/// the nearest point to the centre decides the axis, its sign the side.
pub open spec fn circle_side(bp: Vector, op: Vector, os: Size) -> Collision {
    let dx = reach2(bp.x as int, op.x as int, os.x as int);
    let dy = reach2(bp.y as int, op.y as int, os.y as int);
    if abs(dx) > abs(dy) {
        if dx < 0 {
            Collision::Left
        } else {
            Collision::Right
        }
    } else {
        if dy < 0 {
            Collision::Bottom
        } else {
            Collision::Top
        }
    }
}

/// The verdict on a body and an obstacle: nothing when they share no point,
/// and otherwise the side of the obstacle on which the body lies.
pub open spec fn collision_spec(body: Body, obst_pos: Vector, obst_size: Size) -> Option<
    Collision,
> {
    match body {
        Body::Rectangular(bp, bs) => if rect_overlap(bp, bs, obst_pos, obst_size) {
            Some(rect_side(bp, bs, obst_pos, obst_size))
        } else {
            None
        },
        Body::Round(bp, r) => if circle_overlap(bp, r, obst_pos, obst_size) {
            Some(circle_side(bp, obst_pos, obst_size))
        } else {
            None
        },
    }
}

fn abs_wide(v: i128) -> (r: i128)
    requires
        v > i128::MIN,
    ensures
        r == abs(v as int),
{
    if v < 0 {
        -v
    } else {
        v
    }
}

fn gap2_exec(b: i64, o: i64, bs: u32, os: u32) -> (r: i128)
    ensures
        r == gap2(b - o, bs as int, os as int),
{
    2 * abs_wide(b as i128 - o as i128) - (bs as i128 + os as i128)
}

fn reach2_exec(p: i64, o: i64, s: u32) -> (r: i128)
    ensures
        r == reach2(p as int, o as int, s as int),
{
    let twice: i128 = 2 * (p as i128);
    let lo: i128 = 2 * (o as i128) - s as i128;
    let hi: i128 = 2 * (o as i128) + s as i128;
    if twice < lo {
        twice - lo
    } else if twice > hi {
        twice - hi
    } else {
        0
    }
}

/// Tests a moving body against a static rectangle given by centre and size.
/// Returns `None` when they share no point, and otherwise the side of the
/// obstacle on which the body lies.
pub fn collision(body: Body, obst_pos: Vector, obst_size: Size) -> (side: Option<Collision>)
    ensures
        side == collision_spec(body, obst_pos, obst_size),
{
    match body {
        Body::Rectangular(bp, bs) => {
            let gx = gap2_exec(bp.x, obst_pos.x, bs.x, obst_size.x);
            let gy = gap2_exec(bp.y, obst_pos.y, bs.y, obst_size.y);
            if gx > 0 || gy > 0 {
                return None;
            }
            if gx > gy {
                if bp.x < obst_pos.x {
                    Some(Collision::Left)
                } else {
                    Some(Collision::Right)
                }
            } else {
                if bp.y < obst_pos.y {
                    Some(Collision::Bottom)
                } else {
                    Some(Collision::Top)
                }
            }
        },
        Body::Round(bp, r) => {
            let dx = reach2_exec(bp.x, obst_pos.x, obst_size.x);
            let dy = reach2_exec(bp.y, obst_pos.y, obst_size.y);
            let ax = abs_wide(dx);
            let ay = abs_wide(dy);
            let r2: i128 = 2 * (r as i128);
            if ax > r2 || ay > r2 {
                proof {
                    if ax > r2 {
                        lemma_square_grows(r2 as int, ax as int);
                    } else {
                        lemma_square_grows(r2 as int, ay as int);
                    }
                    lemma_square_abs(dx as int);
                    lemma_square_abs(dy as int);
                    lemma_square_double(r as int);
                }
                return None;
            }
            proof {
                lemma_square_le(ax as int, r2 as int);
                lemma_square_le(ay as int, r2 as int);
                lemma_square_le(r2 as int, 0x2_0000_0000);
                lemma_square_abs(dx as int);
                lemma_square_abs(dy as int);
                lemma_square_double(r as int);
            }
            if ax * ax + ay * ay > r2 * r2 {
                return None;
            }
            if ax > ay {
                if dx < 0 {
                    Some(Collision::Left)
                } else {
                    Some(Collision::Right)
                }
            } else {
                if dy < 0 {
                    Some(Collision::Bottom)
                } else {
                    Some(Collision::Top)
                }
            }
        },
    }
}

proof fn lemma_square_grows(a: int, b: int)
    by (nonlinear_arith)
    requires
        0 <= a < b,
    ensures
        a * a < b * b,
        0 <= a * a,
{
}

proof fn lemma_square_le(a: int, b: int)
    by (nonlinear_arith)
    requires
        0 <= a <= b,
    ensures
        0 <= a * a <= b * b,
{
}

proof fn lemma_square_abs(d: int)
    by (nonlinear_arith)
    ensures
        abs(d) * abs(d) == d * d,
        d * d >= 0,
{
}

proof fn lemma_square_double(r: int)
    by (nonlinear_arith)
    ensures
        (2 * r) * (2 * r) == 4 * r * r,
{
}

/// A verdict of `collision` seen in a mirror that swaps left and right.
pub open spec fn mirrored_x(verdict: Option<Collision>) -> Option<Collision> {
    match verdict {
        Some(side) => Some(side.mirrored_x()),
        None => None,
    }
}

/// A verdict of `collision` seen in a mirror that swaps top and bottom.
pub open spec fn mirrored_y(verdict: Option<Collision>) -> Option<Collision> {
    match verdict {
        Some(side) => Some(side.mirrored_y()),
        None => None,
    }
}

/// Mirroring a circle across the vertical line through the obstacle's centre
/// keeps the verdict of `collision` and swaps `Left` with `Right`; `Top` and
/// `Bottom` stay as they are.
pub proof fn lemma_circle_mirror_x(
    body_pos: Vector,
    radius: u32,
    obst_pos: Vector,
    obst_size: Size,
    mirror_pos: Vector,
)
    requires
        mirror_pos.x == 2 * obst_pos.x - body_pos.x,
        mirror_pos.y == body_pos.y,
    ensures
        collision_spec(Body::Round(mirror_pos, radius), obst_pos, obst_size) == mirrored_x(
            collision_spec(Body::Round(body_pos, radius), obst_pos, obst_size),
        ),
{
    let dx = reach2(body_pos.x as int, obst_pos.x as int, obst_size.x as int);
    let mx = reach2(mirror_pos.x as int, obst_pos.x as int, obst_size.x as int);
    assert(mx == -dx);
    assert(mx * mx == dx * dx) by (nonlinear_arith)
        requires
            mx == -dx,
    ;
}

/// Mirroring a circle across the horizontal line through the obstacle's
/// centre keeps the verdict of `collision` and swaps `Top` with `Bottom`;
/// `Left` and `Right` stay as they are. A circle whose centre lies on the
/// obstacle is left out: it is `Top` on both sides of the mirror.
pub proof fn lemma_circle_mirror_y(
    body_pos: Vector,
    radius: u32,
    obst_pos: Vector,
    obst_size: Size,
    mirror_pos: Vector,
)
    requires
        mirror_pos.x == body_pos.x,
        mirror_pos.y == 2 * obst_pos.y - body_pos.y,
        reach2(body_pos.x as int, obst_pos.x as int, obst_size.x as int) != 0 || reach2(
            body_pos.y as int,
            obst_pos.y as int,
            obst_size.y as int,
        ) != 0,
    ensures
        collision_spec(Body::Round(mirror_pos, radius), obst_pos, obst_size) == mirrored_y(
            collision_spec(Body::Round(body_pos, radius), obst_pos, obst_size),
        ),
{
    let dy = reach2(body_pos.y as int, obst_pos.y as int, obst_size.y as int);
    let my = reach2(mirror_pos.y as int, obst_pos.y as int, obst_size.y as int);
    assert(my == -dy);
    assert(my * my == dy * dy) by (nonlinear_arith)
        requires
            my == -dy,
    ;
}

/// A circle that `collision` reports against an obstacle reaches no farther
/// from the obstacle's centre, on either axis, than half the obstacle plus
/// the radius.
pub proof fn lemma_circle_overlap_is_near(
    body_pos: Vector,
    radius: u32,
    obst_pos: Vector,
    obst_size: Size,
)
    requires
        circle_overlap(body_pos, radius, obst_pos, obst_size),
    ensures
        gap2(body_pos.x - obst_pos.x, 2 * radius, obst_size.x as int) <= 0,
        gap2(body_pos.y - obst_pos.y, 2 * radius, obst_size.y as int) <= 0,
{
    let dx = reach2(body_pos.x as int, obst_pos.x as int, obst_size.x as int);
    let dy = reach2(body_pos.y as int, obst_pos.y as int, obst_size.y as int);
    let r2 = 2 * (radius as int);
    lemma_square_abs(dx);
    lemma_square_abs(dy);
    lemma_square_double(radius as int);
    if abs(dx) > r2 {
        lemma_square_grows(r2, abs(dx));
    }
    if abs(dy) > r2 {
        lemma_square_grows(r2, abs(dy));
    }
}

/// Column of the grid cell whose centre is nearest to `x`.
pub open spec fn col_of(x: int) -> int {
    clamp((x - BALLAREA_MINX) / (BRICK_WIDTH as int), 0, GRID_COLS - 1)
}

/// Row of the grid cell whose centre is nearest to `y`; row 0 is the top row.
pub open spec fn row_of(y: int) -> int {
    clamp((BALLAREA_MAXY - y) / (BRICK_HEIGHT as int), 0, GRID_ROWS - 1)
}

/// Horizontal centre of the cells of column `c`.
pub open spec fn cell_center_x(c: int) -> int {
    BALLAREA_MINX + c * BRICK_WIDTH + BRICK_WIDTH / 2
}

/// Vertical centre of the cells of row `r`.
pub open spec fn cell_center_y(r: int) -> int {
    BALLAREA_MAXY - r * BRICK_HEIGHT - BRICK_HEIGHT / 2
}

/// Whether `(r, c)` names a cell of the grid.
pub open spec fn valid_cell(r: int, c: int) -> bool {
    0 <= r < GRID_ROWS && 0 <= c < GRID_COLS
}

/// Converts a position of the play field to the row and column of the grid
/// cell whose centre is nearest to it. Columns grow with `x`, rows grow as
/// `y` falls.
pub fn game_xy_to_rc(x: i64, y: i64) -> (rc: (usize, usize))
    ensures
        rc.0 == row_of(y as int),
        rc.1 == col_of(x as int),
        valid_cell(rc.0 as int, rc.1 as int),
{
    let dy: i128 = BALLAREA_MAXY as i128 - y as i128;
    let r: usize = if dy < 0 {
        0
    } else {
        let q: i128 = dy / (BRICK_HEIGHT as i128);
        if q > (GRID_ROWS - 1) as i128 {
            GRID_ROWS - 1
        } else {
            q as usize
        }
    };
    let dx: i128 = x as i128 - BALLAREA_MINX as i128;
    let c: usize = if dx < 0 {
        0
    } else {
        let q: i128 = dx / (BRICK_WIDTH as i128);
        if q > (GRID_COLS - 1) as i128 {
            GRID_COLS - 1
        } else {
            q as usize
        }
    };
    (r, c)
}

/// Converts the row and column of a grid cell to the position of its centre.
pub fn game_rc_to_xy(r: usize, c: usize) -> (xy: (i64, i64))
    requires
        valid_cell(r as int, c as int),
    ensures
        xy.0 == cell_center_x(c as int),
        xy.1 == cell_center_y(r as int),
{
    (
        BALLAREA_MINX + (c as i64) * BRICK_WIDTH + BRICK_WIDTH / 2,
        BALLAREA_MAXY - (r as i64) * BRICK_HEIGHT - BRICK_HEIGHT / 2,
    )
}

/// Converts the row and column of a grid cell to its place in the grid,
/// which is stored row after row.
pub fn game_rc_to_idx(r: usize, c: usize) -> (idx: usize)
    requires
        r * GRID_COLS + c <= usize::MAX,
    ensures
        idx == r * GRID_COLS + c,
        valid_cell(r as int, c as int) ==> idx < GRID_ROWS * GRID_COLS,
{
    r * GRID_COLS + c
}

/// The centre of every grid cell converts back to that cell.
pub proof fn lemma_grid_round_trip(r: int, c: int)
    requires
        valid_cell(r, c),
    ensures
        row_of(cell_center_y(r)) == r,
        col_of(cell_center_x(c)) == c,
{
}

/// No cell of the grid has its centre nearer to a position than the cell
/// that the position converts to.
pub proof fn lemma_nearest_center(x: int, y: int, r: int, c: int)
    requires
        valid_cell(r, c),
    ensures
        abs(x - cell_center_x(col_of(x))) <= abs(x - cell_center_x(c)),
        abs(y - cell_center_y(row_of(y))) <= abs(y - cell_center_y(r)),
{
}

/// Two cells of the grid never share their place in the grid.
pub proof fn lemma_idx_injective(r1: int, c1: int, r2: int, c2: int)
    requires
        valid_cell(r1, c1),
        valid_cell(r2, c2),
        r1 * GRID_COLS + c1 == r2 * GRID_COLS + c2,
    ensures
        r1 == r2,
        c1 == c2,
{
}

/// A brick that a body has struck: its cell, the variant it had when it was
/// struck, and the side on which the body met it.
#[derive(Clone, Copy, Debug, PartialEq, Eq, Structural)]
pub struct BrickHit {
    pub row: usize,
    pub col: usize,
    pub variant: usize,
    pub side: Collision,
}

/// Whether a body moving along `dir` can have run into that side: a body
/// that moves away from the side, or along it, has not.
pub open spec fn side_accepted(side: Collision, dir: Vector) -> bool {
    match side {
        Collision::Left => dir.x > 0,
        Collision::Right => dir.x < 0,
        Collision::Bottom => dir.y > 0,
        Collision::Top => dir.y < 0,
    }
}

/// Centre of the cell `(r, c)`.
pub open spec fn brick_center(r: int, c: int) -> Vector {
    Vector { x: cell_center_x(c) as i64, y: cell_center_y(r) as i64 }
}

/// Whether the cell `(r, c)` is the cell nearest to the body or one of the
/// up to eight cells around it.
#[verifier::opaque]
pub open spec fn near(body: Body, r: int, c: int) -> bool {
    let pr = row_of(body.center().y as int);
    let pc = col_of(body.center().x as int);
    valid_cell(r, c) && pr - 1 <= r <= pr + 1 && pc - 1 <= c <= pc + 1
}

/// Whether the cell in place `i` of the grid is near the body.
pub open spec fn near_place(body: Body, i: int) -> bool {
    near(body, i / (GRID_COLS as int), i % (GRID_COLS as int))
}

/// The hit of the body on a brick in the cell `(r, c)`, if the two overlap
/// and the body was moving towards the side on which they meet.
pub open spec fn struck_here(
    body: Body,
    dir: Vector,
    cell: Option<Brick>,
    r: int,
    c: int,
) -> Option<BrickHit> {
    match cell {
        Some(b) => match collision_spec(body, brick_center(r, c), brick_size()) {
            Some(side) => if side_accepted(side, dir) {
                Some(BrickHit { row: r as usize, col: c as usize, variant: b.variant, side })
            } else {
                None
            },
            None => None,
        },
        None => None,
    }
}

/// The hit of the body on the brick in place `i` of the grid, if there is
/// one: only cells near the body are looked at.
pub open spec fn struck(body: Body, dir: Vector, grid: Seq<Option<Brick>>, i: int) -> Option<
    BrickHit,
> {
    if near_place(body, i) {
        struck_here(body, dir, grid[i], i / (GRID_COLS as int), i % (GRID_COLS as int))
    } else {
        None
    }
}

/// What a hit leaves of a brick: variant 12 becomes variant 11, variant 13
/// stays, every other brick is gone.
pub open spec fn brick_after_hit(b: Brick) -> Option<Brick> {
    if b.variant < BRICK_TWO_HITS || b.variant == BRICK_INVISIBLE {
        None
    } else if b.variant == BRICK_TWO_HITS {
        Some(Brick { variant: BRICK_ONE_HIT })
    } else {
        Some(b)
    }
}

/// A cell after a hit, or after none.
pub open spec fn cell_after(cell: Option<Brick>, hit: Option<BrickHit>) -> Option<Brick> {
    match cell {
        Some(b) => if hit is Some {
            brick_after_hit(b)
        } else {
            cell
        },
        None => None,
    }
}

/// The grid after the body has struck what it strikes.
pub open spec fn grid_after(body: Body, dir: Vector, grid: Seq<Option<Brick>>) -> Seq<
    Option<Brick>,
> {
    Seq::new(grid.len(), |i: int| cell_after(grid[i], struck(body, dir, grid, i)))
}

/// The bricks struck among the first `n` places of the grid, in the order
/// of the grid.
pub open spec fn strikes_upto(body: Body, dir: Vector, grid: Seq<Option<Brick>>, n: int) -> Seq<
    BrickHit,
>
    decreases n,
{
    if n <= 0 {
        Seq::empty()
    } else {
        match struck(body, dir, grid, n - 1) {
            Some(hit) => strikes_upto(body, dir, grid, n - 1).push(hit),
            None => strikes_upto(body, dir, grid, n - 1),
        }
    }
}

/// All the bricks that the body strikes, in the order of the grid.
pub open spec fn strikes(body: Body, dir: Vector, grid: Seq<Option<Brick>>) -> Seq<BrickHit> {
    strikes_upto(body, dir, grid, grid.len() as int)
}

/// The lives after a strike: one more when the strike destroyed the last
/// brick that was left to destroy.
pub open spec fn lives_after(lives: u32, left_before: u32, left_after: u32) -> u32 {
    if left_before > 0 && left_after == 0 && lives < u32::MAX {
        (lives + 1) as u32
    } else {
        lives
    }
}

/// Places whose cells are not near the body hold no struck brick.
proof fn lemma_no_strikes(body: Body, dir: Vector, grid: Seq<Option<Brick>>, a: int, b: int)
    requires
        0 <= a <= b,
        forall|i: int| a <= i < b ==> !#[trigger] near_place(body, i),
    ensures
        strikes_upto(body, dir, grid, b) == strikes_upto(body, dir, grid, a),
    decreases b - a,
{
    if a < b {
        lemma_no_strikes(body, dir, grid, a, b - 1);
    }
}

/// The rows and columns of the cells near the body.
struct Window {
    min_row: usize,
    max_row: usize,
    min_col: usize,
    max_col: usize,
}

impl Window {
    spec fn holds(self, i: int) -> bool {
        self.min_row <= i / (GRID_COLS as int) <= self.max_row && self.min_col <= i % (
        GRID_COLS as int) <= self.max_col
    }

    spec fn frames(self, body: Body) -> bool {
        &&& self.min_row <= self.max_row < GRID_ROWS
        &&& self.min_col <= self.max_col < GRID_COLS
        &&& forall|i: int| 0 <= i ==> #[trigger] near_place(body, i) == self.holds(i)
    }
}

fn window_of(body: Body) -> (w: Window)
    ensures
        w.frames(body),
{
    let p = body.position();
    let (body_r, body_c) = game_xy_to_rc(p.x, p.y);
    let w = Window {
        min_row: if body_r > 0 {
            body_r - 1
        } else {
            0
        },
        max_row: if body_r + 1 < GRID_ROWS {
            body_r + 1
        } else {
            GRID_ROWS - 1
        },
        min_col: if body_c > 0 {
            body_c - 1
        } else {
            0
        },
        max_col: if body_c + 1 < GRID_COLS {
            body_c + 1
        } else {
            GRID_COLS - 1
        },
    };
    proof {
        reveal(near);
        assert forall|i: int| 0 <= i implies #[trigger] near_place(body, i) == w.holds(i) by {}
    }
    w
}

/// What `strike_bricks` leaves as it was.
pub open spec fn strike_keeps(before: &Game, after: &Game) -> bool {
    &&& after.nballs == before.nballs
    &&& after.nmeanies == before.nmeanies
    &&& after.current_level == before.current_level
    &&& after.portal_open == before.portal_open
    &&& after.seconds_left == before.seconds_left
    &&& after.avg_delta == before.avg_delta
    &&& after.barrel_dist == before.barrel_dist
    &&& after.levels_unlocked == before.levels_unlocked
    &&& after.secrets_unlocked == before.secrets_unlocked
    &&& after.secrets_generated == before.secrets_generated
    &&& after.username == before.username
}

/// Lets the body strike the brick of one cell, if there is one.
fn strike_cell(body: Body, body_direction: Vector, game: &mut Game, r: usize, c: usize) -> (hit:
    Option<BrickHit>)
    requires
        old(game).wf(),
        valid_cell(r as int, c as int),
    ensures
        final(game).wf(),
        hit == struck_here(
            body,
            body_direction,
            old(game).grid@[r * GRID_COLS + c],
            r as int,
            c as int,
        ),
        final(game).grid@ == old(game).grid@.update(
            r * GRID_COLS + c,
            cell_after(old(game).grid@[r * GRID_COLS + c], hit),
        ),
        final(game).bricks_left <= old(game).bricks_left,
        final(game).nlives == lives_after(
            old(game).nlives,
            old(game).bricks_left,
            final(game).bricks_left,
        ),
        old(game).bricks_left == 0 ==> final(game).bricks_left == 0,
        strike_keeps(old(game), final(game)),
{
    let grid_idx: usize = game_rc_to_idx(r, c);
    let cell = game.grid[grid_idx];
    let ghost before = game.grid@;
    proof {
        lemma_count_update(before, grid_idx as int, before[grid_idx as int]);
        assert(before.update(grid_idx as int, before[grid_idx as int]) =~= before);
    }
    if let Some(brick) = cell {
        let (x, y) = game_rc_to_xy(r, c);
        let brick_pos = Vector { x, y };
        if let Some(side) = collision(body, brick_pos, brick_size()) {
            let accepted = match side {
                Collision::Left => body_direction.x > 0,
                Collision::Right => body_direction.x < 0,
                Collision::Bottom => body_direction.y > 0,
                Collision::Top => body_direction.y < 0,
            };
            if accepted {
                if brick.variant < BRICK_TWO_HITS || brick.variant == BRICK_INVISIBLE {
                    proof {
                        lemma_count_update(before, grid_idx as int, None);
                    }
                    game.grid[grid_idx] = None;
                    game.bricks_left = game.bricks_left - 1;
                    if game.bricks_left == 0 && game.nlives < u32::MAX {
                        game.nlives = game.nlives + 1;
                    }
                } else if brick.variant == BRICK_TWO_HITS {
                    proof {
                        lemma_count_update(
                            before,
                            grid_idx as int,
                            Some(Brick { variant: BRICK_ONE_HIT }),
                        );
                    }
                    game.grid[grid_idx] = Some(Brick { variant: BRICK_ONE_HIT });
                }
                return Some(BrickHit { row: r, col: c, variant: brick.variant, side });
            }
        }
    }
    None
}

/// Whether the places before `n` hold the grid after the strike and the
/// places from `n` on hold the grid before it.
spec fn struck_upto(
    grid: Seq<Option<Brick>>,
    before: Seq<Option<Brick>>,
    after: Seq<Option<Brick>>,
    n: int,
) -> bool {
    &&& grid.len() == before.len()
    &&& forall|i: int| 0 <= i < n && i < grid.len() ==> #[trigger] grid[i] == after[i]
    &&& forall|i: int| n <= i < grid.len() ==> #[trigger] grid[i] == before[i]
}

/// Cells that are not near the body are the same before and after the
/// strike.
proof fn lemma_far_cells_stay(
    body: Body,
    dir: Vector,
    grid: Seq<Option<Brick>>,
    before: Seq<Option<Brick>>,
    a: int,
    b: int,
)
    requires
        0 <= a <= b <= before.len(),
        struck_upto(grid, before, grid_after(body, dir, before), a),
        forall|i: int| a <= i < b ==> !#[trigger] near_place(body, i),
    ensures
        struck_upto(grid, before, grid_after(body, dir, before), b),
        strikes_upto(body, dir, before, b) == strikes_upto(body, dir, before, a),
{
    lemma_no_strikes(body, dir, before, a, b);
    let after = grid_after(body, dir, before);
    assert forall|i: int| 0 <= i < b && i < grid.len() implies #[trigger] grid[i] == after[i] by {
        if i >= a {
            assert(!near_place(body, i));
        }
    }
}

/// Lets the body strike the bricks of the cells of one row that are near
/// it.
fn strike_row(
    body: Body,
    body_direction: Vector,
    game: &mut Game,
    w: &Window,
    r: usize,
    hits: &mut Vec<BrickHit>,
    Ghost(before): Ghost<Seq<Option<Brick>>>,
)
    requires
        w.frames(body),
        w.min_row <= r <= w.max_row,
        before.len() == GRID_ROWS * GRID_COLS,
        old(game).wf(),
        old(hits)@ == strikes_upto(body, body_direction, before, r * GRID_COLS),
        struck_upto(
            old(game).grid@,
            before,
            grid_after(body, body_direction, before),
            r * GRID_COLS,
        ),
    ensures
        final(game).wf(),
        final(hits)@ == strikes_upto(body, body_direction, before, (r + 1) * GRID_COLS),
        struck_upto(
            final(game).grid@,
            before,
            grid_after(body, body_direction, before),
            (r + 1) * GRID_COLS,
        ),
        final(game).bricks_left <= old(game).bricks_left,
        final(game).nlives == lives_after(
            old(game).nlives,
            old(game).bricks_left,
            final(game).bricks_left,
        ),
        old(game).bricks_left == 0 ==> final(game).bricks_left == 0,
        strike_keeps(old(game), final(game)),
{
    let ghost after = grid_after(body, body_direction, before);
    let mut c = w.min_col;
    proof {
        assert forall|i: int|
            r * GRID_COLS <= i < r * GRID_COLS + w.min_col implies !#[trigger] near_place(
            body,
            i,
        ) by {
            assert(!w.holds(i));
        }
        lemma_far_cells_stay(
            body,
            body_direction,
            game.grid@,
            before,
            r * GRID_COLS,
            r * GRID_COLS + w.min_col,
        );
    }
    while c <= w.max_col
        invariant
            w.frames(body),
            w.min_row <= r <= w.max_row,
            w.min_col <= c <= w.max_col + 1,
            before.len() == GRID_ROWS * GRID_COLS,
            after == grid_after(body, body_direction, before),
            game.wf(),
            hits@ == strikes_upto(body, body_direction, before, r * GRID_COLS + c),
            struck_upto(game.grid@, before, after, r * GRID_COLS + c),
            game.bricks_left <= old(game).bricks_left,
            game.nlives == lives_after(old(game).nlives, old(game).bricks_left, game.bricks_left),
            old(game).bricks_left == 0 ==> game.bricks_left == 0,
            strike_keeps(old(game), game),
        decreases w.max_col + 1 - c,
    {
        let ghost place = r * GRID_COLS + c;
        let ghost grid = game.grid@;
        proof {
            assert(place / (GRID_COLS as int) == r && place % (GRID_COLS as int) == c);
            assert(w.holds(place));
            assert(near_place(body, place));
            assert(grid[place] == before[place]);
        }
        let hit = strike_cell(body, body_direction, game, r, c);
        proof {
            assert(hit == struck(body, body_direction, before, place));
            assert(after[place] == cell_after(before[place], hit));
            assert(game.grid@[place] == after[place]);
            assert forall|i: int|
                0 <= i < place + 1 && i < game.grid@.len() implies #[trigger] game.grid@[i]
                == after[i] by {
                if i < place {
                    assert(game.grid@[i] == grid[i]);
                }
            }
            assert forall|i: int| place + 1 <= i < game.grid@.len() implies #[trigger] game.grid@[i]
                == before[i] by {
                assert(game.grid@[i] == grid[i]);
            }
        }
        if let Some(h) = hit {
            hits.push(h);
        }
        c = c + 1;
    }
    proof {
        assert forall|i: int|
            r * GRID_COLS + w.max_col + 1 <= i < (r + 1) * GRID_COLS implies !#[trigger] near_place(
            body,
            i,
        ) by {
            assert(!w.holds(i));
        }
        lemma_far_cells_stay(
            body,
            body_direction,
            game.grid@,
            before,
            r * GRID_COLS + w.max_col + 1,
            (r + 1) * GRID_COLS,
        );
    }
}

/// Lets the body strike the bricks near it. A struck brick of variant 12
/// becomes one of variant 11, one of variant 13 stays, any other is taken
/// off the grid and off the count of the bricks left. Destroying the last
/// brick left earns a life. Returns the struck bricks in the order of the
/// grid.
pub fn strike_bricks(body: Body, body_direction: Vector, game: &mut Game) -> (hits: Vec<BrickHit>)
    requires
        old(game).wf(),
    ensures
        final(game).wf(),
        hits@ == strikes(body, body_direction, old(game).grid@),
        final(game).grid@ == grid_after(body, body_direction, old(game).grid@),
        final(game).bricks_left <= old(game).bricks_left,
        final(game).nlives == lives_after(
            old(game).nlives,
            old(game).bricks_left,
            final(game).bricks_left,
        ),
        strike_keeps(old(game), final(game)),
{
    let mut hits: Vec<BrickHit> = Vec::new();
    let w = window_of(body);
    let ghost before = game.grid@;
    let ghost after = grid_after(body, body_direction, before);
    let mut r = w.min_row;
    proof {
        assert forall|i: int| 0 <= i < w.min_row * GRID_COLS implies !#[trigger] near_place(
            body,
            i,
        ) by {
            assert(!w.holds(i));
        }
        lemma_far_cells_stay(body, body_direction, game.grid@, before, 0, w.min_row * GRID_COLS);
    }
    while r <= w.max_row
        invariant
            w.frames(body),
            w.min_row <= r <= w.max_row + 1,
            before.len() == GRID_ROWS * GRID_COLS,
            after == grid_after(body, body_direction, before),
            game.wf(),
            hits@ == strikes_upto(body, body_direction, before, r * GRID_COLS),
            struck_upto(game.grid@, before, after, r * GRID_COLS),
            game.bricks_left <= old(game).bricks_left,
            game.nlives == lives_after(old(game).nlives, old(game).bricks_left, game.bricks_left),
            old(game).bricks_left == 0 ==> game.bricks_left == 0,
            strike_keeps(old(game), game),
        decreases w.max_row + 1 - r,
    {
        strike_row(body, body_direction, game, &w, r, &mut hits, Ghost(before));
        r = r + 1;
    }
    proof {
        assert forall|i: int|
            (w.max_row + 1) * GRID_COLS <= i < GRID_ROWS * GRID_COLS implies !#[trigger] near_place(
            body,
            i,
        ) by {
            assert(!w.holds(i));
        }
        lemma_far_cells_stay(
            body,
            body_direction,
            game.grid@,
            before,
            (w.max_row + 1) * GRID_COLS,
            GRID_ROWS * GRID_COLS,
        );
        assert(game.grid@ =~= after);
    }
    hits
}

/// Every struck brick lies in a cell of the grid.
pub proof fn lemma_strikes_in_grid(
    body: Body,
    dir: Vector,
    grid: Seq<Option<Brick>>,
    n: int,
    k: int,
)
    requires
        n <= GRID_ROWS * GRID_COLS,
        0 <= k < strikes_upto(body, dir, grid, n).len(),
    ensures
        valid_cell(
            strikes_upto(body, dir, grid, n)[k].row as int,
            strikes_upto(body, dir, grid, n)[k].col as int,
        ),
        strikes_upto(body, dir, grid, n).len() <= n,
    decreases n,
{
    if n > 0 {
        let rest = strikes_upto(body, dir, grid, n - 1);
        if k < rest.len() {
            lemma_strikes_in_grid(body, dir, grid, n - 1, k);
        } else if rest.len() > 0 {
            lemma_strikes_in_grid(body, dir, grid, n - 1, 0);
        }
    }
}

/// Whether a brick of this variant is gone after a hit.
pub open spec fn breaks(variant: usize) -> bool {
    variant < BRICK_TWO_HITS || variant == BRICK_INVISIBLE
}

/// The flash shown on a struck brick.
pub open spec fn brick_flash(hit: BrickHit) -> Flash {
    Flash {
        position: brick_center(hit.row as int, hit.col as int),
        kind: FlashKind::Brick(hit.variant),
        animation: Animation::fresh(
            BRICK_FRAME_TIME,
            BRICK_FRAMES,
            AnimationType::Despawn,
            Vector { x: 0, y: 0 },
        ),
    }
}

/// The sides of a sequence of hits.
pub open spec fn sides_of(hits: Seq<BrickHit>) -> Seq<Collision> {
    hits.map_values(|h: BrickHit| h.side)
}

/// The flashes of a sequence of hits.
pub open spec fn flashes_of(hits: Seq<BrickHit>) -> Seq<Flash> {
    hits.map_values(|h: BrickHit| brick_flash(h))
}

/// Whether the barrel is one that a broken brick among `hits` can have
/// dropped: it starts to fall at that brick's centre and has a variant that
/// the distribution can draw.
pub open spec fn dropped_by(b: Barrel, hits: Seq<BrickHit>, dist: WeightedDist) -> bool {
    exists|k: int|
        {
            &&& 0 <= k < hits.len()
            &&& breaks(#[trigger] hits[k].variant)
            &&& b.variant < BARREL_TYPES
            &&& b.variant < dist_weights(dist).len()
            &&& dist_weights(dist)[b.variant as int] > 0
            &&& b == Barrel::fresh(b.variant, brick_center(hits[k].row as int, hits[k].col as int))
        }
}

/// Whether `after` is what the broken bricks among `hits` can leave of the
/// barrels `before`: those barrels, followed by no more new barrels than
/// there are hits, each dropped by a broken brick.
pub open spec fn barrels_dropped(
    before: Seq<Barrel>,
    after: Seq<Barrel>,
    hits: Seq<BrickHit>,
    dist: WeightedDist,
) -> bool {
    &&& before.len() <= after.len() <= before.len() + hits.len()
    &&& after.subrange(0, before.len() as int) == before
    &&& forall|j: int|
        before.len() <= j < after.len() ==> dropped_by(#[trigger] after[j], hits, dist)
}

/// Whether `after` is what a hit can leave of the barrels `before`: a brick
/// that breaks may drop a barrel at its centre, any other drops nothing.
pub open spec fn drop_step(
    before: Seq<Barrel>,
    after: Seq<Barrel>,
    hit: BrickHit,
    dist: WeightedDist,
) -> bool {
    if breaks(hit.variant) {
        spawn_outcome(before, after, brick_center(hit.row as int, hit.col as int), dist)
    } else {
        after == before
    }
}

/// Whether `after` is what the first `k` hits can leave of the barrels
/// `before`, one hit after the other.
pub open spec fn drops_upto(
    before: Seq<Barrel>,
    after: Seq<Barrel>,
    hits: Seq<BrickHit>,
    dist: WeightedDist,
    k: nat,
) -> bool
    decreases k,
{
    if k == 0 {
        after == before
    } else {
        exists|mid: Seq<Barrel>|
            drops_upto(before, mid, hits, dist, (k - 1) as nat) && #[trigger] drop_step(
                mid,
                after,
                hits[k - 1],
                dist,
            )
    }
}

/// Whether `after` is what the hits can leave of the barrels `before`.
pub open spec fn drops(
    before: Seq<Barrel>,
    after: Seq<Barrel>,
    hits: Seq<BrickHit>,
    dist: WeightedDist,
) -> bool {
    drops_upto(before, after, hits, dist, hits.len())
}

/// Resolves a moving body against the bricks near it. Every brick that the
/// body overlaps while moving towards it is struck: it flashes, it is
/// damaged or destroyed as its variant says, and a destroyed brick may drop
/// a barrel. Returns the sides of the struck bricks in the order of the grid.
pub fn collision_with_bricks(
    effects: &mut Effects,
    barrels: &mut Vec<Barrel>,
    body: Body,
    body_direction: Vector,
    game: &mut Game,
) -> (collisions: Vec<Collision>)
    requires
        old(game).wf(),
    ensures
        final(game).wf(),
        collisions@ == sides_of(strikes(body, body_direction, old(game).grid@)),
        final(game).grid@ == grid_after(body, body_direction, old(game).grid@),
        final(game).bricks_left <= old(game).bricks_left,
        final(game).nlives == lives_after(
            old(game).nlives,
            old(game).bricks_left,
            final(game).bricks_left,
        ),
        strike_keeps(old(game), final(game)),
        final(effects).sounds@ == old(effects).sounds@,
        final(effects).flashes@ == old(effects).flashes@ + flashes_of(
            strikes(body, body_direction, old(game).grid@),
        ),
        drops(
            old(barrels)@,
            final(barrels)@,
            strikes(body, body_direction, old(game).grid@),
            old(game).barrel_dist,
        ),
        barrels_dropped(
            old(barrels)@,
            final(barrels)@,
            strikes(body, body_direction, old(game).grid@),
            old(game).barrel_dist,
        ),
{
    let ghost grid = game.grid@;
    let hits = strike_bricks(body, body_direction, game);
    let mut collisions: Vec<Collision> = Vec::new();
    let mut k: usize = 0;
    while k < hits.len()
        invariant
            k <= hits.len(),
            grid.len() == GRID_ROWS * GRID_COLS,
            hits@ == strikes(body, body_direction, grid),
            game.barrel_dist == old(game).barrel_dist,
            collisions@.len() == k,
            forall|j: int| 0 <= j < k ==> #[trigger] collisions@[j] == hits@[j].side,
            effects.sounds@ == old(effects).sounds@,
            effects.flashes@.len() == old(effects).flashes@.len() + k,
            forall|j: int|
                0 <= j < old(effects).flashes@.len()
                    ==> #[trigger] effects.flashes@[j] == old(effects).flashes@[j],
            forall|j: int|
                old(effects).flashes@.len() <= j < effects.flashes@.len()
                    ==> #[trigger] effects.flashes@[j] == brick_flash(
                    hits@[j - old(effects).flashes@.len()],
                ),
            drops_upto(old(barrels)@, barrels@, hits@, game.barrel_dist, k as nat),
            old(barrels)@.len() <= barrels@.len() <= old(barrels)@.len() + k,
            barrels@.subrange(0, old(barrels)@.len() as int) == old(barrels)@,
            forall|j: int|
                old(barrels)@.len() <= j < barrels@.len() ==> dropped_by(
                    #[trigger] barrels@[j],
                    hits@,
                    game.barrel_dist,
                ),
        decreases hits.len() - k,
    {
        let hit = hits[k];
        proof {
            lemma_strikes_in_grid(body, body_direction, grid, grid.len() as int, k as int);
        }
        collisions.push(hit.side);
        let (x, y) = game_rc_to_xy(hit.row, hit.col);
        let brick_pos = Vector { x, y };
        effects.flashes.push(
            Flash {
                position: brick_pos,
                kind: FlashKind::Brick(hit.variant),
                animation: Animation::new(
                    BRICK_FRAME_TIME,
                    BRICK_FRAMES,
                    AnimationType::Despawn,
                    Vector { x: 0, y: 0 },
                ),
            },
        );
        let ghost fallen = barrels@;
        if hit.variant < BRICK_TWO_HITS || hit.variant == BRICK_INVISIBLE {
            barrels_spawn(barrels, brick_pos, game);
            proof {
                if barrels@ != fallen {
                    let b = barrels@[fallen.len() as int];
                    assert(breaks(hits@[k as int].variant));
                    assert(dropped_by(b, hits@, game.barrel_dist));
                }
                assert(barrels@.subrange(0, old(barrels)@.len() as int) =~= old(barrels)@);
            }
        }
        k = k + 1;
        proof {
            assert(drops_upto(old(barrels)@, fallen, hits@, game.barrel_dist, (k - 1) as nat));
            assert(drop_step(fallen, barrels@, hits@[k - 1], game.barrel_dist));
        }
    }
    proof {
        assert(collisions@ =~= sides_of(hits@));
        assert(effects.flashes@ =~= old(effects).flashes@ + flashes_of(hits@));
    }
    collisions
}

/// Looking at the cells near a circle misses no brick while the radius is
/// less than this: the height of a row and the gap between two bricks.
pub const BROAD_PHASE_RADIUS: u32 = 21_000_000;

/// Looking only at the cells near the body misses nothing: a brick that a
/// circle of a radius below `BROAD_PHASE_RADIUS` overlaps lies in a cell
/// near the circle.
pub proof fn lemma_overlap_is_near(body_pos: Vector, radius: u32, r: int, c: int)
    requires
        valid_cell(r, c),
        radius < BROAD_PHASE_RADIUS,
        circle_overlap(body_pos, radius, brick_center(r, c), brick_size()),
    ensures
        near(Body::Round(body_pos, radius), r, c),
{
    reveal(near);
    lemma_circle_overlap_is_near(body_pos, radius, brick_center(r, c), brick_size());
    let x = body_pos.x - BALLAREA_MINX;
    let y = BALLAREA_MAXY - body_pos.y;
    let w = BRICK_WIDTH as int;
    let h = BRICK_HEIGHT as int;
    assert(c * w - w / 2 <= x <= c * w + w + w / 2);
    assert(r * h - h <= y < r * h + 2 * h);
    assert(c - 1 <= x / w <= c + 1);
    assert(r - 1 <= y / h <= r + 1);
}

} // verus!
