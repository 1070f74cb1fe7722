use merino_breakout::collisions::{
    collision, game_rc_to_idx, game_rc_to_xy, game_xy_to_rc, Body, Collision,
};
use merino_breakout::consts::{GRID_COLS, GRID_ROWS};
use merino_breakout::fixed::{Size, Vector, UNIT};

fn px(x: i64, y: i64) -> Vector {
    Vector { x: x * UNIT, y: y * UNIT }
}

fn size(x: u32, y: u32) -> Size {
    Size { x: x * 1_000_000, y: y * 1_000_000 }
}

#[test]
fn rectangles_apart_do_not_collide() {
    let body = Body::Rectangular(px(0, 0), size(10, 10));
    assert_eq!(collision(body, px(30, 0), size(10, 10)), None);
    assert_eq!(collision(body, px(0, -30), size(10, 10)), None);
}

#[test]
fn rectangles_touching_collide() {
    let body = Body::Rectangular(px(0, 0), size(10, 10));
    assert_eq!(collision(body, px(10, 0), size(10, 10)), Some(Collision::Left));
    assert_eq!(collision(body, px(-10, 0), size(10, 10)), Some(Collision::Right));
}

#[test]
fn rectangle_side_goes_by_the_smaller_penetration() {
    let body = Body::Rectangular(px(0, 0), size(10, 10));
    assert_eq!(collision(body, px(8, 2), size(10, 10)), Some(Collision::Left));
    assert_eq!(collision(body, px(-8, 2), size(10, 10)), Some(Collision::Right));
    assert_eq!(collision(body, px(2, 8), size(10, 10)), Some(Collision::Bottom));
    assert_eq!(collision(body, px(2, -8), size(10, 10)), Some(Collision::Top));
    // equal penetration on both axes is settled on the vertical axis
    assert_eq!(collision(body, px(5, 5), size(10, 10)), Some(Collision::Bottom));
    assert_eq!(collision(body, px(0, 0), size(10, 10)), Some(Collision::Top));
}

#[test]
fn circle_against_rectangle() {
    let obst = px(0, 0);
    let obst_size = size(40, 20);
    let r = 10_000_000;
    assert_eq!(collision(Body::Round(px(-29, 0), r), obst, obst_size), Some(Collision::Left));
    assert_eq!(collision(Body::Round(px(29, 0), r), obst, obst_size), Some(Collision::Right));
    assert_eq!(collision(Body::Round(px(0, 19), r), obst, obst_size), Some(Collision::Top));
    assert_eq!(collision(Body::Round(px(0, -19), r), obst, obst_size), Some(Collision::Bottom));
    assert_eq!(collision(Body::Round(px(-31, 0), r), obst, obst_size), None);
    assert_eq!(collision(Body::Round(px(0, 21), r), obst, obst_size), None);
    // exactly one radius away still touches
    assert_eq!(collision(Body::Round(px(30, 0), r), obst, obst_size), Some(Collision::Right));
}

#[test]
fn circle_near_a_corner() {
    let obst = px(0, 0);
    let obst_size = size(40, 20);
    let r = 10_000_000;
    // corner at (20, 10); the centre is 6 right of it and 8 above it: distance 10
    assert_eq!(collision(Body::Round(px(26, 18), r), obst, obst_size), Some(Collision::Top));
    assert_eq!(collision(Body::Round(px(28, 16), r), obst, obst_size), Some(Collision::Right));
    // 7 and 8: distance above 10
    assert_eq!(collision(Body::Round(px(27, 18), r), obst, obst_size), None);
}

#[test]
fn circle_with_centre_inside_is_top() {
    let r = 10_000_000;
    assert_eq!(collision(Body::Round(px(3, -2), r), px(0, 0), size(40, 20)), Some(Collision::Top));
}

#[test]
fn circle_mirror_swaps_sides() {
    let obst = px(7, -3);
    let obst_size = size(38, 18);
    let r = 10_000_000;
    let flip_x = |c: Option<Collision>| match c {
        Some(Collision::Left) => Some(Collision::Right),
        Some(Collision::Right) => Some(Collision::Left),
        other => other,
    };
    let flip_y = |c: Option<Collision>| match c {
        Some(Collision::Top) => Some(Collision::Bottom),
        Some(Collision::Bottom) => Some(Collision::Top),
        other => other,
    };
    for dx in -35..=35 {
        for dy in -25..=25 {
            let here = collision(Body::Round(px(7 + dx, -3 + dy), r), obst, obst_size);
            let across = collision(Body::Round(px(7 - dx, -3 + dy), r), obst, obst_size);
            assert_eq!(across, flip_x(here));
            let inside = dx.abs() <= 19 && dy.abs() <= 9;
            if !inside {
                let below = collision(Body::Round(px(7 + dx, -3 - dy), r), obst, obst_size);
                assert_eq!(below, flip_y(here));
            }
        }
    }
}

#[test]
fn grid_round_trip() {
    for r in 0..GRID_ROWS {
        for c in 0..GRID_COLS {
            let (x, y) = game_rc_to_xy(r, c);
            assert_eq!(game_xy_to_rc(x, y), (r, c));
        }
    }
}

#[test]
fn grid_cell_centres() {
    assert_eq!(game_rc_to_xy(0, 0), (-360 * UNIT, 270 * UNIT));
    assert_eq!(game_rc_to_xy(21, 14), (200 * UNIT, -150 * UNIT));
    assert_eq!(game_rc_to_xy(3, 4), (-200 * UNIT, 210 * UNIT));
}

#[test]
fn grid_position_to_cell_is_clamped() {
    assert_eq!(game_xy_to_rc(-1000 * UNIT, 1000 * UNIT), (0, 0));
    assert_eq!(game_xy_to_rc(1000 * UNIT, -1000 * UNIT), (21, 14));
    assert_eq!(game_xy_to_rc(i64::MIN, i64::MAX), (0, 0));
    assert_eq!(game_xy_to_rc(i64::MAX, i64::MIN), (21, 14));
    // just left of a cell border and on it
    assert_eq!(game_xy_to_rc(-340 * UNIT - 1, 260 * UNIT + 1), (0, 0));
    assert_eq!(game_xy_to_rc(-340 * UNIT, 260 * UNIT), (1, 1));
}

#[test]
fn grid_linear_index() {
    assert_eq!(game_rc_to_idx(0, 0), 0);
    assert_eq!(game_rc_to_idx(1, 0), 15);
    assert_eq!(game_rc_to_idx(21, 14), 329);
    assert_eq!(game_rc_to_idx(3, 7), 52);
}
