use merino_breakout::barrels::Barrel;
use merino_breakout::collisions::{
    collision_with_bricks, game_rc_to_idx, game_rc_to_xy, strike_bricks, Body, BrickHit,
    Collision,
};
use merino_breakout::fixed::{Size, Vector, UNIT};
use merino_breakout::game::{Brick, Effects, FlashKind, Game};

fn game_with(bricks: &[(usize, usize, usize)]) -> Game {
    let mut game = Game::new(String::from("PLAYER"));
    for &(r, c, variant) in bricks {
        game.grid[game_rc_to_idx(r, c)] = Some(Brick { variant });
        if variant != 13 {
            game.bricks_left += 1;
        }
    }
    game
}

fn no_effects() -> Effects {
    Effects { sounds: Vec::new(), flashes: Vec::new() }
}

fn ball_under(r: usize, c: usize) -> Body {
    let (x, y) = game_rc_to_xy(r, c);
    // brick is 18 high: its lower edge is 9 below the centre
    Body::Round(Vector { x, y: y - 18 * UNIT }, 10_000_000)
}

const UP: Vector = Vector { x: 0, y: 1_000_000 };
const DOWN: Vector = Vector { x: 0, y: -1_000_000 };

#[test]
fn plain_brick_is_destroyed() {
    let mut game = game_with(&[(5, 5, 3), (0, 0, 1)]);
    let hits = strike_bricks(ball_under(5, 5), UP, &mut game);
    assert_eq!(hits, vec![BrickHit { row: 5, col: 5, variant: 3, side: Collision::Bottom }]);
    assert_eq!(game.grid[game_rc_to_idx(5, 5)], None);
    assert_eq!(game.bricks_left, 1);
    assert_eq!(game.nlives, 3);
}

#[test]
fn two_hit_brick_takes_two_hits() {
    let mut game = game_with(&[(5, 5, 12), (0, 0, 1)]);
    let hits = strike_bricks(ball_under(5, 5), UP, &mut game);
    assert_eq!(hits.len(), 1);
    assert_eq!(hits[0].variant, 12);
    assert_eq!(game.grid[game_rc_to_idx(5, 5)], Some(Brick { variant: 11 }));
    assert_eq!(game.bricks_left, 2);
    let hits = strike_bricks(ball_under(5, 5), UP, &mut game);
    assert_eq!(hits.len(), 1);
    assert_eq!(hits[0].variant, 11);
    assert_eq!(game.grid[game_rc_to_idx(5, 5)], None);
    assert_eq!(game.bricks_left, 1);
}

#[test]
fn indestructible_brick_stays() {
    let mut game = game_with(&[(5, 5, 13), (0, 0, 1)]);
    let hits = strike_bricks(ball_under(5, 5), UP, &mut game);
    assert_eq!(hits.len(), 1);
    assert_eq!(game.grid[game_rc_to_idx(5, 5)], Some(Brick { variant: 13 }));
    assert_eq!(game.bricks_left, 1);
}

#[test]
fn invisible_brick_is_destroyed() {
    let mut game = game_with(&[(5, 5, 14), (0, 0, 1)]);
    strike_bricks(ball_under(5, 5), UP, &mut game);
    assert_eq!(game.grid[game_rc_to_idx(5, 5)], None);
    assert_eq!(game.bricks_left, 1);
}

#[test]
fn last_brick_earns_a_life() {
    let mut game = game_with(&[(5, 5, 0), (7, 7, 13)]);
    strike_bricks(ball_under(5, 5), UP, &mut game);
    assert_eq!(game.bricks_left, 0);
    assert_eq!(game.nlives, 4);
    // nothing is left to destroy: no further life
    strike_bricks(ball_under(7, 7), UP, &mut game);
    assert_eq!(game.nlives, 4);
}

#[test]
fn body_moving_away_does_not_strike() {
    let mut game = game_with(&[(5, 5, 3)]);
    let hits = strike_bricks(ball_under(5, 5), DOWN, &mut game);
    assert!(hits.is_empty());
    assert_eq!(game.bricks_left, 1);
}

#[test]
fn far_bricks_are_not_struck() {
    let mut game = game_with(&[(5, 5, 3)]);
    let hits = strike_bricks(ball_under(15, 5), UP, &mut game);
    assert!(hits.is_empty());
    assert_eq!(game.bricks_left, 1);
}

#[test]
fn hits_come_in_grid_order() {
    // a ball below the border of two bricks strikes both
    let mut game = game_with(&[(5, 5, 1), (5, 6, 2), (0, 0, 1)]);
    let (x, y) = game_rc_to_xy(5, 5);
    let body = Body::Round(Vector { x: x + 20 * UNIT, y: y - 18 * UNIT }, 10_000_000);
    let hits = strike_bricks(body, UP, &mut game);
    assert_eq!(hits.len(), 2);
    assert_eq!((hits[0].row, hits[0].col, hits[0].variant), (5, 5, 1));
    assert_eq!((hits[1].row, hits[1].col, hits[1].variant), (5, 6, 2));
    assert_eq!(game.bricks_left, 1);
}

#[test]
fn bullet_strikes_brick_above() {
    let mut game = game_with(&[(5, 5, 3), (0, 0, 1)]);
    let (x, y) = game_rc_to_xy(5, 5);
    let body = Body::Rectangular(
        Vector { x, y: y - 18 * UNIT },
        Size { x: 7_000_000, y: 20_000_000 },
    );
    let hits = strike_bricks(body, UP, &mut game);
    assert_eq!(hits.len(), 1);
    assert_eq!(hits[0].side, Collision::Bottom);
}

#[test]
fn collision_with_bricks_flashes_and_may_drop_barrels() {
    let mut dropped = 0;
    let mut rounds = 0;
    while rounds < 400 {
        let mut game = game_with(&[(5, 5, 3), (0, 0, 1)]);
        let mut effects = no_effects();
        let mut barrels: Vec<Barrel> = Vec::new();
        let sides =
            collision_with_bricks(&mut effects, &mut barrels, ball_under(5, 5), UP, &mut game);
        assert_eq!(sides, vec![Collision::Bottom]);
        assert_eq!(effects.flashes.len(), 1);
        assert_eq!(effects.flashes[0].kind, FlashKind::Brick(3));
        let (x, y) = game_rc_to_xy(5, 5);
        assert_eq!(effects.flashes[0].position, Vector { x, y });
        assert!(effects.sounds.is_empty());
        assert!(barrels.len() <= 1);
        for b in &barrels {
            assert_eq!(b.position, Vector { x, y });
            assert!([0, 2, 5, 6].contains(&b.variant), "variant {}", b.variant);
            assert_eq!(b.animation.velocity, Vector { x: 0, y: -150 * UNIT });
        }
        dropped += barrels.len();
        rounds += 1;
    }
    // 15 in 100: far from never and far from always
    assert!(dropped > 20 && dropped < 140, "dropped {}", dropped);
}

#[test]
fn indestructible_brick_drops_nothing() {
    for _ in 0..200 {
        let mut game = game_with(&[(5, 5, 13)]);
        let mut effects = no_effects();
        let mut barrels: Vec<Barrel> = Vec::new();
        collision_with_bricks(&mut effects, &mut barrels, ball_under(5, 5), UP, &mut game);
        assert_eq!(effects.flashes.len(), 1);
        assert!(barrels.is_empty());
    }
}
