use merino_breakout::balls_and_bullets::{Ball, Bullet};
use merino_breakout::consts::{paddle_size, level_timer, brick_size, barrel_size, bullet_size};
use merino_breakout::direction::from_angle;
use merino_breakout::fixed::{Size, Vector, UNIT};
use merino_breakout::game::{Effects, Game, Sound};
use merino_breakout::paddle::{paddle_update, Paddle, PaddleInput};
use merino_breakout::timer::{Timer, TimerMode};

fn no_effects() -> Effects {
    Effects { sounds: Vec::new(), flashes: Vec::new() }
}

fn paddle(variant: usize, x: i64) -> Paddle {
    Paddle { variant, gun_timer: Timer::new(500_000, TimerMode::Once), x: x * UNIT }
}

fn keys(left: bool, right: bool, fast: bool, fire: bool) -> PaddleInput {
    PaddleInput { left, right, fast, fire }
}

fn held_ball(x: i64) -> Ball {
    Ball {
        position: Vector { x: x * UNIT, y: -270 * UNIT },
        impacts: 0,
        impacts_since_paddle: 0,
        speed: 350_000_000,
        direction: from_angle(393_216),
        caught: true,
        in_collision: false,
    }
}

fn game(dt: u32) -> Game {
    let mut game = Game::new(String::from("PLAYER"));
    game.avg_delta = dt;
    game
}

#[test]
fn sizes() {
    assert_eq!(paddle_size(0), Size { x: 90_000_000, y: 20_000_000 });
    assert_eq!(paddle_size(1), Size { x: 150_000_000, y: 20_000_000 });
    assert_eq!(paddle_size(2), Size { x: 92_000_000, y: 20_000_000 });
    assert_eq!(paddle_size(3), Size { x: 50_000_000, y: 20_000_000 });
    assert_eq!(paddle_size(4), Size { x: 94_000_000, y: 20_000_000 });
    assert_eq!(brick_size(), Size { x: 38_000_000, y: 18_000_000 });
    assert_eq!(barrel_size(), Size { x: 40_000_000, y: 18_000_000 });
    assert_eq!(bullet_size(), Size { x: 7_000_000, y: 20_000_000 });
    assert_eq!(level_timer(0), 210_000_000);
    assert_eq!(level_timer(5), 150_000_000);
}

#[test]
fn paddle_stays_without_keys() {
    let mut g = game(10_000);
    let mut effects = no_effects();
    let mut bullets: Vec<Bullet> = Vec::new();
    let mut balls = vec![held_ball(-75)];
    let mut p = paddle(0, -80);
    let leaves = paddle_update(
        &mut effects,
        &mut bullets,
        keys(false, false, true, false),
        &mut p,
        &mut balls,
        &mut g,
    );
    assert!(!leaves);
    assert_eq!(p.x, -80 * UNIT);
    assert_eq!(p.gun_timer.elapsed, 10_000);
    assert_eq!(balls, vec![held_ball(-75)]);
    // both keys cancel
    paddle_update(
        &mut effects,
        &mut bullets,
        keys(true, true, false, false),
        &mut p,
        &mut balls,
        &mut g,
    );
    assert_eq!(p.x, -80 * UNIT);
}

#[test]
fn paddle_moves_at_its_speeds() {
    let mut g = game(10_000);
    let mut effects = no_effects();
    let mut bullets: Vec<Bullet> = Vec::new();
    let mut balls = vec![held_ball(-75)];
    let mut p = paddle(0, -80);
    paddle_update(
        &mut effects,
        &mut bullets,
        keys(false, true, false, false),
        &mut p,
        &mut balls,
        &mut g,
    );
    // 400 pixels a second for 10 ms
    assert_eq!(p.x, -76 * UNIT);
    assert_eq!(balls, vec![held_ball(-71)]);
    paddle_update(
        &mut effects,
        &mut bullets,
        keys(true, false, true, false),
        &mut p,
        &mut balls,
        &mut g,
    );
    assert_eq!(p.x, -84 * UNIT);
    assert_eq!(balls, vec![held_ball(-79)]);
}

#[test]
fn paddle_stops_at_the_walls() {
    let mut g = game(1_000_000);
    let mut effects = no_effects();
    let mut bullets: Vec<Bullet> = Vec::new();
    let mut balls: Vec<Ball> = Vec::new();
    let mut p = paddle(0, -80);
    paddle_update(
        &mut effects,
        &mut bullets,
        keys(true, false, true, false),
        &mut p,
        &mut balls,
        &mut g,
    );
    assert_eq!(p.x, -335 * UNIT);
    paddle_update(
        &mut effects,
        &mut bullets,
        keys(false, true, true, false),
        &mut p,
        &mut balls,
        &mut g,
    );
    assert_eq!(p.x, 175 * UNIT);
    assert_eq!(g.current_level, 0);
}

#[test]
fn paddle_leaves_through_the_open_portal() {
    let mut g = game(10_000);
    g.portal_open = true;
    g.current_level = 2;
    let mut effects = no_effects();
    let mut bullets: Vec<Bullet> = Vec::new();
    let mut balls = vec![held_ball(180)];
    // rightmost position with the portal open is 195
    let mut p = paddle(0, 190);
    let leaves = paddle_update(
        &mut effects,
        &mut bullets,
        keys(false, true, false, false),
        &mut p,
        &mut balls,
        &mut g,
    );
    assert!(!leaves);
    assert_eq!(p.x, 194 * UNIT);
    assert_eq!(balls, vec![held_ball(184)]);
    let leaves = paddle_update(
        &mut effects,
        &mut bullets,
        keys(false, true, false, true),
        &mut p,
        &mut balls,
        &mut g,
    );
    assert!(leaves);
    assert_eq!(g.current_level, 3);
    assert_eq!(p.x, 194 * UNIT);
    assert_eq!(p.gun_timer.elapsed, 10_000);
    assert_eq!(balls, vec![held_ball(184)]);
}

#[test]
fn fire_lets_go_of_held_balls() {
    let mut g = game(10_000);
    let mut effects = no_effects();
    let mut bullets: Vec<Bullet> = Vec::new();
    let mut balls = vec![held_ball(-75)];
    let mut p = paddle(4, -80);
    paddle_update(
        &mut effects,
        &mut bullets,
        keys(false, false, false, true),
        &mut p,
        &mut balls,
        &mut g,
    );
    assert_eq!(balls, vec![Ball { caught: false, ..held_ball(-75) }]);
    assert!(bullets.is_empty());
    assert!(effects.sounds.is_empty());
}

#[test]
fn gun_fires_when_it_has_cooled_down() {
    let mut g = game(250_000);
    let mut effects = no_effects();
    let mut bullets: Vec<Bullet> = Vec::new();
    let mut balls: Vec<Ball> = Vec::new();
    let mut p = paddle(2, -80);
    let fire = keys(false, false, false, true);
    paddle_update(&mut effects, &mut bullets, fire, &mut p, &mut balls, &mut g);
    assert!(bullets.is_empty());
    paddle_update(&mut effects, &mut bullets, fire, &mut p, &mut balls, &mut g);
    assert_eq!(
        bullets,
        vec![
            Bullet { position: Vector { x: -101 * UNIT, y: -265 * UNIT } },
            Bullet { position: Vector { x: -61 * UNIT, y: -265 * UNIT } },
        ]
    );
    assert_eq!(effects.sounds, vec![Sound::FireBullet]);
    assert_eq!(p.gun_timer.elapsed, 0);
    assert!(!p.gun_timer.finished);
    // it has to cool down again
    paddle_update(&mut effects, &mut bullets, fire, &mut p, &mut balls, &mut g);
    assert_eq!(bullets.len(), 2);
}

#[test]
fn only_the_gun_paddle_fires() {
    let mut g = game(600_000);
    let mut effects = no_effects();
    let mut bullets: Vec<Bullet> = Vec::new();
    let mut balls: Vec<Ball> = Vec::new();
    let mut p = paddle(0, -80);
    paddle_update(
        &mut effects,
        &mut bullets,
        keys(false, false, false, true),
        &mut p,
        &mut balls,
        &mut g,
    );
    assert!(bullets.is_empty());
    assert!(p.gun_timer.finished);
}
