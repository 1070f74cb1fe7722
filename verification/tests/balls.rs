use merino_breakout::balls_and_bullets::{
    ball_step, ball_tick, ball_update, bullets_update, lives_update, nudge_ball, nudge_by,
    percent_of_initial, slow_down, spawn_new_ball, speed_up, Ball, Bullet, LivesDisplay, StepEnd,
};
use merino_breakout::barrels::Barrel;
use merino_breakout::collisions::{game_rc_to_idx, game_rc_to_xy};
use merino_breakout::direction::{from_angle, FRAC_PI_2, FRAC_PI_4, ONE, PI};
use merino_breakout::fixed::{Vector, UNIT};
use merino_breakout::game::{
    Brick, Effects, FlashKind, Game, InfoAreaMsg, Message, Sound,
};
use merino_breakout::paddle::Paddle;
use merino_breakout::timer::{Timer, TimerMode};

fn game_with(bricks: &[(usize, usize, usize)]) -> Game {
    let mut game = Game::new(String::from("PLAYER"));
    for &(r, c, variant) in bricks {
        game.grid[game_rc_to_idx(r, c)] = Some(Brick { variant });
        if variant != 13 {
            game.bricks_left += 1;
        }
    }
    game
}

fn no_effects() -> Effects {
    Effects { sounds: Vec::new(), flashes: Vec::new() }
}

fn paddle(variant: usize, x: i64) -> Paddle {
    Paddle { variant, gun_timer: Timer::new(500_000, TimerMode::Once), x: x * UNIT }
}

fn ball(x: i64, y: i64, direction: Vector) -> Ball {
    Ball {
        position: Vector { x: x * UNIT, y: y * UNIT },
        impacts: 0,
        impacts_since_paddle: 0,
        speed: 350_000_000,
        direction,
        caught: false,
        in_collision: false,
    }
}

fn message() -> InfoAreaMsg {
    InfoAreaMsg { text: Message::Empty, timer: Timer::new(3_000_000, TimerMode::Once) }
}

fn is_unit(d: Vector) -> bool {
    let n = (d.x as i128) * (d.x as i128) + (d.y as i128) * (d.y as i128);
    (n - 1_000_000_000_000).abs() <= 5_000_000
}

const LEFT: Vector = Vector { x: -1_000_000, y: 0 };
const RIGHT: Vector = Vector { x: 1_000_000, y: 0 };
const UP: Vector = Vector { x: 0, y: 1_000_000 };
const DOWN: Vector = Vector { x: 0, y: -1_000_000 };

#[test]
fn ball_in_the_open_moves_one_pixel() {
    let mut game = game_with(&[]);
    let mut effects = no_effects();
    let mut barrels: Vec<Barrel> = Vec::new();
    let mut b = ball(0, 0, Vector { x: 600_000, y: 800_000 });
    let end = ball_step(&mut b, &paddle(0, -80), &mut effects, &mut barrels, &mut game);
    assert_eq!(end, StepEnd::Moving);
    assert_eq!(b.position, Vector { x: 600_000, y: 800_000 });
    assert_eq!(b.direction, Vector { x: 600_000, y: 800_000 });
    assert_eq!(b.impacts, 0);
    assert!(effects.sounds.is_empty() && effects.flashes.is_empty());
}

#[test]
fn ball_at_left_wall_turns_right() {
    let mut game = game_with(&[]);
    let mut effects = no_effects();
    let mut barrels: Vec<Barrel> = Vec::new();
    // at rest against the left wall: the ball's edge is on the wall
    let mut b = ball(-370, 0, LEFT);
    let end = ball_step(&mut b, &paddle(0, -80), &mut effects, &mut barrels, &mut game);
    assert_eq!(end, StepEnd::Moving);
    assert_eq!(b.direction, RIGHT);
    assert_eq!(b.position, Vector { x: -371 * UNIT, y: 0 });
    assert_eq!(b.impacts, 1);
    assert_eq!(b.impacts_since_paddle, 1);
    assert_eq!(effects.flashes.len(), 1);
    assert_eq!(effects.flashes[0].kind, FlashKind::Ball);
    assert_eq!(effects.flashes[0].position, Vector { x: -381 * UNIT, y: 0 });
    assert_eq!(effects.sounds, vec![Sound::HitWall]);
}

#[test]
fn ball_at_right_and_top_wall_turns_twice() {
    let mut game = game_with(&[]);
    let mut effects = no_effects();
    let mut barrels: Vec<Barrel> = Vec::new();
    let d = from_angle(FRAC_PI_4);
    let mut b = ball(210, 270, d);
    let end = ball_step(&mut b, &paddle(0, -80), &mut effects, &mut barrels, &mut game);
    assert_eq!(end, StepEnd::Moving);
    assert_eq!(b.direction, Vector { x: -d.x, y: -d.y });
    assert_eq!(b.impacts, 2);
    assert_eq!(effects.flashes.len(), 2);
    assert_eq!(effects.sounds, vec![Sound::HitWall, Sound::HitWall]);
}

#[test]
fn ball_below_the_field_is_lost() {
    let mut game = game_with(&[]);
    let mut effects = no_effects();
    let mut barrels: Vec<Barrel> = Vec::new();
    let mut b = ball(0, -330, DOWN);
    let end = ball_step(&mut b, &paddle(0, -80), &mut effects, &mut barrels, &mut game);
    assert_eq!(end, StepEnd::Lost);
    assert!(effects.sounds.is_empty() && effects.flashes.is_empty());
    // just above: the whole ball has to be below the field
    let mut b = ball(0, -328, DOWN);
    let end = ball_step(&mut b, &paddle(0, -80), &mut effects, &mut barrels, &mut game);
    assert_eq!(end, StepEnd::Moving);
    let end = ball_step(&mut b, &paddle(0, -80), &mut effects, &mut barrels, &mut game);
    assert_eq!(end, StepEnd::Moving);
    let end = ball_step(&mut b, &paddle(0, -80), &mut effects, &mut barrels, &mut game);
    assert_eq!(end, StepEnd::Lost);
}

#[test]
fn ball_bounces_off_the_middle_of_the_paddle_straight_up() {
    let mut game = game_with(&[]);
    let mut effects = no_effects();
    let mut barrels: Vec<Barrel> = Vec::new();
    // paddle top is at -280; the ball touches it after this step
    let mut b = ball(-80, -269, DOWN);
    let end = ball_step(&mut b, &paddle(0, -80), &mut effects, &mut barrels, &mut game);
    assert_eq!(end, StepEnd::Moving);
    assert_eq!(b.direction, from_angle(FRAC_PI_2));
    assert_eq!(b.direction, UP);
    assert!(b.in_collision);
    assert_eq!(b.impacts_since_paddle, 0);
    assert_eq!(effects.sounds, vec![Sound::Paddle]);
}

#[test]
fn ball_leaves_the_ends_of_the_paddle_at_the_end_angles() {
    let mut game = game_with(&[]);
    let mut effects = no_effects();
    let mut barrels: Vec<Barrel> = Vec::new();
    // right end of a paddle of width 90 at -80 is -35
    let mut b = ball(-35, -269, DOWN);
    ball_step(&mut b, &paddle(0, -80), &mut effects, &mut barrels, &mut game);
    assert_eq!(b.direction, from_angle(PI / 16));
    let mut b = ball(-125, -269, DOWN);
    ball_step(&mut b, &paddle(0, -80), &mut effects, &mut barrels, &mut game);
    assert_eq!(b.direction, from_angle(PI - PI / 16));
    // a quarter of the way from the right end
    let mut b = ball(-35 - 90 / 4, -269, DOWN);
    ball_step(&mut b, &paddle(0, -80), &mut effects, &mut barrels, &mut game);
    let angle = PI / 16 + (14 * (PI / 16) * 22_000_000) / 90_000_000;
    assert_eq!(b.direction, from_angle(angle));
}

#[test]
fn contact_with_the_paddle_is_resolved_once() {
    let mut game = game_with(&[]);
    let mut effects = no_effects();
    let mut barrels: Vec<Barrel> = Vec::new();
    let mut b = ball(-80, -275, DOWN);
    b.in_collision = true;
    b.impacts_since_paddle = 7;
    ball_step(&mut b, &paddle(0, -80), &mut effects, &mut barrels, &mut game);
    assert_eq!(b.direction, DOWN);
    assert_eq!(b.impacts_since_paddle, 7);
    assert!(effects.sounds.is_empty());
    // apart from the paddle the ball is free again
    let mut b = ball(-80, 0, UP);
    b.in_collision = true;
    ball_step(&mut b, &paddle(0, -80), &mut effects, &mut barrels, &mut game);
    assert!(!b.in_collision);
}

#[test]
fn magnet_catches_the_ball() {
    let mut game = game_with(&[]);
    let mut effects = no_effects();
    let mut barrels: Vec<Barrel> = Vec::new();
    let mut b = ball(-80, -269, DOWN);
    let end = ball_step(&mut b, &paddle(4, -80), &mut effects, &mut barrels, &mut game);
    assert_eq!(end, StepEnd::Caught);
    assert!(b.caught);
    assert!(!b.in_collision);
    assert_eq!(b.position, Vector { x: -80 * UNIT, y: -270 * UNIT });
    assert_eq!(effects.sounds, vec![Sound::Magnet]);
}

#[test]
fn magnet_does_not_hold_at_the_border() {
    let mut game = game_with(&[]);
    let mut effects = no_effects();
    let mut barrels: Vec<Barrel> = Vec::new();
    // magnet paddle is 94 wide: right end at -33, border of 5
    let mut b = ball(-37, -269, DOWN);
    let end = ball_step(&mut b, &paddle(4, -80), &mut effects, &mut barrels, &mut game);
    assert_eq!(end, StepEnd::Moving);
    assert!(!b.caught);
    assert_eq!(effects.sounds, vec![Sound::Paddle]);
    let mut effects = no_effects();
    let mut b = ball(-38, -269, DOWN);
    let end = ball_step(&mut b, &paddle(4, -80), &mut effects, &mut barrels, &mut game);
    assert_eq!(end, StepEnd::Caught);
}

#[test]
fn ball_strikes_a_brick_from_below() {
    let mut game = game_with(&[(5, 5, 3), (0, 0, 1)]);
    let mut effects = no_effects();
    let mut barrels: Vec<Barrel> = Vec::new();
    let (x, y) = game_rc_to_xy(5, 5);
    let mut b = Ball {
        position: Vector { x, y: y - 20 * UNIT },
        ..ball(0, 0, UP)
    };
    let end = ball_step(&mut b, &paddle(0, -80), &mut effects, &mut barrels, &mut game);
    assert_eq!(end, StepEnd::Moving);
    assert_eq!(b.direction, DOWN);
    assert_eq!(b.impacts, 1);
    assert_eq!(game.bricks_left, 1);
    assert_eq!(effects.sounds, vec![Sound::HitBrick]);
    assert_eq!(effects.flashes.len(), 1);
    assert_eq!(effects.flashes[0].kind, FlashKind::Brick(3));
}

#[test]
fn speed_up_and_slow_down() {
    assert_eq!(speed_up(350_000_000), 402_500_000);
    assert_eq!(speed_up(700_000_000), 800_000_000);
    assert_eq!(speed_up(800_000_000), 800_000_000);
    assert_eq!(slow_down(350_000_000), 304_347_826);
    assert_eq!(slow_down(210_000_000), 200_000_000);
    assert_eq!(slow_down(200_000_000), 200_000_000);
    assert_eq!(percent_of_initial(350_000_000), 100);
    assert_eq!(percent_of_initial(402_500_000), 115);
    assert_eq!(percent_of_initial(800_000_000), 229);
}

#[test]
fn settle_speeds_up_after_fifty_one_impacts() {
    let mut msg = message();
    let mut b = ball(0, 0, UP);
    b.impacts = 50;
    b.settle(&mut msg);
    assert_eq!(b.impacts, 50);
    assert_eq!(b.speed, 350_000_000);
    assert_eq!(msg.text, Message::Empty);
    b.impacts = 51;
    msg.timer.tick(1_000);
    b.settle(&mut msg);
    assert_eq!(b.impacts, 0);
    assert_eq!(b.speed, 402_500_000);
    assert_eq!(msg.text, Message::Speed(115));
    assert_eq!(msg.timer.elapsed, 0);
    assert_eq!(b.direction, UP);
}

#[test]
fn settle_never_exceeds_the_greatest_speed() {
    let mut msg = message();
    let mut b = ball(0, 0, UP);
    for _ in 0..20 {
        b.impacts = 51;
        b.settle(&mut msg);
        assert!(b.speed <= 800_000_000);
    }
    assert_eq!(b.speed, 800_000_000);
}

#[test]
fn settle_nudges_after_seventy_six_impacts_without_paddle() {
    let mut msg = message();
    let start = from_angle(FRAC_PI_4);
    let mut b = ball(0, 0, start);
    b.impacts_since_paddle = 75;
    b.settle(&mut msg);
    assert_eq!(b.direction, start);
    b.impacts_since_paddle = 76;
    b.settle(&mut msg);
    assert_eq!(b.impacts_since_paddle, 0);
    assert_eq!(msg.text, Message::Nudge(100));
    assert!(is_unit(b.direction));
}

#[test]
fn nudge_by_turns_by_the_angle() {
    let start = from_angle(FRAC_PI_4);
    let d = nudge_by(start, PI / 16);
    let want = from_angle(FRAC_PI_4 + PI / 16);
    assert!((d.x - want.x).abs() <= 200 && (d.y - want.y).abs() <= 200);
    // a result that is almost vertical is turned a tenth of a radian more
    let d = nudge_by(start, FRAC_PI_4);
    assert!(d.x < -50_000, "x {}", d.x);
    assert!(is_unit(d));
}

#[test]
fn nudge_ball_stays_within_its_range() {
    let start = from_angle(FRAC_PI_4);
    let mut differs = false;
    for _ in 0..500 {
        let d = nudge_ball(start, FRAC_PI_4);
        assert!(is_unit(d));
        // within a quarter of a half turn, and a tenth of a radian, of the start
        let dot = (d.x as i128 * start.x as i128 + d.y as i128 * start.y as i128) / ONE as i128;
        assert!(dot >= 630_000, "dot {}", dot);
        assert!(d.x.abs() >= 49_000 && d.y.abs() >= 49_000);
        if d != start {
            differs = true;
        }
    }
    assert!(differs);
}

#[test]
fn ball_tick_makes_as_many_steps_as_pixels() {
    let mut game = game_with(&[]);
    let mut effects = no_effects();
    let mut barrels: Vec<Barrel> = Vec::new();
    let mut msg = message();
    let mut b = ball(0, 0, RIGHT);
    // 350 pixels a second for 10 ms: 3.5 pixels, so 4 steps
    let end = ball_tick(
        &mut b,
        &paddle(0, -80),
        &mut effects,
        &mut barrels,
        &mut msg,
        10_000,
        &mut game,
    );
    assert_eq!(end, StepEnd::Moving);
    assert_eq!(b.position, Vector { x: 4 * UNIT, y: 0 });
}

#[test]
fn held_ball_does_not_move() {
    let mut game = game_with(&[]);
    let mut effects = no_effects();
    let mut barrels: Vec<Barrel> = Vec::new();
    let mut msg = message();
    let mut b = ball(0, 0, RIGHT);
    b.caught = true;
    b.impacts = 60;
    let before = b;
    let end = ball_tick(
        &mut b,
        &paddle(0, -80),
        &mut effects,
        &mut barrels,
        &mut msg,
        10_000,
        &mut game,
    );
    assert_eq!(end, StepEnd::Caught);
    assert_eq!(b, before);
}

#[test]
fn ball_update_smooths_the_frame_time_and_drops_lost_balls() {
    let mut game = game_with(&[]);
    game.avg_delta = 10_000;
    game.nballs = 2;
    let mut effects = no_effects();
    let mut barrels: Vec<Barrel> = Vec::new();
    let mut msg = message();
    let mut balls = vec![ball(0, -329, DOWN), ball(0, 0, RIGHT)];
    ball_update(
        &mut effects,
        &mut barrels,
        &mut balls,
        &paddle(0, -80),
        &mut msg,
        20_000,
        &mut game,
    );
    // four fifths of 10 ms and a fifth of 20 ms
    assert_eq!(game.avg_delta, 12_000);
    assert_eq!(game.nballs, 1);
    assert_eq!(balls.len(), 1);
    // 350 pixels a second for 12 ms: 4.2 pixels, so 5 steps
    assert_eq!(balls[0].position, Vector { x: 5 * UNIT, y: 0 });
}

#[test]
fn spawn_new_ball_sits_on_the_paddle() {
    let mut game = game_with(&[]);
    let mut balls: Vec<Ball> = Vec::new();
    spawn_new_ball(&mut balls, 0, -80 * UNIT, &mut game);
    assert_eq!(game.nballs, 1);
    assert_eq!(balls.len(), 1);
    assert_eq!(balls[0].position, Vector { x: -75 * UNIT, y: -270 * UNIT });
    assert!(balls[0].caught);
    assert_eq!(balls[0].speed, 350_000_000);
    assert_eq!(balls[0].direction, from_angle(3 * PI / 8));
}

#[test]
fn bullet_flies_up_and_explodes_at_the_top() {
    let mut game = game_with(&[]);
    game.avg_delta = 10_000;
    let mut effects = no_effects();
    let mut barrels: Vec<Barrel> = Vec::new();
    let mut bullets = vec![
        Bullet { position: Vector { x: 0, y: 0 } },
        Bullet { position: Vector { x: 0, y: 268 * UNIT } },
    ];
    bullets_update(&mut effects, &mut barrels, &mut bullets, &mut game);
    // 400 pixels a second for 10 ms
    assert_eq!(bullets, vec![Bullet { position: Vector { x: 0, y: 4 * UNIT } }]);
    assert_eq!(effects.sounds, vec![Sound::BulletHit]);
    assert_eq!(effects.flashes.len(), 1);
    assert_eq!(effects.flashes[0].kind, FlashKind::Bullet);
    assert_eq!(effects.flashes[0].position, Vector { x: 0, y: 282 * UNIT });
}

#[test]
fn bullet_destroys_a_brick() {
    let mut game = game_with(&[(5, 5, 3), (0, 0, 1)]);
    game.avg_delta = 10_000;
    let mut effects = no_effects();
    let mut barrels: Vec<Barrel> = Vec::new();
    let (x, y) = game_rc_to_xy(5, 5);
    let mut bullets = vec![Bullet { position: Vector { x, y: y - 22 * UNIT } }];
    bullets_update(&mut effects, &mut barrels, &mut bullets, &mut game);
    assert!(bullets.is_empty());
    assert_eq!(game.bricks_left, 1);
    assert_eq!(game.grid[game_rc_to_idx(5, 5)], None);
    assert_eq!(effects.sounds, vec![Sound::BulletHit]);
    assert_eq!(effects.flashes.len(), 2);
}

#[test]
fn lives_update_with_a_ball_in_play_only_follows_the_display() {
    let mut game = game_with(&[]);
    game.nballs = 1;
    let mut effects = no_effects();
    let mut balls = vec![ball(0, 0, UP)];
    let mut p = paddle(2, 100);
    let mut display = LivesDisplay { nlives_displayed: 0 };
    let over = lives_update(&mut effects, &mut balls, &mut p, &mut display, &mut game);
    assert!(!over);
    assert_eq!(game.nlives, 3);
    assert_eq!(display.nlives_displayed, 3);
    assert_eq!(p, paddle(2, 100));
    assert_eq!(balls.len(), 1);
    assert!(effects.sounds.is_empty());
}

#[test]
fn lives_update_without_balls_takes_a_life() {
    let mut game = game_with(&[]);
    let mut effects = no_effects();
    let mut balls: Vec<Ball> = Vec::new();
    let mut p = paddle(2, 100);
    let mut display = LivesDisplay { nlives_displayed: 3 };
    let over = lives_update(&mut effects, &mut balls, &mut p, &mut display, &mut game);
    assert!(!over);
    assert_eq!(game.nlives, 2);
    assert_eq!(game.nballs, 1);
    assert_eq!(display.nlives_displayed, 2);
    assert_eq!(p.variant, 0);
    assert_eq!(p.x, -80 * UNIT);
    assert_eq!(balls.len(), 1);
    assert!(balls[0].caught);
    assert_eq!(effects.sounds, vec![Sound::Start]);
}

#[test]
fn lives_update_ends_the_game_with_the_last_life() {
    let mut game = game_with(&[]);
    game.nlives = 1;
    let mut effects = no_effects();
    let mut balls: Vec<Ball> = Vec::new();
    let mut p = paddle(2, 100);
    let mut display = LivesDisplay { nlives_displayed: 1 };
    let over = lives_update(&mut effects, &mut balls, &mut p, &mut display, &mut game);
    assert!(over);
    assert_eq!(game.nlives, 0);
    assert_eq!(display.nlives_displayed, 1);
    assert_eq!(p, paddle(2, 100));
    assert!(balls.is_empty());
}
