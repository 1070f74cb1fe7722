use merino_breakout::balls_and_bullets::Ball;
use merino_breakout::barrels::{
    barrel_chance, barrel_drop, barrels_spawn, barrels_update, collect_barrels, scale_speed,
    split_ball, Barrel,
};
use merino_breakout::countdown_and_portal::Countdown;
use merino_breakout::direction::{from_angle, FRAC_PI_4, PI};
use merino_breakout::fixed::{Vector, UNIT};
use merino_breakout::game::{Effects, Game, InfoAreaMsg, Message, Sound};
use merino_breakout::paddle::Paddle;
use merino_breakout::timer::{Timer, TimerMode};

fn no_effects() -> Effects {
    Effects { sounds: Vec::new(), flashes: Vec::new() }
}

fn paddle(variant: usize) -> Paddle {
    Paddle { variant, gun_timer: Timer::new(500_000, TimerMode::Once), x: -80 * UNIT }
}

fn on_paddle(variant: usize) -> Barrel {
    Barrel::new(variant, Vector { x: -80 * UNIT, y: -285 * UNIT })
}

fn falling(variant: usize) -> Barrel {
    Barrel::new(variant, Vector { x: 100 * UNIT, y: 0 })
}

fn ball(x: i64, y: i64) -> Ball {
    Ball {
        position: Vector { x: x * UNIT, y: y * UNIT },
        impacts: 7,
        impacts_since_paddle: 9,
        speed: 350_000_000,
        direction: from_angle(FRAC_PI_4),
        caught: false,
        in_collision: false,
    }
}

fn message() -> InfoAreaMsg {
    InfoAreaMsg { text: Message::Empty, timer: Timer::new(3_000_000, TimerMode::Once) }
}

fn countdown() -> Countdown {
    Countdown { timer: Timer::new(150_000_000, TimerMode::Once) }
}

struct Stage {
    effects: Effects,
    barrels: Vec<Barrel>,
    balls: Vec<Ball>,
    paddle: Paddle,
    countdown: Countdown,
    msg: InfoAreaMsg,
    game: Game,
}

fn stage(paddle_variant: usize, barrels: Vec<Barrel>, balls: Vec<Ball>) -> Stage {
    let mut game = Game::new(String::from("PLAYER"));
    game.nballs = balls.len() as u32;
    Stage {
        effects: no_effects(),
        barrels,
        balls,
        paddle: paddle(paddle_variant),
        countdown: countdown(),
        msg: message(),
        game,
    }
}

fn run(s: &mut Stage) {
    barrels_update(
        &mut s.effects,
        &mut s.barrels,
        &mut s.balls,
        &mut s.paddle,
        &mut s.countdown,
        &mut s.msg,
        &mut s.game,
    );
}

#[test]
fn barrels_spawn_draws_only_weighted_variants() {
    let game = Game::new(String::from("PLAYER"));
    let mut barrels: Vec<Barrel> = Vec::new();
    let at = Vector { x: 5, y: 6 };
    for _ in 0..3000 {
        barrels_spawn(&mut barrels, at, &game);
    }
    assert!(barrels.len() > 250 && barrels.len() < 700, "spawned {}", barrels.len());
    let mut seen = [false; 10];
    for b in &barrels {
        assert_eq!(*b, Barrel::new(b.variant, at));
        assert!([0, 2, 5, 6].contains(&b.variant), "variant {}", b.variant);
        seen[b.variant] = true;
    }
    assert!(seen[0] && seen[2] && seen[5] && seen[6]);
}

#[test]
fn nothing_picked_up_changes_nothing() {
    let mut s = stage(4, vec![falling(1)], vec![Ball { caught: true, ..ball(0, 0) }]);
    run(&mut s);
    assert_eq!(s.barrels, vec![falling(1)]);
    assert_eq!(s.paddle, paddle(4));
    assert_eq!(s.balls, vec![Ball { caught: true, ..ball(0, 0) }]);
    assert_eq!(s.msg, message());
    assert!(s.effects.sounds.is_empty());
}

#[test]
fn barrel_below_the_field_is_gone() {
    let below = Barrel::new(1, Vector { x: 100 * UNIT, y: -320 * UNIT - 1 });
    let edge = Barrel::new(1, Vector { x: 100 * UNIT, y: -320 * UNIT });
    let mut s = stage(0, vec![below, edge], vec![]);
    run(&mut s);
    assert_eq!(s.barrels, vec![edge]);
    assert!(s.effects.sounds.is_empty());
}

#[test]
fn paddle_barrels_change_the_paddle() {
    for (variant, paddle_variant) in [(0, 1), (1, 2), (2, 3), (3, 4)] {
        let mut s = stage(0, vec![on_paddle(variant), falling(5)], vec![ball(0, 0)]);
        s.msg.timer.tick(1_000);
        run(&mut s);
        assert_eq!(s.paddle.variant, paddle_variant);
        assert_eq!(s.barrels, vec![falling(5)]);
        assert_eq!(s.effects.sounds, vec![Sound::Barrel(variant)]);
        assert_eq!(s.msg.text, Message::Barrel(variant));
        assert_eq!(s.msg.timer.elapsed, 0);
        assert_eq!(s.balls, vec![ball(0, 0)]);
    }
}

#[test]
fn last_paddle_barrel_wins() {
    let mut s = stage(0, vec![on_paddle(0), on_paddle(2)], vec![]);
    run(&mut s);
    assert_eq!(s.paddle.variant, 3);
    assert_eq!(s.effects.sounds, vec![Sound::Barrel(0), Sound::Barrel(2)]);
    assert_eq!(s.msg.text, Message::Barrel(2));
}

#[test]
fn reserved_barrels_do_nothing_but_show() {
    for variant in [7, 8] {
        let mut s = stage(4, vec![on_paddle(variant)], vec![Ball { caught: true, ..ball(0, 0) }]);
        run(&mut s);
        assert_eq!(s.paddle, paddle(4));
        assert_eq!(s.balls, vec![Ball { caught: true, ..ball(0, 0) }]);
        assert_eq!(s.countdown, countdown());
        assert_eq!(s.game.nlives, 3);
        assert_eq!(s.game.bricks_left, 0);
        assert_eq!(s.msg.text, Message::Barrel(variant));
    }
}

#[test]
fn paddle_without_magnet_lets_go() {
    let mut s = stage(4, vec![on_paddle(0)], vec![Ball { caught: true, ..ball(0, 0) }]);
    run(&mut s);
    assert_eq!(s.balls, vec![ball(0, 0)]);
    // a magnetic paddle keeps its hold
    let mut s = stage(4, vec![on_paddle(7)], vec![Ball { caught: true, ..ball(0, 0) }]);
    run(&mut s);
    assert!(s.balls[0].caught);
}

#[test]
fn fast_and_slow_scale_the_speed() {
    let mut s = stage(0, vec![on_paddle(5)], vec![ball(0, 0), ball(5, 5)]);
    run(&mut s);
    assert_eq!(s.balls[0].speed, 402_500_000);
    assert_eq!(s.balls[1].speed, 402_500_000);
    assert_eq!(s.balls[0].impacts, 0);
    assert_eq!(s.balls[0].impacts_since_paddle, 9);
    assert_eq!(s.msg.text, Message::Speed(115));
    let mut s = stage(0, vec![on_paddle(6)], vec![ball(0, 0)]);
    run(&mut s);
    assert_eq!(s.balls[0].speed, 304_347_826);
    assert_eq!(s.msg.text, Message::Speed(87));
    // one of each leaves the speed and the impacts
    let mut s = stage(0, vec![on_paddle(5), on_paddle(6)], vec![ball(0, 0)]);
    run(&mut s);
    assert_eq!(s.balls, vec![ball(0, 0)]);
    assert_eq!(s.msg.text, Message::Barrel(6));
}

#[test]
fn scale_speed_is_held_at_the_bounds() {
    assert_eq!(scale_speed(350_000_000, 0), 350_000_000);
    assert_eq!(scale_speed(350_000_000, 2), 462_875_000);
    assert_eq!(scale_speed(350_000_000, 10), 800_000_000);
    assert_eq!(scale_speed(350_000_000, -10), 200_000_000);
    assert_eq!(scale_speed(350_000_000, -1), 304_347_826);
}

#[test]
fn extra_time_extends_a_running_countdown() {
    let mut s = stage(0, vec![on_paddle(9), on_paddle(9)], vec![]);
    s.countdown.timer.tick(149_000_000);
    run(&mut s);
    assert_eq!(s.countdown.timer.duration, 210_000_000);
    assert_eq!(s.countdown.timer.remaining(), 61_000_000);
    // a countdown that ran out stays as it is
    let mut s = stage(0, vec![on_paddle(9)], vec![]);
    s.countdown.timer.tick(150_000_000);
    run(&mut s);
    assert_eq!(s.countdown.timer.duration, 150_000_000);
    assert_eq!(s.msg.text, Message::Barrel(9));
}

fn dot(a: Vector, b: Vector) -> i128 {
    a.x as i128 * b.x as i128 + a.y as i128 * b.y as i128
}

#[test]
fn multiball_splits_one_ball_into_three() {
    let mut s = stage(0, vec![on_paddle(4)], vec![ball(10, 20)]);
    run(&mut s);
    assert_eq!(s.game.nballs, 3);
    assert_eq!(s.balls.len(), 3);
    for b in &s.balls {
        assert_eq!(b.position, Vector { x: 10 * UNIT, y: 20 * UNIT });
        assert_eq!(b.speed, 350_000_000);
        assert_eq!(b.impacts, 0);
        assert_eq!(b.impacts_since_paddle, 0);
        assert!(!b.caught && !b.in_collision);
        // within a quarter of a half turn of the source
        assert!(dot(b.direction, from_angle(FRAC_PI_4)) >= 707_100_000_000);
    }
    assert_eq!(s.effects.sounds, vec![Sound::Barrel(4)]);
}

#[test]
fn multiball_leaves_held_balls() {
    let held = Ball { caught: true, ..ball(0, 0) };
    let mut s = stage(4, vec![on_paddle(4)], vec![held, ball(10, 20)]);
    run(&mut s);
    assert_eq!(s.game.nballs, 4);
    assert_eq!(s.balls.len(), 4);
    assert_eq!(s.balls[0], held);
    for b in &s.balls[1..] {
        assert_eq!(b.position, Vector { x: 10 * UNIT, y: 20 * UNIT });
    }
}

#[test]
fn two_multiballs_split_twice() {
    let mut s = stage(0, vec![on_paddle(4), on_paddle(4)], vec![ball(10, 20)]);
    run(&mut s);
    assert_eq!(s.game.nballs, 5);
    assert_eq!(s.balls.len(), 5);
}

#[test]
fn multiball_respects_the_cap() {
    let balls: Vec<Ball> = (0..25).map(|i| ball(i, 0)).collect();
    let mut s = stage(0, vec![on_paddle(4)], balls);
    run(&mut s);
    // 25 balls: one split brings them to 27, and no room is left
    assert_eq!(s.game.nballs, 27);
    assert_eq!(s.balls.len(), 27);
    for (i, b) in s.balls[..24].iter().enumerate() {
        assert_eq!(*b, ball(i as i64 + 1, 0));
    }
    let balls: Vec<Ball> = (0..26).map(|i| ball(i, 0)).collect();
    let mut s = stage(0, vec![on_paddle(4)], balls.clone());
    run(&mut s);
    assert_eq!(s.game.nballs, 26);
    assert_eq!(s.balls, balls);
}

#[test]
fn split_ball_keeps_place_and_speed() {
    let source = Ball { speed: 500_000_000, in_collision: true, ..ball(3, 4) };
    let b = split_ball(&source, PI / 16);
    assert_eq!(b.position, source.position);
    assert_eq!(b.speed, 500_000_000);
    assert_eq!(b.impacts, 0);
    assert_eq!(b.impacts_since_paddle, 0);
    assert!(!b.caught && !b.in_collision);
    let want = from_angle(FRAC_PI_4 + PI / 16);
    assert!((b.direction.x - want.x).abs() <= 200 && (b.direction.y - want.y).abs() <= 200);
}

#[test]
fn collect_barrels_adds_up() {
    let mut effects = no_effects();
    let mut barrels =
        vec![on_paddle(4), falling(2), on_paddle(5), on_paddle(5), on_paddle(6), on_paddle(1)];
    let mut c = countdown();
    let mut msg = message();
    let p = collect_barrels(&mut effects, &mut barrels, &paddle(0), &mut c, &mut msg);
    assert_eq!(p.count, 5);
    assert_eq!(p.last, 1);
    assert_eq!(p.paddle_variant, 2);
    assert_eq!(p.multiball, 1);
    assert_eq!(p.speed_steps, 1);
    assert_eq!(p.extra_time, 0);
    assert_eq!(barrels, vec![falling(2)]);
}

#[test]
fn drawn_barrel_starts_to_fall() {
    let at = Vector { x: 3 * UNIT, y: 4 * UNIT };
    let mut barrels = vec![falling(1)];
    barrel_drop(&mut barrels, 6, at);
    assert_eq!(barrels, vec![falling(1), Barrel::new(6, at)]);
    assert_eq!(barrels[1].variant, 6);
    assert_eq!(barrels[1].position, at);
    assert_eq!(barrels[1].animation.velocity, Vector { x: 0, y: -150 * UNIT });
    assert_eq!(barrels[1].animation.frames, 10);
    barrel_drop(&mut barrels, 9, at);
    assert_eq!(barrels.len(), 3);
    // a draw beyond the barrel variants drops nothing
    barrel_drop(&mut barrels, 10, at);
    assert_eq!(barrels.len(), 3);
}

#[test]
fn a_miss_drops_nothing_and_a_hit_drops_a_weighted_variant() {
    let game = Game::new(String::from("PLAYER"));
    let at = Vector { x: 3 * UNIT, y: 4 * UNIT };
    let mut barrels = vec![falling(1)];
    for _ in 0..200 {
        barrel_chance(&mut barrels, at, false, &game);
    }
    assert_eq!(barrels, vec![falling(1)]);
    for n in 0..200 {
        barrel_chance(&mut barrels, at, true, &game);
        assert_eq!(barrels.len(), n + 2);
        let b = barrels[n + 1];
        assert_eq!(b, Barrel::new(b.variant, at));
        assert!([0, 2, 5, 6].contains(&b.variant), "variant {}", b.variant);
    }
}

#[test]
fn split_stays_within_the_range_near_the_axes() {
    // a source 46.4 degrees off the vertical, turned by 43.6 degrees, ends
    // almost vertical: it is not turned any further
    let source = Ball { direction: from_angle(253_987), ..ball(0, 0) };
    let b = split_ball(&source, 253_952);
    assert!(b.direction.x.abs() < 50_000, "x {}", b.direction.x);
    assert!(dot(source.direction, b.direction) >= 707_100_000_000);
    let want = from_angle(253_987 + 253_952);
    assert!((b.direction.x - want.x).abs() <= 200 && (b.direction.y - want.y).abs() <= 200);
    // at both ends of the range
    for angle in [-FRAC_PI_4, FRAC_PI_4, 0, 1, -1] {
        for start in [0, 12_345, FRAC_PI_4, PI / 2, PI, -PI / 3, 2_000_000] {
            let source = Ball { direction: from_angle(start), ..ball(0, 0) };
            let b = split_ball(&source, angle);
            assert!(dot(source.direction, b.direction) >= 707_100_000_000);
        }
    }
}
