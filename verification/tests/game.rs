use merino_breakout::animation::{animate, AnimationType};
use merino_breakout::balls_and_bullets::Ball;
use merino_breakout::barrels::Barrel;
use merino_breakout::collisions::game_rc_to_idx;
use merino_breakout::countdown_and_portal::{Portal, PortalState};
use merino_breakout::direction::from_angle;
use merino_breakout::fixed::{Vector, UNIT};
use merino_breakout::game::{
    game_enter, game_update, level_is_valid, Brick, Effects, Flash, FlashKind, Game, Goal, Level,
    Message, Sound, TickEnd,
};
use merino_breakout::meanies::Meanie;
use merino_breakout::paddle::PaddleInput;
use merino_breakout::shop::{
    level_is_unlocked, secret_is_discovered, secret_is_unlocked, shop_process_secrets,
    weights_for, Secret,
};

const FIRST: [&str; 22] = [
    "               ",
    "               ",
    "               ",
    "    0000000    ",
    "   000000000   ",
    "   0bbb0bbb0   ",
    "   003000300   ",
    "   000000000   ",
    "   000000000   ",
    "   00     00   ",
    "   0 00000 0   ",
    "  00000000000  ",
    "  00000000000  ",
    "  00000000000  ",
    "               ",
    "  99999999999  ",
    "               ",
    "   000   000   ",
    "   000   000   ",
    "   000   000   ",
    "   000   000   ",
    "               ",
];

const MIXED: [&str; 22] = [
    "0123456789abcde",
    "               ",
    "               ",
    "               ",
    "               ",
    "               ",
    "               ",
    "               ",
    "               ",
    "               ",
    "               ",
    "               ",
    "               ",
    "               ",
    "               ",
    "d     d d     d",
    "               ",
    "               ",
    "               ",
    "               ",
    "               ",
    "              c",
];

fn rows(level: &[&str; 22]) -> Vec<Vec<u8>> {
    level.iter().map(|row| row.as_bytes().to_vec()).collect()
}

fn idle() -> PaddleInput {
    PaddleInput { left: false, right: false, fast: false, fire: false }
}

fn fire() -> PaddleInput {
    PaddleInput { left: false, right: false, fast: false, fire: true }
}

#[test]
fn new_game() {
    let game = Game::new(String::from("PLAYER"));
    assert_eq!(game.grid.len(), 330);
    assert!(game.grid.iter().all(|cell| cell.is_none()));
    assert_eq!(game.nlives, 3);
    assert_eq!(game.nballs, 0);
    assert_eq!(game.bricks_left, 0);
    assert_eq!(game.avg_delta, 16_667);
    assert_eq!(game.levels_unlocked, vec![String::new(); 8]);
    assert_eq!(game.secrets_unlocked, vec![String::new(); 8]);
    assert_eq!(game.secrets_generated, vec![String::new(); 8]);
    assert_eq!(game.username, "PLAYER");
}

#[test]
fn levels_are_checked() {
    assert!(level_is_valid(&rows(&FIRST)));
    assert!(level_is_valid(&rows(&MIXED)));
    let mut short = rows(&FIRST);
    short.pop();
    assert!(!level_is_valid(&short));
    let mut narrow = rows(&FIRST);
    narrow[3].pop();
    assert!(!level_is_valid(&narrow));
    for bad in [b'f', b'A', b'/', b':', b'`', 0u8] {
        let mut wrong = rows(&FIRST);
        wrong[21][14] = bad;
        assert!(!level_is_valid(&wrong), "character {}", bad);
    }
}

#[test]
fn entering_the_first_level() {
    let mut game = Game::new(String::from("PLAYER"));
    game.nlives = 1;
    game.nballs = 5;
    game.nmeanies = 2;
    game.portal_open = true;
    let level = game_enter(&rows(&FIRST), &mut game);
    assert_eq!(game.nlives, 3);
    assert_eq!(game.nballs, 1);
    assert_eq!(game.nmeanies, 0);
    assert!(!game.portal_open);
    assert_eq!(game.seconds_left, 210);
    assert_eq!(game.bricks_left, 131);
    assert_eq!(game.grid[game_rc_to_idx(3, 4)], Some(Brick { variant: 0 }));
    assert_eq!(game.grid[game_rc_to_idx(5, 4)], Some(Brick { variant: 11 }));
    assert_eq!(game.grid[game_rc_to_idx(15, 2)], Some(Brick { variant: 9 }));
    assert_eq!(game.grid[game_rc_to_idx(0, 0)], None);
    assert_eq!(level.paddle.variant, 0);
    assert_eq!(level.paddle.x, -80 * UNIT);
    assert_eq!(level.balls.len(), 1);
    assert!(level.balls[0].caught);
    assert_eq!(level.balls[0].position, Vector { x: -75 * UNIT, y: -270 * UNIT });
    assert_eq!(level.portal, Portal::new(false));
    assert_eq!(level.countdown.timer.duration, 210_000_000);
    assert_eq!(level.msg.text, Message::Empty);
    assert_eq!(level.lives.nlives_displayed, 0);
    assert_eq!(level.goal, Goal::DiscoverSecret);
    assert_eq!(level.effects.sounds, vec![Sound::Start]);
    assert!(level.bullets.is_empty() && level.barrels.is_empty() && level.meanies.is_empty());
}

#[test]
fn entering_counts_all_but_indestructible_bricks() {
    let mut game = Game::new(String::from("PLAYER"));
    game.current_level = 1;
    game.nlives = 2;
    game_enter(&rows(&MIXED), &mut game);
    assert_eq!(game.nlives, 2);
    for v in 0..15 {
        assert_eq!(game.grid[game_rc_to_idx(0, v)], Some(Brick { variant: v }));
    }
    assert_eq!(game.grid[game_rc_to_idx(21, 14)], Some(Brick { variant: 12 }));
    // 15 in the first row, less the indestructible one, and the last one
    assert_eq!(game.bricks_left, 15);
    assert_eq!(game.seconds_left, 150);
}

#[test]
fn entering_a_discovered_level() {
    let mut game = Game::new(String::from("PLAYER"));
    game.current_level = 3;
    game.secrets_generated[3] = String::from("CODE");
    let level = game_enter(&rows(&FIRST), &mut game);
    assert_eq!(level.goal, Goal::UnlockLevel);
    assert_eq!(level.countdown.timer.duration, 120_000_000);
    assert_eq!(game.seconds_left, 120);
    assert_eq!(level.portal.portal_state, PortalState::Closed);
    assert_eq!(level.effects.sounds, vec![Sound::Chime]);
}

#[test]
fn entering_an_unlocked_level() {
    let mut game = Game::new(String::from("PLAYER"));
    game.current_level = 2;
    game.secrets_generated[2] = String::from("CODE");
    game.levels_unlocked[2] = String::from("CODE");
    let level = game_enter(&rows(&FIRST), &mut game);
    assert_eq!(level.goal, Goal::Exit);
    assert_eq!(level.countdown.timer.duration, 10_000_000);
    assert_eq!(game.seconds_left, 10);
    assert_eq!(level.portal, Portal::new(true));
    assert!(!game.portal_open);
    assert_eq!(level.effects.sounds, vec![Sound::Portal, Sound::Start]);
}

#[test]
fn progress_is_read_from_the_records() {
    let mut game = Game::new(String::from("PLAYER"));
    assert!(!secret_is_discovered(5, &game));
    assert!(!secret_is_unlocked(5, &game));
    assert!(!level_is_unlocked(5, &game));
    game.secrets_unlocked[5] = String::from("OTHER");
    assert!(!secret_is_unlocked(5, &game));
    game.secrets_generated[5] = String::from("MINE");
    assert!(secret_is_discovered(5, &game));
    assert!(secret_is_unlocked(5, &game));
    assert!(!secret_is_unlocked(4, &game));
    game.levels_unlocked[7] = String::from("L");
    assert!(level_is_unlocked(7, &game));
    assert_eq!(Secret::Multiball.index(), 0);
    assert_eq!(Secret::Gun.index(), 3);
    assert_eq!(Secret::Meanies.index(), 5);
    assert_eq!(Secret::Credits.index(), 7);
}

#[test]
fn barrel_weights_follow_the_secrets() {
    assert_eq!(weights_for(false, false, false), vec![4, 0, 2, 0, 0, 2, 2, 0, 0, 0]);
    assert_eq!(weights_for(true, false, false), vec![4, 2, 2, 0, 0, 2, 2, 0, 0, 0]);
    assert_eq!(weights_for(false, true, true), vec![4, 0, 2, 4, 4, 2, 2, 0, 0, 0]);
    assert_eq!(weights_for(true, true, true), vec![4, 2, 2, 4, 4, 2, 2, 0, 0, 2]);
}

#[test]
fn unlocked_secrets_change_the_draw() {
    let mut game = Game::new(String::from("PLAYER"));
    for secret in [Secret::Gun, Secret::Magnet, Secret::Multiball] {
        game.secrets_generated[secret.index()] = String::from("MINE");
        game.secrets_unlocked[secret.index()] = String::from("OTHER");
    }
    shop_process_secrets(&mut game);
    let mut barrels: Vec<Barrel> = Vec::new();
    for _ in 0..6000 {
        merino_breakout::barrels::barrels_spawn(&mut barrels, Vector { x: 0, y: 0 }, &game);
    }
    let mut seen = [false; 10];
    for b in &barrels {
        seen[b.variant] = true;
    }
    assert_eq!(seen, [true, true, true, true, true, true, true, false, false, true]);
}

fn check_invariants(level: &Level, game: &Game) {
    assert_eq!(game.nballs as usize, level.balls.len());
    assert_eq!(game.nmeanies as usize, level.meanies.len());
    assert!(game.nballs <= 27);
    let counted = game
        .grid
        .iter()
        .filter(|cell| matches!(cell, Some(b) if b.variant != 13))
        .count();
    assert_eq!(game.bricks_left as usize, counted);
    for b in &level.balls {
        assert!(b.speed >= 200_000_000 && b.speed <= 800_000_000);
        let n = (b.direction.x as i128).pow(2) + (b.direction.y as i128).pow(2);
        assert!((n - 1_000_000_000_000).abs() <= 5_000_000);
    }
}

#[test]
fn a_game_keeps_its_invariants() {
    let mut game = Game::new(String::from("PLAYER"));
    let mut level = game_enter(&rows(&FIRST), &mut game);
    check_invariants(&level, &game);
    let mut bricks = game.bricks_left;
    let mut ticks = 0;
    let mut destroyed = false;
    while ticks < 20_000 {
        let input = PaddleInput {
            left: ticks % 97 < 40,
            right: ticks % 89 < 45,
            fast: ticks % 7 == 0,
            fire: ticks % 50 == 0,
        };
        let end = game_update(&mut level, input, 16_000 + (ticks % 5) as u32 * 500, &mut game);
        assert!(game.bricks_left <= bricks);
        if game.bricks_left < bricks {
            destroyed = true;
        }
        bricks = game.bricks_left;
        check_invariants(&level, &game);
        level.effects.sounds.clear();
        if end != TickEnd::Playing {
            break;
        }
        ticks += 1;
    }
    assert!(destroyed);
}

#[test]
fn first_tick_lets_go_of_the_ball_on_fire() {
    let mut game = Game::new(String::from("PLAYER"));
    let mut level = game_enter(&rows(&FIRST), &mut game);
    let end = game_update(&mut level, idle(), 16_667, &mut game);
    assert_eq!(end, TickEnd::Playing);
    assert!(level.balls[0].caught);
    assert_eq!(level.balls[0].position, Vector { x: -75 * UNIT, y: -270 * UNIT });
    assert_eq!(level.lives.nlives_displayed, 3);
    let end = game_update(&mut level, fire(), 16_667, &mut game);
    assert_eq!(end, TickEnd::Playing);
    assert!(!level.balls[0].caught);
    // the ball was let go before the balls moved: 350 pixels a second, 6 steps
    let d = from_angle(393_216);
    assert_eq!(
        level.balls[0].position,
        Vector { x: -75 * UNIT + 6 * d.x, y: -270 * UNIT + 6 * d.y }
    );
    assert_eq!(game.seconds_left, 210);
}

#[test]
fn losing_the_last_ball_costs_a_life() {
    let mut game = Game::new(String::from("PLAYER"));
    let mut level = game_enter(&rows(&FIRST), &mut game);
    level.balls[0] = Ball {
        position: Vector { x: 0, y: -329 * UNIT },
        direction: Vector { x: 0, y: -1_000_000 },
        caught: false,
        ..level.balls[0]
    };
    let end = game_update(&mut level, idle(), 16_667, &mut game);
    assert_eq!(end, TickEnd::Playing);
    assert_eq!(game.nlives, 2);
    assert_eq!(game.nballs, 1);
    assert!(level.balls[0].caught);
    assert_eq!(level.lives.nlives_displayed, 2);
    game.nlives = 1;
    level.balls[0] = Ball {
        position: Vector { x: 0, y: -329 * UNIT },
        direction: Vector { x: 0, y: -1_000_000 },
        caught: false,
        ..level.balls[0]
    };
    let end = game_update(&mut level, idle(), 16_667, &mut game);
    assert_eq!(end, TickEnd::GameOver);
    assert_eq!(game.nlives, 0);
}

#[test]
fn destroying_the_last_brick_opens_the_portal_in_the_same_tick() {
    let mut game = Game::new(String::from("PLAYER"));
    let mut level = game_enter(&rows(&MIXED), &mut game);
    for cell in game.grid.iter_mut() {
        *cell = None;
    }
    game.grid[game_rc_to_idx(10, 7)] = Some(Brick { variant: 12 });
    game.grid[game_rc_to_idx(0, 0)] = Some(Brick { variant: 13 });
    game.bricks_left = 1;
    // cell (10, 7) is centred at (-80, 70); the ball comes from below
    let under = Ball {
        position: Vector { x: -80 * UNIT, y: 51 * UNIT },
        direction: Vector { x: 0, y: 1_000_000 },
        caught: false,
        ..level.balls[0]
    };
    level.balls[0] = under;
    let end = game_update(&mut level, idle(), 2_000, &mut game);
    assert_eq!(end, TickEnd::Playing);
    // first hit: the brick is damaged and stays
    assert_eq!(game.grid[game_rc_to_idx(10, 7)], Some(Brick { variant: 11 }));
    assert_eq!(game.bricks_left, 1);
    assert_eq!(level.portal.portal_state, PortalState::Closed);
    level.balls[0] = under;
    let end = game_update(&mut level, idle(), 2_000, &mut game);
    assert_eq!(end, TickEnd::Playing);
    assert_eq!(game.grid[game_rc_to_idx(10, 7)], None);
    assert_eq!(game.bricks_left, 0);
    assert_eq!(game.nlives, 4);
    assert_eq!(level.portal.portal_state, PortalState::Opening);
    assert!(level.effects.sounds.contains(&Sound::Portal));
    // the portal is open once its animation has played
    let mut ticks = 0;
    while !game.portal_open && ticks < 100 {
        level.balls[0] = Ball { caught: true, ..under };
        game_update(&mut level, idle(), 16_667, &mut game);
        ticks += 1;
    }
    assert!(game.portal_open);
    assert_eq!(level.portal.portal_state, PortalState::Open);
}

#[test]
fn leaving_through_the_portal_ends_the_tick() {
    let mut game = Game::new(String::from("PLAYER"));
    let mut level = game_enter(&rows(&FIRST), &mut game);
    game.portal_open = true;
    level.paddle.x = 194 * UNIT;
    let right = PaddleInput { left: false, right: true, fast: true, fire: false };
    let bricks = game.bricks_left;
    let end = game_update(&mut level, right, 16_667, &mut game);
    assert_eq!(end, TickEnd::NextLevel);
    assert_eq!(game.current_level, 1);
    assert_eq!(game.bricks_left, bricks);
    assert_eq!(game.avg_delta, 16_667);
}

#[test]
fn animate_drifts_and_removes() {
    let mut game = Game::new(String::from("PLAYER"));
    game.avg_delta = 50_000;
    let flash = |frame: usize| Flash {
        position: Vector { x: 1, y: 2 },
        kind: FlashKind::Ball,
        animation: merino_breakout::animation::Animation {
            current_frame: frame,
            ..merino_breakout::animation::Animation::new(
                50_000,
                4,
                AnimationType::Despawn,
                Vector { x: 0, y: 0 },
            )
        },
    };
    let mut effects = Effects { sounds: vec![Sound::Start], flashes: vec![flash(3), flash(1)] };
    let mut barrels = vec![Barrel::new(2, Vector { x: 0, y: 0 })];
    let mut meanies = vec![Meanie::new(1, 0)];
    let mut portal = Portal::new(true);
    animate(&mut effects, &mut barrels, &mut meanies, &mut portal, &game);
    assert_eq!(effects.sounds, vec![Sound::Start]);
    assert_eq!(effects.flashes.len(), 1);
    assert_eq!(effects.flashes[0].animation.current_frame, 2);
    // 150 pixels a second for 50 ms
    assert_eq!(barrels[0].position, Vector { x: 0, y: -7_500_000 });
    assert_eq!(barrels[0].animation.current_frame, 0);
    assert_eq!(barrels[0].animation.timer.elapsed, 50_000);
    assert_eq!(meanies[0].position, Meanie::new(1, 0).position);
    assert_eq!(portal.animation.current_frame, 1);
    assert_eq!(portal.portal_state, PortalState::Opening);
}

#[test]
fn entering_a_level_without_lives_leaves_none() {
    let mut game = Game::new(String::from("PLAYER"));
    game.current_level = 2;
    game.nlives = 0;
    let level = game_enter(&rows(&MIXED), &mut game);
    assert_eq!(game.nlives, 0);
    assert_eq!(game.nballs, 1);
    assert_eq!(game.bricks_left, 15);
    assert_eq!(game.grid[game_rc_to_idx(0, 14)], Some(Brick { variant: 14 }));
    assert_eq!(level.balls.len(), 1);
    assert!(!level.is_wf(&game));
}

#[test]
fn a_tick_runs_every_stage_in_turn() {
    let mut game = Game::new(String::from("PLAYER"));
    let mut level = game_enter(&rows(&FIRST), &mut game);
    level.barrels.push(Barrel::new(9, Vector { x: -80 * UNIT, y: -285 * UNIT }));
    level.barrels.push(Barrel::new(1, Vector { x: 100 * UNIT, y: 0 }));
    let goal = level.goal;
    let first = game.avg_delta as u64;
    assert_eq!(level.effects.sounds, vec![Sound::Start]);
    level.effects.sounds.clear();
    let end = game_update(&mut level, idle(), 26_667, &mut game);
    assert_eq!(end, TickEnd::Playing);
    // the frame time is smoothed before anything moves
    let dt = (4 * first + 26_667) / 5;
    assert_eq!(game.avg_delta as u64, dt);
    // the barrel on the paddle is picked up, the other one falls on
    assert_eq!(level.barrels.len(), 1);
    assert_eq!(level.barrels[0].variant, 1);
    assert_eq!(
        level.barrels[0].position,
        Vector { x: 100 * UNIT, y: -150 * dt as i64 }
    );
    assert_eq!(level.effects.sounds, vec![Sound::Barrel(9)]);
    assert_eq!(level.msg.text, Message::Barrel(9));
    assert_eq!(level.msg.timer.elapsed, dt);
    // the countdown runs from where the pickup left it
    assert_eq!(level.countdown.timer.duration, 240_000_000);
    assert_eq!(level.countdown.timer.elapsed, dt);
    assert_eq!(game.seconds_left, 240);
    // the paddle stays; the pickup lets go of the ball, which has not moved yet
    assert_eq!(level.paddle.x, -80 * UNIT);
    assert!(!level.balls[0].caught);
    assert_eq!(level.balls[0].position, Vector { x: -75 * UNIT, y: -270 * UNIT });
    // the portal stays closed
    assert_eq!(level.portal.portal_state, PortalState::Closed);
    assert!(!game.portal_open);
    assert!(level.meanies.is_empty());
    assert_eq!(level.goal, goal);
    assert_eq!(game.nlives, 3);
    assert_eq!(level.lives.nlives_displayed, 3);
}

#[test]
fn a_countdown_that_runs_out_closes_an_unlocked_portal() {
    let mut game = Game::new(String::from("PLAYER"));
    game.levels_unlocked[0] = String::from("ABCDEFGHI");
    let mut level = game_enter(&rows(&FIRST), &mut game);
    assert_eq!(level.portal.portal_state, PortalState::Opening);
    let left = level.countdown.timer.remaining();
    level.countdown.timer.tick(left - 1);
    assert_eq!(level.effects.sounds, vec![Sound::Portal, Sound::Start]);
    level.effects.sounds.clear();
    let end = game_update(&mut level, idle(), 16_667, &mut game);
    assert_eq!(end, TickEnd::Playing);
    assert_eq!(game.seconds_left, 0);
    assert_eq!(level.portal.portal_state, PortalState::Closing);
    assert!(level.portal.animation.reverse);
    assert!(!game.portal_open);
    assert_eq!(level.effects.sounds, vec![Sound::Portal]);
}
