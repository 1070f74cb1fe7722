use merino_breakout::balls_and_bullets::{Ball, Bullet};
use merino_breakout::direction::{from_angle, FRAC_PI_2, PI};
use merino_breakout::fixed::{Size, Vector, UNIT};
use merino_breakout::game::{Effects, FlashKind, Game, Sound};
use merino_breakout::meanies::{
    find_ball, find_bullet, meanie_arrive, meanie_chance, meanie_destroy, meanie_frames,
    meanie_may_arrive, meanie_roam, meanie_size, meanies_update, Meanie,
};
use merino_breakout::paddle::Paddle;
use merino_breakout::timer::{Timer, TimerMode};

fn no_effects() -> Effects {
    Effects { sounds: Vec::new(), flashes: Vec::new() }
}

fn paddle() -> Paddle {
    Paddle { variant: 0, gun_timer: Timer::new(500_000, TimerMode::Once), x: -80 * UNIT }
}

fn meanie_at(x: i64, y: i64) -> Meanie {
    Meanie { position: Vector { x: x * UNIT, y: y * UNIT }, ..Meanie::new(0, 0) }
}

fn ball(x: i64, y: i64) -> Ball {
    Ball {
        position: Vector { x: x * UNIT, y: y * UNIT },
        impacts: 0,
        impacts_since_paddle: 0,
        speed: 350_000_000,
        direction: from_angle(PI / 4),
        caught: false,
        in_collision: false,
    }
}

#[test]
fn new_meanie_comes_out_of_a_portal() {
    let m = Meanie::new(2, 0);
    assert_eq!(m.position, Vector { x: -245 * UNIT, y: 300 * UNIT });
    assert_eq!(m.angle, -FRAC_PI_2);
    assert_eq!(m.speed, 40 * UNIT);
    assert_eq!(m.animation.frames, 10);
    let m = Meanie::new(1, 1);
    assert_eq!(m.position, Vector { x: 85 * UNIT, y: 300 * UNIT });
    assert_eq!(m.animation.frames, 8);
}

#[test]
fn sizes_and_frames() {
    assert_eq!(meanie_frames(0), 8);
    assert_eq!(meanie_frames(1), 8);
    assert_eq!(meanie_frames(2), 10);
    assert_eq!(meanie_size(0, 0), Size { x: 49_000_000, y: 40_000_000 });
    assert_eq!(meanie_size(0, 7), Size { x: 42_000_000, y: 37_000_000 });
    assert_eq!(meanie_size(1, 5), Size { x: 59_000_000, y: 41_000_000 });
    assert_eq!(meanie_size(2, 9), Size { x: 51_000_000, y: 47_000_000 });
    assert_eq!(meanie_size(2, 15), Size { x: 51_000_000, y: 47_000_000 });
}

#[test]
fn meanie_falls_from_the_portal() {
    let mut m = Meanie::new(0, 0);
    let gone = m.walk(12_345, 500_000);
    assert!(!gone);
    // 40 pixels a second for half a second
    assert_eq!(m.position, Vector { x: -245 * UNIT, y: 280 * UNIT });
    assert_eq!(m.angle, -FRAC_PI_2);
}

#[test]
fn meanie_walks_along_its_heading() {
    let mut m = meanie_at(0, 0);
    m.walk(0, 500_000);
    assert_eq!(m.position, Vector { x: 0, y: -20 * UNIT });
    assert_eq!(m.angle, -FRAC_PI_2);
    let mut m = meanie_at(0, 0);
    m.walk(FRAC_PI_2, 500_000);
    assert_eq!(m.angle, 0);
    assert_eq!(m.position, Vector { x: 20 * UNIT, y: 0 });
}

#[test]
fn meanie_heading_is_mirrored_at_the_ends_of_its_range() {
    let mut m = meanie_at(0, 0);
    m.angle = 131_072;
    m.walk(1_000, 0);
    assert_eq!(m.angle, 131_072 - 1_000);
    let mut m = meanie_at(0, 0);
    m.angle = -1_179_648;
    m.walk(-1_000, 0);
    assert_eq!(m.angle, -1_179_648 + 1_000);
}

#[test]
fn meanie_is_mirrored_at_the_sides() {
    let mut m = meanie_at(179, 0);
    m.angle = 0;
    m.walk(0, 500_000);
    // 20 pixels to the right would be 199: mirrored at 180
    assert_eq!(m.position, Vector { x: 161 * UNIT, y: 0 });
    assert_eq!(m.angle, -PI);
    let mut m = meanie_at(-339, 0);
    m.angle = -PI;
    m.walk(0, 500_000);
    assert_eq!(m.position, Vector { x: -321 * UNIT, y: 0 });
    assert_eq!(m.angle, 2 * PI);
}

#[test]
fn meanie_walks_out_at_the_bottom() {
    let mut m = meanie_at(0, -270);
    let gone = m.walk(0, 500_000);
    assert!(gone);
    let mut m = meanie_at(0, -250);
    let gone = m.walk(0, 500_000);
    assert!(!gone);
}

#[test]
fn destroyed_meanie_flashes() {
    let mut game = Game::new(String::from("PLAYER"));
    game.nmeanies = 2;
    let mut effects = no_effects();
    meanie_destroy(&mut effects, Vector { x: 3, y: 4 }, &mut game);
    assert_eq!(game.nmeanies, 1);
    assert_eq!(effects.flashes.len(), 1);
    assert_eq!(effects.flashes[0].position, Vector { x: 3, y: 4 });
    assert_eq!(effects.flashes[0].kind, FlashKind::Bullet);
    assert!(effects.sounds.is_empty());
}

#[test]
fn first_touching_bullet_and_ball_are_found() {
    let m = meanie_at(0, 0);
    let bullets = vec![
        Bullet { position: Vector { x: 100 * UNIT, y: 0 } },
        Bullet { position: Vector { x: 10 * UNIT, y: 5 * UNIT } },
        Bullet { position: Vector { x: 0, y: 0 } },
    ];
    assert_eq!(find_bullet(&m, &bullets), Some(1));
    assert_eq!(find_bullet(&m, &bullets[..1].to_vec()), None);
    let balls = vec![Ball { caught: true, ..ball(0, 0) }, ball(200, 0), ball(30, 0)];
    assert_eq!(find_ball(&m, &balls), Some(2));
    assert_eq!(find_ball(&m, &balls[..2].to_vec()), None);
}

#[test]
fn bullet_destroys_meanie() {
    let mut game = Game::new(String::from("PLAYER"));
    game.avg_delta = 0;
    game.nmeanies = 2;
    let mut effects = no_effects();
    let mut meanies = vec![meanie_at(0, 0), meanie_at(100, 100)];
    let mut bullets = vec![
        Bullet { position: Vector { x: -200 * UNIT, y: 0 } },
        Bullet { position: Vector { x: 0, y: 0 } },
    ];
    let mut balls = vec![ball(-200, -200)];
    meanies_update(&mut effects, &mut meanies, &mut bullets, &mut balls, &paddle(), &mut game);
    assert_eq!(meanies.len(), 1);
    assert_eq!(meanies[0].position, Vector { x: 100 * UNIT, y: 100 * UNIT });
    assert_eq!(game.nmeanies, 1);
    assert_eq!(bullets, vec![Bullet { position: Vector { x: -200 * UNIT, y: 0 } }]);
    assert_eq!(effects.sounds, vec![Sound::BulletHit]);
    assert_eq!(effects.flashes.len(), 1);
    assert_eq!(balls, vec![ball(-200, -200)]);
}

#[test]
fn ball_destroys_meanie_and_turns_back() {
    let mut game = Game::new(String::from("PLAYER"));
    game.avg_delta = 0;
    game.nmeanies = 1;
    let mut effects = no_effects();
    let mut meanies = vec![meanie_at(0, 0)];
    let mut bullets: Vec<Bullet> = Vec::new();
    let mut balls = vec![ball(-200, -200), ball(30, 0)];
    meanies_update(&mut effects, &mut meanies, &mut bullets, &mut balls, &paddle(), &mut game);
    assert!(meanies.is_empty());
    assert_eq!(game.nmeanies, 0);
    assert_eq!(balls[0], ball(-200, -200));
    let d = ball(30, 0).direction;
    assert_eq!(balls[1], Ball { direction: Vector { x: d.x, y: -d.y }, ..ball(30, 0) });
    assert!(effects.sounds.is_empty());
    assert_eq!(effects.flashes.len(), 1);
}

#[test]
fn paddle_destroys_meanie() {
    let mut game = Game::new(String::from("PLAYER"));
    game.avg_delta = 0;
    game.nmeanies = 1;
    let mut effects = no_effects();
    let mut meanies = vec![meanie_at(-80, -270)];
    let mut bullets = vec![Bullet { position: Vector { x: -80 * UNIT, y: -270 * UNIT } }];
    let mut balls = vec![ball(-80, -270)];
    meanies_update(&mut effects, &mut meanies, &mut bullets, &mut balls, &paddle(), &mut game);
    assert!(meanies.is_empty());
    assert_eq!(bullets.len(), 1);
    assert_eq!(balls, vec![ball(-80, -270)]);
    assert_eq!(effects.flashes.len(), 1);
}

#[test]
fn no_meanie_appears_while_there_is_no_room() {
    let mut game = Game::new(String::from("PLAYER"));
    game.avg_delta = 1_000_000;
    game.secrets_generated[5] = String::from("MINE");
    game.secrets_unlocked[5] = String::from("OTHER");
    let mut effects = no_effects();
    let mut meanies: Vec<Meanie> = Vec::new();
    let mut bullets: Vec<Bullet> = Vec::new();
    let mut balls = vec![ball(0, 0)];
    for _ in 0..100 {
        meanies_update(&mut effects, &mut meanies, &mut bullets, &mut balls, &paddle(), &mut game);
    }
    assert!(meanies.is_empty());
    assert_eq!(game.nmeanies, 0);
    assert_eq!(balls, vec![ball(0, 0)]);
}

#[test]
fn wandering_meanies_stay_in_their_range() {
    let mut game = Game::new(String::from("PLAYER"));
    game.avg_delta = 16_667;
    game.nmeanies = 1;
    let mut effects = no_effects();
    let mut meanies = vec![Meanie::new(2, 1)];
    let mut bullets: Vec<Bullet> = Vec::new();
    let mut balls: Vec<Ball> = Vec::new();
    let mut turned = false;
    for _ in 0..20_000 {
        meanies_update(&mut effects, &mut meanies, &mut bullets, &mut balls, &paddle(), &mut game);
        assert_eq!(game.nmeanies as usize, meanies.len());
        for m in &meanies {
            assert!(m.position.x >= -341 * UNIT && m.position.x <= 181 * UNIT);
            assert!(m.position.y >= -281 * UNIT);
            if m.angle != -FRAC_PI_2 {
                turned = true;
            }
        }
        if meanies.is_empty() {
            break;
        }
    }
    assert!(turned);
}

#[test]
fn roaming_meanie_is_handed_back() {
    let mut game = Game::new(String::from("PLAYER"));
    game.avg_delta = 500_000;
    game.nmeanies = 1;
    let mut effects = no_effects();
    let mut bullets = vec![Bullet { position: Vector { x: 150 * UNIT, y: 150 * UNIT } }];
    let mut balls = vec![ball(-200, -200)];
    let left = meanie_roam(
        &mut effects,
        meanie_at(0, 0),
        FRAC_PI_2,
        &mut bullets,
        &mut balls,
        &paddle(),
        &mut game,
    );
    let m = left.unwrap();
    assert_eq!(m.position, Vector { x: 20 * UNIT, y: 0 });
    assert_eq!(m.angle, 0);
    assert_eq!(game.nmeanies, 1);
    assert_eq!(bullets.len(), 1);
    assert_eq!(balls, vec![ball(-200, -200)]);
    assert!(effects.flashes.is_empty() && effects.sounds.is_empty());
    // the enemy is where it walked to when it is hit
    let mut bullets = vec![Bullet { position: Vector { x: 20 * UNIT, y: 0 } }];
    let left = meanie_roam(
        &mut effects,
        meanie_at(0, 0),
        FRAC_PI_2,
        &mut bullets,
        &mut balls,
        &paddle(),
        &mut game,
    );
    assert_eq!(left, None);
    assert!(bullets.is_empty());
    assert_eq!(game.nmeanies, 0);
    assert_eq!(effects.flashes.len(), 1);
    assert_eq!(effects.flashes[0].position, Vector { x: 20 * UNIT, y: 0 });
    assert_eq!(effects.sounds, vec![Sound::BulletHit]);
}

#[test]
fn arriving_meanie_is_counted() {
    let mut game = Game::new(String::from("PLAYER"));
    game.nmeanies = 1;
    let mut meanies = vec![meanie_at(0, 0)];
    meanie_arrive(&mut meanies, 2, 1, &mut game);
    assert_eq!(meanies, vec![meanie_at(0, 0), Meanie::new(2, 1)]);
    assert_eq!(game.nmeanies, 2);
    meanie_arrive(&mut meanies, 0, 0, &mut game);
    assert_eq!(meanies[2], Meanie::new(0, 0));
    assert_eq!(game.nmeanies, 3);
}

#[test]
fn no_meanie_arrives_without_room_or_on_a_miss() {
    let mut game = Game::new(String::from("PLAYER"));
    // the secret of the enemies is not unlocked
    assert!(!meanie_may_arrive(3, &game));
    let mut meanies: Vec<Meanie> = Vec::new();
    assert!(!meanie_chance(&mut meanies, true, 3, &mut game));
    game.secrets_generated[5] = String::from("MINE");
    game.secrets_unlocked[5] = String::from("OTHER");
    // the secret is unlocked, and there is room for no enemy
    assert!(!meanie_may_arrive(0, &game));
    for hit in [false, true] {
        assert!(!meanie_chance(&mut meanies, hit, 0, &mut game));
        assert!(meanies.is_empty());
        assert_eq!(game.nmeanies, 0);
    }
    // there is room, and the chance is missed
    assert!(meanie_may_arrive(1, &game));
    assert!(!meanie_chance(&mut meanies, false, 1, &mut game));
    assert!(meanies.is_empty());
    assert_eq!(game.nmeanies, 0);
}

#[test]
fn a_meanie_arrives_on_a_hit_while_there_is_room() {
    let mut game = Game::new(String::from("PLAYER"));
    game.secrets_generated[5] = String::from("MINE");
    game.secrets_unlocked[5] = String::from("OTHER");
    let mut meanies: Vec<Meanie> = Vec::new();
    for n in 1..=2usize {
        assert!(meanie_may_arrive(2, &game));
        assert!(meanie_chance(&mut meanies, true, 2, &mut game));
        assert_eq!(meanies.len(), n);
        assert_eq!(game.nmeanies as usize, n);
        let arrived = meanies[n - 1];
        assert!(arrived.variant < 3);
        assert!(arrived == Meanie::new(arrived.variant, 0)
            || arrived == Meanie::new(arrived.variant, 1));
    }
    // the room is used up
    assert!(!meanie_may_arrive(2, &game));
    assert!(!meanie_chance(&mut meanies, true, 2, &mut game));
    assert_eq!(meanies.len(), 2);
    assert_eq!(game.nmeanies, 2);
}
