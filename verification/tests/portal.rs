use merino_breakout::countdown_and_portal::{
    countdown_update, portal_update, seconds_up, Countdown, Portal, PortalState,
};
use merino_breakout::game::{Effects, Game, InfoAreaMsg, Message, Sound};
use merino_breakout::timer::{Timer, TimerMode};

fn no_effects() -> Effects {
    Effects { sounds: Vec::new(), flashes: Vec::new() }
}

fn message() -> InfoAreaMsg {
    InfoAreaMsg { text: Message::Speed(115), timer: Timer::new(3_000_000, TimerMode::Once) }
}

#[test]
fn new_portal() {
    let p = Portal::new(false);
    assert_eq!(p.portal_state, PortalState::Closed);
    assert!(p.animation.frozen);
    let p = Portal::new(true);
    assert_eq!(p.portal_state, PortalState::Opening);
    assert!(!p.animation.frozen);
    assert_eq!(p.animation.frames, 4);
}

#[test]
fn closed_portal_waits_for_the_bricks() {
    let mut game = Game::new(String::from("PLAYER"));
    game.bricks_left = 1;
    let mut effects = no_effects();
    let mut portal = Portal::new(false);
    portal_update(&mut effects, &mut portal, &mut game);
    assert_eq!(portal, Portal::new(false));
    assert!(!game.portal_open);
    assert!(effects.sounds.is_empty());
}

#[test]
fn portal_opens_when_no_brick_is_left() {
    let mut game = Game::new(String::from("PLAYER"));
    let mut effects = no_effects();
    let mut portal = Portal::new(false);
    portal.animation.reverse = true;
    portal_update(&mut effects, &mut portal, &mut game);
    assert_eq!(portal.portal_state, PortalState::Opening);
    assert!(!portal.animation.frozen);
    assert!(!portal.animation.reverse);
    assert!(!game.portal_open);
    assert_eq!(effects.sounds, vec![Sound::Portal]);
    // the animation plays to its end and freezes
    for _ in 0..4 {
        portal.animation.step(50_000);
    }
    assert!(portal.animation.frozen);
    portal_update(&mut effects, &mut portal, &mut game);
    assert_eq!(portal.portal_state, PortalState::Open);
    assert!(game.portal_open);
    assert_eq!(effects.sounds, vec![Sound::Portal]);
}

#[test]
fn closing_portal_closes_when_its_animation_froze() {
    let mut game = Game::new(String::from("PLAYER"));
    game.bricks_left = 3;
    let mut effects = no_effects();
    let mut portal = Portal::new(false);
    portal.portal_state = PortalState::Closing;
    portal.animation.frozen = false;
    portal_update(&mut effects, &mut portal, &mut game);
    assert_eq!(portal.portal_state, PortalState::Closing);
    portal.animation.frozen = true;
    portal_update(&mut effects, &mut portal, &mut game);
    assert_eq!(portal.portal_state, PortalState::Closed);
}

#[test]
fn seconds_round_up() {
    assert_eq!(seconds_up(0), 0);
    assert_eq!(seconds_up(1), 1);
    assert_eq!(seconds_up(1_000_000), 1);
    assert_eq!(seconds_up(1_000_001), 2);
    assert_eq!(seconds_up(u64::MAX), 18_446_744_073_710);
}

#[test]
fn countdown_runs() {
    let mut game = Game::new(String::from("PLAYER"));
    game.avg_delta = 400_000;
    game.portal_open = true;
    let mut effects = no_effects();
    let mut countdown = Countdown { timer: Timer::new(10_000_000, TimerMode::Once) };
    let mut portal = Portal::new(true);
    portal.portal_state = PortalState::Open;
    let mut msg = message();
    countdown_update(&mut effects, &mut countdown, &mut portal, &mut msg, &mut game);
    assert_eq!(countdown.timer.elapsed, 400_000);
    assert_eq!(game.seconds_left, 10);
    assert_eq!(portal.portal_state, PortalState::Open);
    assert!(game.portal_open);
    assert_eq!(msg.text, Message::Speed(115));
    assert_eq!(msg.timer.elapsed, 400_000);
}

#[test]
fn countdown_closes_the_portal_of_an_unlocked_level() {
    let mut game = Game::new(String::from("PLAYER"));
    game.avg_delta = 400_000;
    game.portal_open = true;
    game.current_level = 2;
    game.levels_unlocked[2] = String::from("CODE");
    let mut effects = no_effects();
    let mut countdown = Countdown { timer: Timer::new(10_000_000, TimerMode::Once) };
    countdown.timer.tick(9_700_000);
    let mut portal = Portal::new(true);
    portal.portal_state = PortalState::Open;
    portal.animation.frozen = true;
    let mut msg = message();
    countdown_update(&mut effects, &mut countdown, &mut portal, &mut msg, &mut game);
    assert_eq!(game.seconds_left, 0);
    assert_eq!(portal.portal_state, PortalState::Closing);
    assert!(!portal.animation.frozen);
    assert!(portal.animation.reverse);
    assert!(!game.portal_open);
    assert_eq!(effects.sounds, vec![Sound::Portal]);
    // only on the tick at which the countdown runs out
    portal.portal_state = PortalState::Open;
    game.portal_open = true;
    countdown_update(&mut effects, &mut countdown, &mut portal, &mut msg, &mut game);
    assert_eq!(portal.portal_state, PortalState::Open);
    assert!(game.portal_open);
}

#[test]
fn countdown_leaves_the_portal_of_a_locked_level() {
    let mut game = Game::new(String::from("PLAYER"));
    game.avg_delta = 400_000;
    game.portal_open = true;
    let mut effects = no_effects();
    let mut countdown = Countdown { timer: Timer::new(10_000_000, TimerMode::Once) };
    countdown.timer.tick(9_700_000);
    let mut portal = Portal::new(true);
    portal.portal_state = PortalState::Open;
    let mut msg = message();
    countdown_update(&mut effects, &mut countdown, &mut portal, &mut msg, &mut game);
    assert_eq!(game.seconds_left, 0);
    assert_eq!(portal.portal_state, PortalState::Open);
    assert!(game.portal_open);
    assert!(effects.sounds.is_empty());
}

#[test]
fn status_line_is_cleared_when_its_time_is_up() {
    let mut game = Game::new(String::from("PLAYER"));
    game.avg_delta = 2_000_000;
    let mut effects = no_effects();
    let mut countdown = Countdown { timer: Timer::new(100_000_000, TimerMode::Once) };
    let mut portal = Portal::new(false);
    let mut msg = message();
    countdown_update(&mut effects, &mut countdown, &mut portal, &mut msg, &mut game);
    assert_eq!(msg.text, Message::Speed(115));
    countdown_update(&mut effects, &mut countdown, &mut portal, &mut msg, &mut game);
    assert_eq!(msg.text, Message::Empty);
    assert_eq!(game.seconds_left, 96);
}
