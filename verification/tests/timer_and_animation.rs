use merino_breakout::animation::{Animation, AnimationType};
use merino_breakout::fixed::{floor_div, sat_add, saturate, travel, Vector};
use merino_breakout::timer::{Timer, TimerMode};

#[test]
fn saturating_helpers() {
    assert_eq!(sat_add(1, 2), 3);
    assert_eq!(sat_add(i64::MAX, 1), i64::MAX);
    assert_eq!(sat_add(i64::MIN, -1), i64::MIN);
    assert_eq!(saturate(1i128 << 70), i64::MAX);
    assert_eq!(saturate(-(1i128 << 70)), i64::MIN);
    assert_eq!(saturate(-5), -5);
}

#[test]
fn floor_div_rounds_down() {
    assert_eq!(floor_div(7, 2), 3);
    assert_eq!(floor_div(-7, 2), -4);
    assert_eq!(floor_div(-8, 2), -4);
    assert_eq!(floor_div(0, 5), 0);
    assert_eq!(floor_div(-1, 1_000_000), -1);
}

#[test]
fn travel_is_rate_times_time() {
    // 150 pixels a second for a sixtieth of a second
    assert_eq!(travel(150_000_000, 16_667), 2_500_050);
    assert_eq!(travel(-150_000_000, 16_667), -2_500_050);
    assert_eq!(travel(-1, 1), -1);
    assert_eq!(travel(1, 1), 0);
    assert_eq!(travel(i64::MAX, u32::MAX), i64::MAX);
}

#[test]
fn vector_offset_and_drift() {
    let p = Vector { x: 10, y: -10 };
    assert_eq!(p.offset(Vector { x: 5, y: 5 }), Vector { x: 15, y: -5 });
    assert_eq!(
        p.drift(Vector { x: 1_000_000, y: -2_000_000 }, 500_000),
        Vector { x: 500_010, y: -1_000_010 }
    );
}

#[test]
fn timer_once_finishes_once() {
    let mut t = Timer::new(1_000, TimerMode::Once);
    assert!(!t.finished());
    t.tick(400);
    assert!(!t.finished() && !t.just_finished());
    assert_eq!(t.remaining(), 600);
    t.tick(700);
    assert!(t.finished() && t.just_finished());
    assert_eq!(t.elapsed, 1_000);
    assert_eq!(t.remaining(), 0);
    t.tick(10);
    assert!(t.finished() && !t.just_finished());
    t.reset();
    assert!(!t.finished() && !t.just_finished());
    assert_eq!(t.elapsed, 0);
}

#[test]
fn timer_repeating_keeps_the_remainder() {
    let mut t = Timer::new(1_000, TimerMode::Repeating);
    t.tick(2_500);
    assert!(t.just_finished());
    assert_eq!(t.times_finished_this_tick, 2);
    assert_eq!(t.elapsed, 500);
    t.tick(100);
    assert!(!t.just_finished() && !t.finished());
    assert_eq!(t.elapsed, 600);
}

#[test]
fn timer_of_no_duration() {
    let mut t = Timer::new(0, TimerMode::Repeating);
    t.tick(1);
    assert_eq!(t.times_finished_this_tick, u32::MAX);
    assert_eq!(t.elapsed, 0);
}

#[test]
fn timer_set_duration() {
    let mut t = Timer::new(1_000, TimerMode::Once);
    t.tick(400);
    t.set_duration(5_000);
    assert_eq!(t.remaining(), 4_600);
    t.set_duration(100);
    assert_eq!(t.remaining(), 0);
}

fn animation(variant: AnimationType) -> Animation {
    Animation::new(1_000, 3, variant, Vector { x: 0, y: 0 })
}

#[test]
fn animation_waits_for_its_timer() {
    let mut a = animation(AnimationType::Repeat);
    assert!(!a.step(999));
    assert_eq!(a.current_frame, 0);
    assert!(!a.step(1));
    assert_eq!(a.current_frame, 1);
}

#[test]
fn animation_moves_one_frame_a_tick() {
    let mut a = animation(AnimationType::Repeat);
    assert!(!a.step(5_000));
    assert_eq!(a.current_frame, 1);
}

#[test]
fn animation_repeat_wraps() {
    let mut a = animation(AnimationType::Repeat);
    a.step(1_000);
    a.step(1_000);
    assert_eq!(a.current_frame, 2);
    assert!(!a.step(1_000));
    assert_eq!(a.current_frame, 0);
}

#[test]
fn animation_freeze_stops_on_last_frame() {
    let mut a = animation(AnimationType::Freeze);
    a.step(1_000);
    a.step(1_000);
    assert!(!a.frozen);
    assert!(!a.step(1_000));
    assert!(a.frozen);
    assert_eq!(a.current_frame, 2);
    assert!(!a.step(1_000));
    assert_eq!(a.current_frame, 2);
}

#[test]
fn animation_despawn_removes_owner() {
    let mut a = animation(AnimationType::Despawn);
    assert!(!a.step(1_000));
    assert!(!a.step(1_000));
    assert!(a.step(1_000));
}

#[test]
fn animation_reverse_plays_backwards() {
    let mut a = animation(AnimationType::Freeze);
    a.current_frame = 2;
    a.reverse = true;
    a.step(1_000);
    assert_eq!(a.current_frame, 1);
    a.step(1_000);
    assert_eq!(a.current_frame, 0);
    a.step(1_000);
    assert!(a.frozen);
    assert_eq!(a.current_frame, 0);
}
