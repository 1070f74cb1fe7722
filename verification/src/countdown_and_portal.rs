//! The portal through which a level is left, and the countdown of the level.

use vstd::prelude::*;
use crate::animation::{Animation, AnimationType};
use crate::consts::{PORTAL_FRAMES, PORTAL_FRAME_TIME};
use crate::fixed::{Vector, SECOND};
use crate::game::{Effects, Game, InfoAreaMsg, Message, Sound};
use crate::shop::level_is_unlocked;
use crate::timer::{Timer, TimerMode};

verus! {

/// The countdown of a level.
#[derive(Clone, Copy, Debug, PartialEq, Eq, Structural)]
pub struct Countdown {
    pub timer: Timer,
}

/// States of the portal.
#[derive(Clone, Copy, Debug, PartialEq, Eq, Structural)]
pub enum PortalState {
    Closed,
    Opening,
    Open,
    Closing,
}

/// The portal and its animation, which plays forward while the portal opens
/// and backward while it closes, and freezes at either end.
#[derive(Clone, Copy, Debug, PartialEq, Eq, Structural)]
pub struct Portal {
    pub portal_state: PortalState,
    pub animation: Animation,
}

impl Portal {
    /// The portal at the start of a level: opening when the level's portal is
    /// unlocked for good, and closed otherwise.
    pub open spec fn fresh(unlocked: bool) -> Portal {
        Portal {
            portal_state: if unlocked {
                PortalState::Opening
            } else {
                PortalState::Closed
            },
            animation: Animation {
                frozen: !unlocked,
                ..Animation::fresh(
                    PORTAL_FRAME_TIME,
                    PORTAL_FRAMES,
                    AnimationType::Freeze,
                    Vector { x: 0, y: 0 },
                )
            },
        }
    }

    /// The portal at the start of a level.
    pub fn new(unlocked: bool) -> (p: Portal)
        ensures
            p == Portal::fresh(unlocked),
            p.animation.wf(),
    {
        let mut animation = Animation::new(
            PORTAL_FRAME_TIME,
            PORTAL_FRAMES,
            AnimationType::Freeze,
            Vector { x: 0, y: 0 },
        );
        animation.frozen = !unlocked;
        Portal {
            portal_state: if unlocked {
                PortalState::Opening
            } else {
                PortalState::Closed
            },
            animation,
        }
    }

    /// Whether a closed portal starts to open: no brick is left.
    pub open spec fn starts_opening(self, bricks_left: u32) -> bool {
        bricks_left == 0 && self.portal_state == PortalState::Closed
    }

    /// The portal after its stage of a tick. A closed portal starts to open
    /// when no brick is left: its animation runs forward. A portal that was
    /// opening or closing is open or closed once its animation froze.
    pub open spec fn updated(self, bricks_left: u32) -> Portal {
        if self.starts_opening(bricks_left) {
            Portal {
                portal_state: PortalState::Opening,
                animation: Animation { frozen: false, reverse: false, ..self.animation },
            }
        } else if self.portal_state == PortalState::Opening && self.animation.frozen {
            Portal { portal_state: PortalState::Open, ..self }
        } else if self.portal_state == PortalState::Closing && self.animation.frozen {
            Portal { portal_state: PortalState::Closed, ..self }
        } else {
            self
        }
    }

    /// The portal as it starts to close: its animation runs backward.
    pub open spec fn closing(self) -> Portal {
        Portal {
            portal_state: PortalState::Closing,
            animation: Animation { frozen: false, reverse: true, ..self.animation },
        }
    }
}

/// The stage of a tick that opens and closes the portal.
pub fn portal_update(effects: &mut Effects, portal: &mut Portal, game: &mut Game)
    ensures
        *final(portal) == old(portal).updated(old(game).bricks_left),
        final(game).portal_open == (old(game).portal_open || (old(portal).portal_state
            == PortalState::Opening && final(portal).portal_state == PortalState::Open)),
        final(effects).sounds@ == (if old(portal).starts_opening(old(game).bricks_left) {
            old(effects).sounds@.push(Sound::Portal)
        } else {
            old(effects).sounds@
        }),
        final(effects).flashes@ == old(effects).flashes@,
        final(game).grid == old(game).grid,
        final(game).nlives == old(game).nlives,
        final(game).nballs == old(game).nballs,
        final(game).bricks_left == old(game).bricks_left,
        final(game).avg_delta == old(game).avg_delta,
        final(game).nmeanies == old(game).nmeanies,
        final(game).current_level == old(game).current_level,
        final(game).seconds_left == old(game).seconds_left,
        final(game).barrel_dist == old(game).barrel_dist,
        final(game).levels_unlocked == old(game).levels_unlocked,
        final(game).secrets_unlocked == old(game).secrets_unlocked,
        final(game).secrets_generated == old(game).secrets_generated,
        final(game).username == old(game).username,
{
    if game.bricks_left == 0 && portal.portal_state == PortalState::Closed {
        portal.portal_state = PortalState::Opening;
        portal.animation.frozen = false;
        portal.animation.reverse = false;
        effects.sounds.push(Sound::Portal);
    }
    if portal.portal_state == PortalState::Opening && portal.animation.frozen {
        portal.portal_state = PortalState::Open;
        game.portal_open = true;
    }
    if portal.portal_state == PortalState::Closing && portal.animation.frozen {
        portal.portal_state = PortalState::Closed;
    }
}

/// A duration in whole seconds, rounded up.
pub open spec fn whole_seconds(micros: u64) -> u64 {
    ((micros + (SECOND - 1)) / (SECOND as int)) as u64
}

/// A duration in whole seconds, rounded up.
pub fn seconds_up(micros: u64) -> (s: u64)
    ensures
        s == whole_seconds(micros),
{
    micros / SECOND + if micros % SECOND > 0 {
        1
    } else {
        0
    }
}

/// Whether the countdown runs out during a tick of `dt` microseconds.
pub open spec fn runs_out(countdown: Countdown, dt: u32) -> bool {
    countdown.timer.ticked(dt as u64).times_finished_this_tick > 0
}

/// Whether the countdown forces the portal to close during this tick: it
/// runs out, and the portal of the level is unlocked for good.
pub open spec fn forces_closing(countdown: Countdown, game: &Game) -> bool {
    runs_out(countdown, game.avg_delta) && game.level_unlocked(game.current_level as int)
}

/// The status line after `dt` microseconds more: it is cleared when its
/// time is up.
pub open spec fn message_ticked(msg: InfoAreaMsg, dt: u32) -> InfoAreaMsg {
    let timer = msg.timer.ticked(dt as u64);
    InfoAreaMsg {
        text: if timer.times_finished_this_tick > 0 {
            Message::Empty
        } else {
            msg.text
        },
        timer,
    }
}

/// The stage of a tick that runs the countdown. When the countdown runs out
/// in a level whose portal is unlocked for good, the portal starts to close,
/// whatever its state, and is no longer open. The status line is cleared
/// when its time is up.
pub fn countdown_update(
    effects: &mut Effects,
    countdown: &mut Countdown,
    portal: &mut Portal,
    msg: &mut InfoAreaMsg,
    game: &mut Game,
)
    requires
        old(game).current_level < old(game).levels_unlocked@.len(),
    ensures
        final(countdown).timer == old(countdown).timer.ticked(old(game).avg_delta as u64),
        final(game).seconds_left == whole_seconds(final(countdown).timer.remaining_spec()),
        *final(msg) == message_ticked(*old(msg), old(game).avg_delta),
        *final(portal) == (if forces_closing(*old(countdown), old(game)) {
            old(portal).closing()
        } else {
            *old(portal)
        }),
        final(game).portal_open == (old(game).portal_open && !forces_closing(
            *old(countdown),
            old(game),
        )),
        final(effects).sounds@ == (if forces_closing(*old(countdown), old(game)) {
            old(effects).sounds@.push(Sound::Portal)
        } else {
            old(effects).sounds@
        }),
        final(effects).flashes@ == old(effects).flashes@,
        final(game).grid == old(game).grid,
        final(game).nlives == old(game).nlives,
        final(game).nballs == old(game).nballs,
        final(game).bricks_left == old(game).bricks_left,
        final(game).avg_delta == old(game).avg_delta,
        final(game).nmeanies == old(game).nmeanies,
        final(game).current_level == old(game).current_level,
        final(game).barrel_dist == old(game).barrel_dist,
        final(game).levels_unlocked == old(game).levels_unlocked,
        final(game).secrets_unlocked == old(game).secrets_unlocked,
        final(game).secrets_generated == old(game).secrets_generated,
        final(game).username == old(game).username,
{
    let dt = game.avg_delta;
    countdown.timer.tick(dt as u64);
    game.seconds_left = seconds_up(countdown.timer.remaining());
    if countdown.timer.just_finished() && level_is_unlocked(game.current_level, game) {
        portal.animation.frozen = false;
        portal.animation.reverse = true;
        portal.portal_state = PortalState::Closing;
        game.portal_open = false;
        effects.sounds.push(Sound::Portal);
    }
    msg.timer.tick(dt as u64);
    if msg.timer.just_finished() {
        msg.text = Message::Empty;
    }
}

/// When the last brick left to destroy is gone, a closed portal leaves the
/// closed state at its next stage.
pub proof fn lemma_portal_opens_when_cleared(portal: Portal)
    requires
        portal.portal_state == PortalState::Closed,
    ensures
        portal.updated(0).portal_state == PortalState::Opening,
        !portal.updated(0).animation.frozen,
{
}

/// While a brick is left to destroy, a closed portal stays closed.
pub proof fn lemma_portal_waits_for_bricks(portal: Portal, bricks_left: u32)
    requires
        portal.portal_state == PortalState::Closed,
        bricks_left > 0,
    ensures
        portal.updated(bricks_left) == portal,
{
}

/// A countdown that has not finished runs out on the tick that brings the
/// elapsed time to its duration; an open portal then starts to close.
pub proof fn lemma_countdown_closes_portal(countdown: Countdown, portal: Portal, dt: u32)
    requires
        countdown.timer.mode == TimerMode::Once,
        !countdown.timer.finished,
        countdown.timer.elapsed + dt >= countdown.timer.duration,
    ensures
        runs_out(countdown, dt),
        countdown.timer.ticked(dt as u64).remaining_spec() == 0,
        portal.closing().portal_state == PortalState::Closing,
{
}

} // verus!
