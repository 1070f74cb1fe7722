//! Frame playback of the animated entities.

use vstd::prelude::*;
use crate::barrels::{barrels_wf, Barrel};
use crate::countdown_and_portal::Portal;
use crate::fixed::Vector;
use crate::game::{flashes_wf, Effects, Flash, Game};
use crate::meanies::{meanies_wf, Meanie};
use crate::timer::{Timer, TimerMode};

verus! {

/// What an animation does after its last frame.
#[derive(Clone, Copy, Debug, PartialEq, Eq, Structural)]
pub enum AnimationType {
    /// It starts over at its first frame.
    Repeat,
    /// Its owner is removed.
    Despawn,
    /// It stays on its last frame.
    Freeze,
}

/// Playback state of an animated entity.
#[derive(Clone, Copy, Debug, PartialEq, Eq, Structural)]
pub struct Animation {
    /// Time between two frames.
    pub timer: Timer,
    /// Number of frames.
    pub frames: usize,
    pub frozen: bool,
    pub variant: AnimationType,
    pub current_frame: usize,
    /// Whether the frames play from the last to the first.
    pub reverse: bool,
    /// Drift of the owner, in length units per second.
    pub velocity: Vector,
}

impl Animation {
    /// There is a frame, and the current frame is one of them.
    pub open spec fn wf(self) -> bool {
        self.current_frame < self.frames
    }

    /// Says whether the animation is well formed.
    pub fn is_wf(&self) -> (b: bool)
        ensures
            b == self.wf(),
    {
        self.current_frame < self.frames
    }

    /// Frame at which playback starts.
    pub open spec fn first(self) -> usize {
        if self.reverse {
            (self.frames - 1) as usize
        } else {
            0
        }
    }

    /// Frame at which playback ends.
    pub open spec fn last(self) -> usize {
        if self.reverse {
            0
        } else {
            (self.frames - 1) as usize
        }
    }

    /// The animation after a tick of `dt` microseconds, and whether its owner
    /// is to be removed. The timer always runs. Unless the animation is
    /// frozen, a timer that just finished moves playback one frame on or, at
    /// the end, does what the animation's type says.
    pub open spec fn stepped(self, dt: u32) -> (Animation, bool) {
        let run = Animation { timer: self.timer.ticked(dt as u64), ..self };
        if self.frozen || run.timer.times_finished_this_tick == 0 {
            (run, false)
        } else if self.current_frame == self.last() {
            match self.variant {
                AnimationType::Repeat => (Animation { current_frame: self.first(), ..run }, false),
                AnimationType::Freeze => (Animation { frozen: true, ..run }, false),
                AnimationType::Despawn => (run, true),
            }
        } else if self.reverse {
            (Animation { current_frame: (self.current_frame - 1) as usize, ..run }, false)
        } else {
            (Animation { current_frame: (self.current_frame + 1) as usize, ..run }, false)
        }
    }

    /// A running animation at its first frame.
    pub open spec fn fresh(
        frame_time: u64,
        frames: usize,
        variant: AnimationType,
        velocity: Vector,
    ) -> Animation {
        Animation {
            timer: Timer::fresh(frame_time, TimerMode::Repeating),
            frames,
            frozen: false,
            variant,
            current_frame: 0,
            reverse: false,
            velocity,
        }
    }

    /// A running animation at its first frame.
    pub fn new(frame_time: u64, frames: usize, variant: AnimationType, velocity: Vector) -> (a:
        Animation)
        requires
            frames > 0,
        ensures
            a.wf(),
            a == Animation::fresh(frame_time, frames, variant, velocity),
    {
        Animation {
            timer: Timer::new(frame_time, TimerMode::Repeating),
            frames,
            frozen: false,
            variant,
            current_frame: 0,
            reverse: false,
            velocity,
        }
    }

    /// Plays the animation for a tick of `dt` microseconds and says whether
    /// its owner is to be removed.
    pub fn step(&mut self, dt: u32) -> (despawn: bool)
        requires
            old(self).wf(),
        ensures
            (*final(self), despawn) == old(self).stepped(dt),
            final(self).wf(),
    {
        self.timer.tick(dt as u64);
        if self.frozen || !self.timer.just_finished() {
            return false;
        }
        let first: usize = if self.reverse {
            self.frames - 1
        } else {
            0
        };
        let last: usize = if self.reverse {
            0
        } else {
            self.frames - 1
        };
        if self.current_frame == last {
            match self.variant {
                AnimationType::Repeat => {
                    self.current_frame = first;
                },
                AnimationType::Freeze => {
                    self.frozen = true;
                },
                AnimationType::Despawn => {
                    return true;
                },
            }
        } else if self.reverse {
            self.current_frame = self.current_frame - 1;
        } else {
            self.current_frame = self.current_frame + 1;
        }
        false
    }
}

/// Only an animation of the type `Despawn` ever removes its owner.
pub proof fn lemma_only_despawn_removes(a: Animation, dt: u32)
    requires
        a.variant != AnimationType::Despawn,
    ensures
        !a.stepped(dt).1,
{
}

/// A frozen animation keeps its frame.
pub proof fn lemma_frozen_keeps_frame(a: Animation, dt: u32)
    requires
        a.frozen,
    ensures
        a.stepped(dt).0.current_frame == a.current_frame,
        a.stepped(dt).0.frozen,
        !a.stepped(dt).1,
{
}

/// A flash after a tick of `dt` microseconds.
pub open spec fn flash_animated(flash: Flash, dt: u32) -> Flash {
    Flash {
        position: flash.position.drifted(flash.animation.velocity, dt as int),
        animation: flash.animation.stepped(dt).0,
        ..flash
    }
}

/// Those of the first `k` flashes that are left after a tick of `dt`
/// microseconds: a flash is gone when its animation says so.
pub open spec fn flashes_left(flashes: Seq<Flash>, dt: u32, k: nat) -> Seq<Flash>
    decreases k,
{
    if k == 0 {
        Seq::empty()
    } else {
        let before = flashes_left(flashes, dt, (k - 1) as nat);
        if flashes[k - 1].animation.stepped(dt).1 {
            before
        } else {
            before.push(flash_animated(flashes[k - 1], dt))
        }
    }
}

/// A barrel after a tick of `dt` microseconds.
pub open spec fn barrel_animated(barrel: Barrel, dt: u32) -> Barrel {
    Barrel {
        position: barrel.position.drifted(barrel.animation.velocity, dt as int),
        animation: barrel.animation.stepped(dt).0,
        ..barrel
    }
}

/// An enemy after a tick of `dt` microseconds of its animation.
pub open spec fn meanie_animated(meanie: Meanie, dt: u32) -> Meanie {
    Meanie {
        position: meanie.position.drifted(meanie.animation.velocity, dt as int),
        animation: meanie.animation.stepped(dt).0,
        ..meanie
    }
}

/// Plays one animation for a tick of `dt` microseconds and lets its owner
/// drift at the animation's velocity. Returns whether the owner is to be
/// removed.
pub fn animate_one(position: &mut Vector, animation: &mut Animation, dt: u32) -> (despawn: bool)
    requires
        old(animation).wf(),
    ensures
        *final(position) == old(position).drifted(old(animation).velocity, dt as int),
        (*final(animation), despawn) == old(animation).stepped(dt),
        final(animation).wf(),
        final(animation).variant == old(animation).variant,
        final(animation).frames == old(animation).frames,
{
    *position = position.drift(animation.velocity, dt);
    animation.step(dt)
}

/// The stage of a tick that plays the animations: every flash, barrel and
/// enemy drifts at the velocity of its animation and shows its next frame
/// when the time has come, and so does the portal. A flash is gone after
/// its last frame.
pub fn animate(
    effects: &mut Effects,
    barrels: &mut Vec<Barrel>,
    meanies: &mut Vec<Meanie>,
    portal: &mut Portal,
    game: &Game,
)
    requires
        flashes_wf(old(effects).flashes@),
        barrels_wf(old(barrels)@),
        meanies_wf(old(meanies)@),
        old(portal).animation.wf(),
    ensures
        final(effects).flashes@ == flashes_left(
            old(effects).flashes@,
            game.avg_delta,
            old(effects).flashes@.len(),
        ),
        final(effects).sounds@ == old(effects).sounds@,
        final(barrels)@ == old(barrels)@.map_values(|b: Barrel| barrel_animated(b, game.avg_delta)),
        final(meanies)@ == old(meanies)@.map_values(|m: Meanie| meanie_animated(m, game.avg_delta)),
        *final(portal) == (Portal {
            animation: old(portal).animation.stepped(game.avg_delta).0,
            ..*old(portal)
        }),
        flashes_wf(final(effects).flashes@),
        barrels_wf(final(barrels)@),
        meanies_wf(final(meanies)@),
        final(portal).animation.wf(),
{
    let dt = game.avg_delta;
    let ghost flashes = effects.flashes@;
    let n = effects.flashes.len();
    let mut kept: Vec<Flash> = Vec::new();
    let mut k: usize = 0;
    while k < n
        invariant
            k <= n,
            n == flashes.len(),
            effects.flashes@ == flashes,
            effects.sounds@ == old(effects).sounds@,
            flashes_wf(flashes),
            kept@ == flashes_left(flashes, dt, k as nat),
            flashes_wf(kept@),
        decreases n - k,
    {
        let mut flash = effects.flashes[k];
        let despawn = animate_one(&mut flash.position, &mut flash.animation, dt);
        if !despawn {
            kept.push(flash);
        }
        k = k + 1;
    }
    effects.flashes = kept;
    let ghost fallen = barrels@;
    let ghost fall = |b: Barrel| barrel_animated(b, dt);
    let nb = barrels.len();
    let mut k: usize = 0;
    while k < nb
        invariant
            k <= nb,
            nb == fallen.len(),
            barrels@.len() == nb,
            barrels_wf(fallen),
            fall == |b: Barrel| barrel_animated(b, dt),
            forall|i: int| 0 <= i < k ==> #[trigger] barrels@[i] == fall(fallen[i]),
            forall|i: int| k <= i < nb ==> #[trigger] barrels@[i] == fallen[i],
        decreases nb - k,
    {
        let mut barrel = barrels[k];
        animate_one(&mut barrel.position, &mut barrel.animation, dt);
        barrels[k] = barrel;
        k = k + 1;
    }
    proof {
        assert(barrels@ =~= fallen.map_values(fall));
        assert forall|i: int| 0 <= i < barrels@.len() implies (#[trigger] barrels@[i]).wf() by {
            assert(fallen[i].wf());
            lemma_only_despawn_removes(fallen[i].animation, dt);
        }
    }
    let ghost roaming = meanies@;
    let ghost roam = |m: Meanie| meanie_animated(m, dt);
    let nm = meanies.len();
    let mut k: usize = 0;
    while k < nm
        invariant
            k <= nm,
            nm == roaming.len(),
            meanies@.len() == nm,
            meanies_wf(roaming),
            roam == |m: Meanie| meanie_animated(m, dt),
            forall|i: int| 0 <= i < k ==> #[trigger] meanies@[i] == roam(roaming[i]),
            forall|i: int| k <= i < nm ==> #[trigger] meanies@[i] == roaming[i],
        decreases nm - k,
    {
        let mut meanie = meanies[k];
        animate_one(&mut meanie.position, &mut meanie.animation, dt);
        meanies[k] = meanie;
        k = k + 1;
    }
    proof {
        assert(meanies@ =~= roaming.map_values(roam));
        assert forall|i: int| 0 <= i < meanies@.len() implies (#[trigger] meanies@[i]).wf() by {
            assert(roaming[i].wf());
        }
    }
    portal.animation.step(dt);
}

} // verus!
