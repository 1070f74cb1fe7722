//! The banners shown between two levels, and what the player has earned by
//! then.

use vstd::prelude::*;
use crate::codes::{all_letters, encoded};
use crate::consts::{NLEVELS, NLIVES};
use crate::game::Game;
use crate::random::random_range;
use crate::shop::{game_after_code, own_text, secret_is_unlocked, shop_code_generate_new, Secret};
use crate::timer::{Timer, TimerMode};

verus! {

/// Time for which a banner shows.
pub const TRANSITION_BANNER_TIME: u64 = 4_000_000;

/// Number of hints.
pub const HINTS: usize = 8;

/// A banner.
#[derive(Clone, Copy, Debug, PartialEq, Eq, Structural)]
pub enum Banner {
    GameOver,
    /// The player has beaten the countdown of a level for the first time.
    SecretDiscovered,
    /// The player has beaten the shorter countdown of a level.
    PortalUnlocked,
    /// The fourth level stays shut until its secret is unlocked.
    HellSealed,
    /// The game is completed, and the credits are not unlocked.
    CreditsConcealed,
    /// The game is completed.
    Completed,
    /// The title of the level to come, with one of the hints.
    Level { level: usize, hint: usize },
}

/// The banners of a transition and what follows them.
#[derive(Debug)]
pub struct Transition {
    pub timer: Timer,
    /// Number of banners shown so far.
    pub idx: usize,
    pub texts: Vec<Banner>,
    /// Whether the menu follows, and not a level.
    pub end_game: bool,
}

/// What follows a transition.
#[derive(Clone, Copy, Debug, PartialEq, Eq, Structural)]
pub enum Scene {
    Menu,
    Game,
}

/// What the player has earned when leaving a level.
#[derive(Clone, Copy, Debug, PartialEq, Eq, Structural)]
pub enum Reward {
    Nothing,
    /// The secret of the level.
    Secret,
    /// The portal of the level, unlocked for good.
    Portal,
}

/// What the player has earned on entering the transition: on coming from a
/// level with time left on its countdown, the secret of that level where it
/// was not discovered yet, or else its portal where that was not unlocked
/// yet.
pub open spec fn reward(game: &Game) -> Reward {
    if game.nlives > 0 && game.current_level > 0 && game.seconds_left > 0 {
        if !game.discovered(game.current_level - 1) {
            Reward::Secret
        } else if !game.level_unlocked(game.current_level - 1) {
            Reward::Portal
        } else {
            Reward::Nothing
        }
    } else {
        Reward::Nothing
    }
}

/// Says what the player has earned on entering the transition.
pub fn earned(game: &Game) -> (r: Reward)
    requires
        game.takes_codes(),
        game.current_level <= NLEVELS,
    ensures
        r == reward(game),
{
    if game.nlives > 0 && game.current_level > 0 && game.seconds_left > 0 {
        let prev_level = game.current_level - 1;
        if game.secrets_generated[prev_level].as_str().is_empty() {
            Reward::Secret
        } else if game.levels_unlocked[prev_level].as_str().is_empty() {
            Reward::Portal
        } else {
            Reward::Nothing
        }
    } else {
        Reward::Nothing
    }
}

/// The banner of what comes next, where the game does not go on with a
/// level: the fourth level is sealed without its secret, and the game is
/// completed after the last level.
pub open spec fn closing_banner(game: &Game) -> Option<Banner> {
    if game.current_level == 3 && !game.unlocked(Secret::Hell.index_spec() as int) {
        Some(Banner::HellSealed)
    } else if game.current_level == NLEVELS && !game.unlocked(
        Secret::Credits.index_spec() as int,
    ) {
        Some(Banner::CreditsConcealed)
    } else if game.current_level == NLEVELS {
        Some(Banner::Completed)
    } else {
        None
    }
}

/// The banner of a level with a hint.
pub open spec fn level_banner(level: usize, hint: usize) -> Banner {
    Banner::Level { level, hint }
}

/// A transition that has shown nothing yet.
pub open spec fn fresh_transition(texts: Seq<Banner>, end_game: bool, t: Transition) -> bool {
    &&& t.idx == 0
    &&& t.timer == Timer::fresh(TRANSITION_BANNER_TIME, TimerMode::Once)
    &&& t.texts@ == texts
    &&& t.end_game == end_game
}

/// Enters the transition to the current level. A game that is over shows
/// so, and the lives are made ready for a new game. Else the player is given
/// what was earned in the level before, as a code of the player's own, and
/// the banner of the next level follows, or the banner that ends the game.
pub fn transition_enter(game: &mut Game) -> (transition: Transition)
    requires
        old(game).takes_codes(),
        reward(old(game)) != Reward::Nothing ==> all_letters(old(game).username@),
        old(game).current_level <= NLEVELS,
    ensures
        final(game).takes_codes(),
        old(game).nlives == 0 ==> fresh_transition(seq![Banner::GameOver], true, transition)
            && final(game).nlives == NLIVES
            && final(game).levels_unlocked == old(game).levels_unlocked
            && final(game).secrets_unlocked == old(game).secrets_unlocked
            && final(game).secrets_generated == old(game).secrets_generated,
        final(game).current_level == old(game).current_level,
        final(game).grid == old(game).grid,
        final(game).username == old(game).username,
        old(game).nlives > 0 ==> final(game).nlives == old(game).nlives && ({
            let earned = match reward(old(game)) {
                Reward::Secret => seq![Banner::SecretDiscovered],
                Reward::Portal => seq![Banner::PortalUnlocked],
                Reward::Nothing => Seq::<Banner>::empty(),
            };
            &&& match reward(old(game)) {
                Reward::Secret => game_after_code(
                    old(game),
                    final(game),
                    encoded(own_text(old(game), 'X', (old(game).current_level - 1) as u8)),
                ),
                Reward::Portal => game_after_code(
                    old(game),
                    final(game),
                    encoded(own_text(old(game), 'L', (old(game).current_level - 1) as u8)),
                ),
                Reward::Nothing => game_after_code(old(game), final(game), Seq::empty()),
            }
            &&& transition.idx == 0
            &&& transition.timer == Timer::fresh(TRANSITION_BANNER_TIME, TimerMode::Once)
            &&& transition.end_game == closing_banner(final(game)) is Some
            &&& match closing_banner(final(game)) {
                Some(banner) => transition.texts@ == earned.push(banner),
                None => exists|hint: usize|
                    hint < HINTS && transition.texts@ == earned.push(
                        #[trigger] level_banner(old(game).current_level, hint),
                    ),
            }
        }),
{
    let mut texts: Vec<Banner> = Vec::new();
    let timer = Timer::new(TRANSITION_BANNER_TIME, TimerMode::Once);
    if game.nlives == 0 {
        texts.push(Banner::GameOver);
        game.nlives = NLIVES;
        return Transition { timer, idx: 0, texts, end_game: true };
    }
    match earned(game) {
        Reward::Secret => {
            shop_code_generate_new(game, 'X', (game.current_level - 1) as u8);
            texts.push(Banner::SecretDiscovered);
        },
        Reward::Portal => {
            shop_code_generate_new(game, 'L', (game.current_level - 1) as u8);
            texts.push(Banner::PortalUnlocked);
        },
        Reward::Nothing => {},
    }
    let mut end_game = false;
    if game.current_level == 3 && !secret_is_unlocked(Secret::Hell.index(), game) {
        texts.push(Banner::HellSealed);
        end_game = true;
    } else if game.current_level == NLEVELS && !secret_is_unlocked(Secret::Credits.index(), game) {
        texts.push(Banner::CreditsConcealed);
        end_game = true;
    } else if game.current_level == NLEVELS {
        texts.push(Banner::Completed);
        end_game = true;
    } else {
        let hint = random_range(0, HINTS as i64) as usize;
        texts.push(Banner::Level { level: game.current_level, hint });
        assert(texts@.last() == level_banner(game.current_level, hint));
    }
    Transition { timer, idx: 0, texts, end_game }
}

/// What a tick of `dt` microseconds makes of a transition: the banner to
/// show now, if any, and the scene to go to, if the banners are through.
/// The first banner shows at once, each further one when the time of the
/// one before is up.
pub open spec fn transition_step(t: &Transition, dt: u64) -> (Option<Banner>, Option<Scene>) {
    if t.timer.ticked(dt).times_finished_this_tick > 0 || t.idx == 0 {
        if t.idx < t.texts@.len() {
            (Some(t.texts@[t.idx as int]), None)
        } else if t.end_game {
            (None, Some(Scene::Menu))
        } else {
            (None, Some(Scene::Game))
        }
    } else {
        (None, None)
    }
}

/// Advances a transition by `dt` microseconds. Returns the banner to show
/// now, if any, and the scene to go to, if the banners are through.
pub fn transition_update(transition: &mut Transition, dt: u64) -> (shown: (
    Option<Banner>,
    Option<Scene>,
))
    ensures
        shown == transition_step(old(transition), dt),
        final(transition).texts == old(transition).texts,
        final(transition).end_game == old(transition).end_game,
        final(transition).idx == (if shown.0 is Some {
            (old(transition).idx + 1) as usize
        } else {
            old(transition).idx
        }),
        final(transition).timer == (if shown.0 is Some {
            old(transition).timer.ticked(dt).restarted()
        } else {
            old(transition).timer.ticked(dt)
        }),
{
    transition.timer.tick(dt);
    if transition.timer.just_finished() || transition.idx == 0 {
        if transition.idx < transition.texts.len() {
            let banner = transition.texts[transition.idx];
            transition.idx = transition.idx + 1;
            transition.timer.reset();
            return (Some(banner), None);
        } else if transition.end_game {
            return (None, Some(Scene::Menu));
        } else {
            return (None, Some(Scene::Game));
        }
    }
    (None, None)
}

} // verus!
