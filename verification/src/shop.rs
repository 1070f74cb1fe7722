//! What the game reads of the player's progress: which secrets were
//! discovered and unlocked, and which levels have their portal unlocked.

use vstd::prelude::*;
use vstd::string::*;
use crate::codes::{
    all_capitals, all_letters, ascii_len, code_readable, decode, decoded, encode, encoded,
    is_letter, lemma_code_round_trip, lemma_decoded_is_plain, lemma_encoded_is_readable, pop_char,
    push_char,
};
use crate::consts::{BARREL_TYPES, NLEVELS};
use crate::game::Game;
use crate::random::{dist_weights, total_weight, weighted_index, weights_valid};

verus! {

/// The secrets, by the level whose countdown the player beats to discover
/// them.
#[derive(Clone, Copy, Debug, PartialEq, Eq, Structural)]
pub enum Secret {
    Multiball,
    Magnet,
    Hell,
    Gun,
    Arkanoid,
    Meanies,
    XRay,
    Credits,
}

impl Secret {
    /// Place of the secret in the records of the game.
    pub open spec fn index_spec(self) -> usize {
        match self {
            Secret::Multiball => 0,
            Secret::Magnet => 1,
            Secret::Hell => 2,
            Secret::Gun => 3,
            Secret::Arkanoid => 4,
            Secret::Meanies => 5,
            Secret::XRay => 6,
            Secret::Credits => 7,
        }
    }

    /// Place of the secret in the records of the game.
    pub fn index(self) -> (i: usize)
        ensures
            i == self.index_spec(),
            i < NLEVELS,
    {
        match self {
            Secret::Multiball => 0,
            Secret::Magnet => 1,
            Secret::Hell => 2,
            Secret::Gun => 3,
            Secret::Arkanoid => 4,
            Secret::Meanies => 5,
            Secret::XRay => 6,
            Secret::Credits => 7,
        }
    }
}

impl Game {
    /// Whether the player has discovered the secret: a code was made for it.
    pub open spec fn discovered(&self, secret: int) -> bool {
        self.secrets_generated@[secret]@.len() > 0
    }

    /// Whether the secret is unlocked: the player has discovered it and has
    /// entered the code of another player for it.
    pub open spec fn unlocked(&self, secret: int) -> bool {
        self.secrets_unlocked@[secret]@.len() > 0 && self.secrets_generated@[secret]@.len() > 0
    }

    /// Whether the portal of the level is unlocked for good.
    pub open spec fn level_unlocked(&self, level: int) -> bool {
        self.levels_unlocked@[level]@.len() > 0
    }
}

/// Whether the player has discovered the secret.
pub fn secret_is_discovered(secret: usize, game: &Game) -> (b: bool)
    requires
        secret < game.secrets_generated@.len(),
    ensures
        b == game.discovered(secret as int),
{
    !game.secrets_generated[secret].as_str().is_empty()
}

/// Whether the secret is unlocked.
pub fn secret_is_unlocked(secret: usize, game: &Game) -> (b: bool)
    requires
        secret < game.secrets_generated@.len(),
        secret < game.secrets_unlocked@.len(),
    ensures
        b == game.unlocked(secret as int),
{
    !game.secrets_unlocked[secret].as_str().is_empty()
        && !game.secrets_generated[secret].as_str().is_empty()
}

/// Whether the portal of the level is unlocked for good.
pub fn level_is_unlocked(level: usize, game: &Game) -> (b: bool)
    requires
        level < game.levels_unlocked@.len(),
    ensures
        b == game.level_unlocked(level as int),
{
    !game.levels_unlocked[level].as_str().is_empty()
}

/// The weight of each barrel variant in the draw that follows a destroyed
/// brick. The gun, the magnet and the multiball barrels take part once
/// their secrets are unlocked, and the extra-time barrel once all three
/// are.
pub open spec fn barrel_weights(gun: bool, magnet: bool, multiball: bool) -> Seq<u32> {
    seq![
        4u32,
        if gun {
            2u32
        } else {
            0u32
        },
        2u32,
        if magnet {
            4u32
        } else {
            0u32
        },
        if multiball {
            4u32
        } else {
            0u32
        },
        2u32,
        2u32,
        0u32,
        0u32,
        if gun && magnet && multiball {
            2u32
        } else {
            0u32
        },
    ]
}

/// The weights of the barrels, for the secrets that are unlocked.
pub fn weights_for(gun: bool, magnet: bool, multiball: bool) -> (weights: Vec<u32>)
    ensures
        weights@ == barrel_weights(gun, magnet, multiball),
        weights_valid(weights@),
{
    let mut weights: Vec<u32> = Vec::new();
    weights.push(4);
    weights.push(if gun {
        2
    } else {
        0
    });
    weights.push(2);
    weights.push(if magnet {
        4
    } else {
        0
    });
    weights.push(if multiball {
        4
    } else {
        0
    });
    weights.push(2);
    weights.push(2);
    weights.push(0);
    weights.push(0);
    weights.push(if gun && magnet && multiball {
        2
    } else {
        0
    });
    proof {
        assert(weights@ =~= barrel_weights(gun, magnet, multiball));
        lemma_total_bounds(weights@, 10);
    }
    weights
}

/// The sum of weights of at most 4 each is at least the first weight and at
/// most 4 times their number.
proof fn lemma_total_bounds(weights: Seq<u32>, n: nat)
    requires
        weights.len() == n,
        forall|i: int| 0 <= i < n ==> #[trigger] weights[i] <= 4,
    ensures
        total_weight(weights) <= 4 * n,
        n > 0 ==> total_weight(weights) >= weights[0],
    decreases n,
{
    if n > 0 {
        lemma_total_bounds(weights.drop_last(), (n - 1) as nat);
    }
}

/// Sets the draw of the barrels to the weights that go with the unlocked
/// secrets.
pub fn shop_process_secrets(game: &mut Game)
    requires
        old(game).secrets_unlocked@.len() == NLEVELS,
        old(game).secrets_generated@.len() == NLEVELS,
    ensures
        dist_weights(final(game).barrel_dist) == barrel_weights(
            old(game).unlocked(Secret::Gun.index_spec() as int),
            old(game).unlocked(Secret::Magnet.index_spec() as int),
            old(game).unlocked(Secret::Multiball.index_spec() as int),
        ),
        dist_weights(final(game).barrel_dist).len() == BARREL_TYPES,
        final(game).grid == old(game).grid,
        final(game).nlives == old(game).nlives,
        final(game).nballs == old(game).nballs,
        final(game).nmeanies == old(game).nmeanies,
        final(game).current_level == old(game).current_level,
        final(game).bricks_left == old(game).bricks_left,
        final(game).portal_open == old(game).portal_open,
        final(game).seconds_left == old(game).seconds_left,
        final(game).avg_delta == old(game).avg_delta,
        final(game).levels_unlocked == old(game).levels_unlocked,
        final(game).secrets_unlocked == old(game).secrets_unlocked,
        final(game).secrets_generated == old(game).secrets_generated,
        final(game).username == old(game).username,
{
    let gun = secret_is_unlocked(Secret::Gun.index(), game);
    let magnet = secret_is_unlocked(Secret::Magnet.index(), game);
    let multiball = secret_is_unlocked(Secret::Multiball.index(), game);
    let weights = weights_for(gun, magnet, multiball);
    let dist = weighted_index(&weights);
    game.barrel_dist = dist.unwrap();
}

/// Number of characters of a user name.
pub const USERNAME_LEN: usize = 6;

/// Number of characters of a code: the user name, the kind of the code, the
/// letter of the level or secret, and the check letter.
pub const CODE_LEN: usize = 9;

/// Why a code was not taken.
#[derive(Clone, Copy, Debug, PartialEq, Eq, Structural)]
pub enum ShopError {
    /// The code of another player is for a secret that this player has not
    /// discovered.
    NotDiscovered,
    /// The secret is unlocked already.
    Duplicated,
    /// This is no code.
    Incorrect,
}

impl ShopError {
    /// The error in words.
    pub fn message(self) -> (text: &'static str)
        ensures
            text@ == (match self {
                ShopError::NotDiscovered => "Secret not discovered yet"@,
                ShopError::Duplicated => "Duplicated"@,
                ShopError::Incorrect => "Incorrect"@,
            }),
    {
        match self {
            ShopError::NotDiscovered => "Secret not discovered yet",
            ShopError::Duplicated => "Duplicated",
            ShopError::Incorrect => "Incorrect",
        }
    }
}

/// What a code records.
#[derive(Clone, Copy, Debug, PartialEq, Eq, Structural)]
pub enum CodeKind {
    /// The player's own code for a discovered secret.
    Discovery,
    /// The player's own code for a portal unlocked for good.
    Portal,
    /// The code of another player, which unlocks a discovered secret.
    Unlock,
}

/// The text of a code, or nothing where the code cannot be decoded.
pub open spec fn secret_of(code: Seq<char>) -> Seq<char> {
    match decoded(code) {
        Ok(text) => text,
        Err(_) => Seq::empty(),
    }
}

/// Whether the text of a code starts with the name of the player.
pub open spec fn is_own(game: &Game, secret: Seq<char>) -> bool {
    secret.subrange(0, game.username@.len() as int) == game.username@
}

/// What a code does to the game, or why it is not taken. A code has
/// `CODE_LEN` characters and decodes to a user name, a kind and the letter
/// of one of the levels. The player's own code of kind `X` records a
/// discovered secret, that of kind `L` a portal unlocked for good. The code
/// of kind `X` of another player unlocks a secret that the player has
/// discovered and not unlocked yet.
pub open spec fn code_effect(game: &Game, code: Seq<char>) -> Result<(CodeKind, usize), ShopError> {
    let secret = secret_of(code);
    if code.len() == CODE_LEN && secret.len() == CODE_LEN - 1 && secret[USERNAME_LEN + 1] as int
        - 65 < NLEVELS {
        let idx = (secret[USERNAME_LEN + 1] as int - 65) as usize;
        if is_own(game, secret) {
            if secret[USERNAME_LEN as int] == 'X' {
                Ok((CodeKind::Discovery, idx))
            } else if secret[USERNAME_LEN as int] == 'L' {
                Ok((CodeKind::Portal, idx))
            } else {
                Err(ShopError::Incorrect)
            }
        } else if secret[USERNAME_LEN as int] == 'X' {
            if !game.discovered(idx as int) {
                Err(ShopError::NotDiscovered)
            } else if game.unlocked(idx as int) {
                Err(ShopError::Duplicated)
            } else {
                Ok((CodeKind::Unlock, idx))
            }
        } else {
            Err(ShopError::Incorrect)
        }
    } else {
        Err(ShopError::Incorrect)
    }
}

/// What taking a code leaves of the game as it was: all but the records.
pub open spec fn code_keeps(before: &Game, after: &Game) -> bool {
    &&& after.grid == before.grid
    &&& after.nlives == before.nlives
    &&& after.nballs == before.nballs
    &&& after.nmeanies == before.nmeanies
    &&& after.current_level == before.current_level
    &&& after.bricks_left == before.bricks_left
    &&& after.portal_open == before.portal_open
    &&& after.seconds_left == before.seconds_left
    &&& after.avg_delta == before.avg_delta
    &&& after.barrel_dist == before.barrel_dist
    &&& after.username == before.username
}

/// Whether `after` is `before` with the code `code` in place `idx`.
pub open spec fn recorded(
    before: Seq<String>,
    after: Seq<String>,
    idx: int,
    code: Seq<char>,
) -> bool {
    &&& after.len() == before.len()
    &&& after[idx]@ == code
    &&& forall|i: int| 0 <= i < before.len() && i != idx ==> #[trigger] after[i] == before[i]
}

/// Whether `after` is the game `before` after the code `code` was entered:
/// a code that is taken is recorded where its kind says, any other changes
/// nothing.
pub open spec fn game_after_code(before: &Game, after: &Game, code: Seq<char>) -> bool {
    &&& code_keeps(before, after)
    &&& match code_effect(before, code) {
        Ok((CodeKind::Discovery, idx)) => {
            &&& recorded(before.secrets_generated@, after.secrets_generated@, idx as int, code)
            &&& after.secrets_unlocked == before.secrets_unlocked
            &&& after.levels_unlocked == before.levels_unlocked
        },
        Ok((CodeKind::Portal, idx)) => {
            &&& recorded(before.levels_unlocked@, after.levels_unlocked@, idx as int, code)
            &&& after.secrets_unlocked == before.secrets_unlocked
            &&& after.secrets_generated == before.secrets_generated
        },
        Ok((CodeKind::Unlock, idx)) => {
            &&& recorded(before.secrets_unlocked@, after.secrets_unlocked@, idx as int, code)
            &&& after.secrets_generated == before.secrets_generated
            &&& after.levels_unlocked == before.levels_unlocked
        },
        Err(_) => {
            &&& after.secrets_generated == before.secrets_generated
            &&& after.secrets_unlocked == before.secrets_unlocked
            &&& after.levels_unlocked == before.levels_unlocked
        },
    }
}

impl Game {
    /// There is a record for every level and secret, and the name of the
    /// player fits into a code.
    pub open spec fn takes_codes(&self) -> bool {
        &&& self.levels_unlocked@.len() == NLEVELS
        &&& self.secrets_unlocked@.len() == NLEVELS
        &&& self.secrets_generated@.len() == NLEVELS
        &&& self.username@.len() <= CODE_LEN - 1
    }
}

impl Game {
    /// Says whether the game can take codes.
    pub fn can_take_codes(&self) -> (b: bool)
        ensures
            b == self.takes_codes(),
    {
        self.levels_unlocked.len() == NLEVELS && self.secrets_unlocked.len() == NLEVELS
            && self.secrets_generated.len() == NLEVELS && self.username.as_str().unicode_len()
            <= CODE_LEN - 1
    }
}

/// Says whether `text` starts with `name`.
fn starts_with(text: &str, name: &str) -> (b: bool)
    requires
        is_ascii(text),
        is_ascii(name),
        name@.len() <= text@.len(),
    ensures
        b == (text@.subrange(0, name@.len() as int) == name@),
{
    let n = ascii_len(name);
    let mut i: usize = 0;
    while i < n
        invariant
            i <= n,
            n == name@.len(),
            n <= text@.len(),
            is_ascii(text),
            is_ascii(name),
            forall|k: int| 0 <= k < i ==> text@[k] == name@[k],
        decreases n - i,
    {
        if text.get_ascii(i) != name.get_ascii(i) {
            assert(text@[i as int] != name@[i as int]);
            assert(text@.subrange(0, n as int)[i as int] == text@[i as int]);
            return false;
        }
        i = i + 1;
    }
    assert(text@.subrange(0, n as int) =~= name@);
    true
}

/// Enters a code into the game. Returns the level or secret that the code
/// is for, or why the code is not taken.
pub fn shop_code_add(game: &mut Game, code: &str) -> (result: Result<usize, ShopError>)
    requires
        old(game).takes_codes(),
        code_readable(code@),
    ensures
        match result {
            Ok(idx) => code_effect(old(game), code@) is Ok && code_effect(old(game), code@)->Ok_0.1
                == idx && idx < NLEVELS,
            Err(e) => code_effect(old(game), code@) == Err::<(CodeKind, usize), ShopError>(e),
        },
        game_after_code(old(game), final(game), code@),
        final(game).takes_codes(),
{
    let secret = match decode(code) {
        Ok(text) => text,
        Err(_) => String::new(),
    };
    let text = secret.as_str();
    if ascii_len(code) == CODE_LEN && ascii_len(text) == CODE_LEN - 1 {
        let letter = text.get_ascii(USERNAME_LEN + 1);
        let kind = text.get_ascii(USERNAME_LEN);
        proof {
            lemma_decoded_is_plain(code@);
        }
        if letter - 65 < NLEVELS as u8 {
            let idx: usize = (letter - 65) as usize;
            let name = game.username.as_str();
            proof {
                if is_own(game, text@) {
                    assert forall|i: int| 0 <= i < name@.len() implies '\0' <= #[trigger] name@[i]
                        <= '\u{7f}' by {
                        assert(name@[i] == text@.subrange(0, name@.len() as int)[i]);
                    }
                }
            }
            if name.is_ascii() && starts_with(text, name) {
                if kind == 88 {
                    game.secrets_generated[idx] = String::from_str(code);
                    return Ok(idx);
                } else if kind == 76 {
                    game.levels_unlocked[idx] = String::from_str(code);
                    return Ok(idx);
                }
            } else if kind == 88 {
                if !secret_is_discovered(idx, game) {
                    return Err(ShopError::NotDiscovered);
                } else if secret_is_unlocked(idx, game) {
                    return Err(ShopError::Duplicated);
                }
                game.secrets_unlocked[idx] = String::from_str(code);
                return Ok(idx);
            }
        }
    }
    Err(ShopError::Incorrect)
}

/// The text of the player's own code of the given kind for the level or
/// secret `idx`: the name of the player, the kind, and the letter of `idx`.
pub open spec fn own_text(game: &Game, kind: char, idx: u8) -> Seq<char> {
    game.username@.push(kind).push((idx + 65) as u8 as char)
}

/// Makes the player's own code of the given kind, `X` for a discovered
/// secret or `L` for a portal unlocked for good, and enters it. Returns the
/// code.
pub fn shop_code_generate_new(game: &mut Game, t: char, idx: u8) -> (code: String)
    requires
        old(game).takes_codes(),
        all_letters(old(game).username@),
        is_letter(t),
        idx < 26,
    ensures
        code@ == encoded(own_text(old(game), t, idx)),
        game_after_code(old(game), final(game), code@),
        final(game).takes_codes(),
        all_capitals(old(game).username@) && old(game).username@.len() == USERNAME_LEN && idx
            < NLEVELS && t == 'X' ==> recorded(
            old(game).secrets_generated@,
            final(game).secrets_generated@,
            idx as int,
            code@,
        ),
        all_capitals(old(game).username@) && old(game).username@.len() == USERNAME_LEN && idx
            < NLEVELS && t == 'L' ==> recorded(
            old(game).levels_unlocked@,
            final(game).levels_unlocked@,
            idx as int,
            code@,
        ),
{
    let mut text = String::from_str(game.username.as_str());
    push_char(&mut text, t);
    push_char(&mut text, (idx + 65) as char);
    proof {
        let plain = text@;
        assert(plain == own_text(game, t, idx));
        assert forall|i: int| 0 <= i < plain.len() implies is_letter(#[trigger] plain[i]) by {
            if i < game.username@.len() {
                assert(plain[i] == game.username@[i]);
            }
        }
        assert forall|i: int| 0 <= i < plain.len() implies '\0' <= #[trigger] plain[i]
            <= '\u{7f}' by {
            assert(is_letter(plain[i]));
        }
        lemma_encoded_is_readable(plain);
        if all_capitals(game.username@) && game.username@.len() == USERNAME_LEN && idx < NLEVELS
            && (t == 'X' || t == 'L') {
            assert forall|i: int| 0 <= i < plain.len() implies 'A' <= #[trigger] plain[i]
                <= 'Z' by {
                if i < game.username@.len() {
                    assert(plain[i] == game.username@[i]);
                }
            }
            lemma_code_round_trip(plain);
            assert(secret_of(encoded(plain)) == plain);
            assert(plain.subrange(0, game.username@.len() as int) =~= game.username@);
        }
    }
    let code = encode(text.as_str());
    let _ = shop_code_add(game, code.as_str());
    code
}

/// The code that the player is typing in the shop.
#[derive(Debug)]
pub struct Shop {
    pub input: String,
}

/// A key pressed in the shop.
#[derive(Clone, Copy, Debug, PartialEq, Eq, Structural)]
pub enum ShopKey {
    Escape,
    Backspace,
    Character(char),
}

/// A letter in upper case; any other character as it is.
pub open spec fn capital(c: char) -> char {
    if 'a' <= c && c <= 'z' {
        ((c as u8) - 32) as u8 as char
    } else {
        c
    }
}

/// What a key makes of the typed code. Escape clears it. Backspace takes
/// its last character off. A letter is added in upper case while the code
/// is shorter than `CODE_LEN`; any other character is passed over.
pub open spec fn typed(input: Seq<char>, key: ShopKey) -> Seq<char> {
    match key {
        ShopKey::Escape => Seq::empty(),
        ShopKey::Backspace => if input.len() > 0 {
            input.drop_last()
        } else {
            input
        },
        ShopKey::Character(c) => if is_letter(c) && input.len() < CODE_LEN {
            input.push(capital(c))
        } else {
            input
        },
    }
}

impl Shop {
    /// A shop in which nothing is typed yet.
    pub fn new() -> (shop: Shop)
        ensures
            shop.input@.len() == 0,
    {
        Shop { input: String::new() }
    }

    /// Whether the typed code is complete.
    pub open spec fn complete(&self) -> bool {
        self.input@.len() == CODE_LEN
    }

    /// Says whether the typed code is complete.
    pub fn is_complete(&self) -> (b: bool)
        ensures
            b == self.complete(),
    {
        self.input.as_str().unicode_len() == CODE_LEN
    }
}

/// Handles a key pressed in the shop. Returns whether the player leaves the
/// shop, which Escape asks for.
pub fn shop_keyboard_input(shop: &mut Shop, key: ShopKey) -> (leave: bool)
    ensures
        final(shop).input@ == typed(old(shop).input@, key),
        leave == (key == ShopKey::Escape),
        all_capitals(old(shop).input@) ==> all_capitals(final(shop).input@),
{
    match key {
        ShopKey::Escape => {
            shop.input = String::new();
            true
        },
        ShopKey::Backspace => {
            pop_char(&mut shop.input);
            false
        },
        ShopKey::Character(c) => {
            let letter = ('A' <= c && c <= 'Z') || ('a' <= c && c <= 'z');
            if letter && shop.input.as_str().unicode_len() < CODE_LEN {
                let upper: char = if 'a' <= c && c <= 'z' {
                    ((c as u8) - 32) as char
                } else {
                    c
                };
                push_char(&mut shop.input, upper);
            }
            false
        },
    }
}

/// Enters the typed code into the game once it is complete, and clears it.
/// Returns what became of the code, or nothing while the code is not
/// complete.
pub fn shop_update(shop: &mut Shop, game: &mut Game) -> (result: Option<Result<usize, ShopError>>)
    requires
        old(game).takes_codes(),
        old(shop).complete() ==> code_readable(old(shop).input@),
    ensures
        result is Some <==> old(shop).complete(),
        final(shop).input@ == (if old(shop).complete() {
            Seq::<char>::empty()
        } else {
            old(shop).input@
        }),
        match result {
            Some(Ok(idx)) => code_effect(old(game), old(shop).input@) is Ok && code_effect(
                old(game),
                old(shop).input@,
            )->Ok_0.1 == idx,
            Some(Err(e)) => code_effect(old(game), old(shop).input@) == Err::<
                (CodeKind, usize),
                ShopError,
            >(e),
            None => true,
        },
        old(shop).complete() ==> game_after_code(old(game), final(game), old(shop).input@),
        !old(shop).complete() ==> game_after_code(old(game), final(game), Seq::empty()),
        final(game).takes_codes(),
{
    if !shop.is_complete() {
        return None;
    }
    let result = shop_code_add(game, shop.input.as_str());
    shop.input = String::new();
    Some(result)
}

/// A typed code of capital letters can be read.
pub proof fn lemma_typed_is_readable(input: Seq<char>)
    requires
        all_capitals(input),
    ensures
        code_readable(input),
{
    assert forall|i: int| 0 <= i < input.len() implies '\0' <= #[trigger] input[i] <= '\u{7f}' by {
        assert('A' <= input[i] <= 'Z');
    }
    if input.len() > 0 {
        assert forall|i: int| 0 <= i < input.drop_last().len() implies is_letter(
            #[trigger] input.drop_last()[i],
        ) by {
            assert(input.drop_last()[i] == input[i]);
        }
    }
}

} // verus!
