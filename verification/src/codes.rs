//! The codes that record a player's progress.

use vstd::prelude::*;
use ciphers::{Cipher, CipherInputError, Vigenere};
use vstd::string::*;
use vstd::utf8::is_ascii_chars;

verus! {

/// The error of the `ciphers` crate for an input that a cipher cannot take.
#[verifier::external_type_specification]
#[verifier::external_body]
pub struct ExCipherInputError(CipherInputError);

/// The Vigenere cipher of the `ciphers` crate.
#[verifier::external_type_specification]
#[verifier::external_body]
pub struct ExVigenere(Vigenere);

/// The key that a cipher was made with, in upper case.
pub uninterp spec fn vigenere_key(cipher: Vigenere) -> Seq<char>;

/// Whether a character is a letter of the Latin alphabet.
pub open spec fn is_letter(c: char) -> bool {
    ('A' <= c && c <= 'Z') || ('a' <= c && c <= 'z')
}

/// Whether a text is made of letters of the Latin alphabet only.
pub open spec fn all_letters(text: Seq<char>) -> bool {
    forall|i: int| 0 <= i < text.len() ==> is_letter(#[trigger] text[i])
}

/// Place of a letter in the alphabet, from 0, whatever its case.
pub open spec fn letter_index(c: char) -> int {
    if 'a' <= c && c <= 'z' {
        c as int - 97
    } else {
        c as int - 65
    }
}

/// The capital letter at a place of the alphabet.
pub open spec fn letter_at(index: int) -> char {
    (65 + index) as u8 as char
}

/// A text in upper case.
pub open spec fn upper_case(text: Seq<char>) -> Seq<char> {
    Seq::new(text.len(), |i: int| letter_at(letter_index(text[i])))
}

/// A text enciphered with a key: each letter is moved on in the alphabet by
/// the place of the letter of the key that falls to it, the key being
/// repeated as often as needed.
pub open spec fn enciphered(key: Seq<char>, text: Seq<char>) -> Seq<char> {
    Seq::new(
        text.len(),
        |i: int|
            letter_at((letter_index(text[i]) + letter_index(key[i % (key.len() as int)])) % 26),
    )
}

/// A text deciphered with a key: each letter is moved back in the alphabet
/// by the place of the letter of the key that falls to it.
pub open spec fn deciphered(key: Seq<char>, text: Seq<char>) -> Seq<char> {
    Seq::new(
        text.len(),
        |i: int|
            letter_at((letter_index(text[i]) - letter_index(key[i % (key.len() as int)])) % 26),
    )
}

/// Calls `Vigenere::new`, which keeps the key in upper case. The source
/// panics unless the key is made of letters.
#[verifier::external_body]
pub(crate) fn vigenere_new(key: &str) -> (cipher: Vigenere)
    requires
        all_letters(key@),
    ensures
        vigenere_key(cipher) == upper_case(key@),
{
    Vigenere::new(key)
}

/// Calls `Vigenere::encipher`. The source refuses a text that is not made
/// of letters, and else looks each letter up in the tabula recta, in the row
/// of the letter of the key. It divides by the length of the key.
#[verifier::external_body]
pub(crate) fn vigenere_encipher(cipher: &Vigenere, text: &str) -> (result: Result<
    String,
    CipherInputError,
>)
    requires
        vigenere_key(*cipher).len() > 0,
    ensures
        result is Ok <==> all_letters(text@),
        result is Ok ==> result->Ok_0@ == enciphered(vigenere_key(*cipher), text@),
{
    cipher.encipher(text)
}

/// Calls `Vigenere::decipher`. The source refuses a text that is not made
/// of letters, and else finds each letter in the row of the tabula recta
/// that belongs to the letter of the key. It divides by the length of the
/// key.
#[verifier::external_body]
pub(crate) fn vigenere_decipher(cipher: &Vigenere, text: &str) -> (result: Result<
    String,
    CipherInputError,
>)
    requires
        vigenere_key(*cipher).len() > 0,
    ensures
        result is Ok <==> all_letters(text@),
        result is Ok ==> result->Ok_0@ == deciphered(vigenere_key(*cipher), text@),
{
    cipher.decipher(text)
}

/// Calls `String::pop`, which takes the last character off, if there is
/// one.
#[verifier::external_body]
pub(crate) fn pop_char(text: &mut String) -> (last: Option<char>)
    ensures
        old(text)@.len() == 0 ==> last is None && final(text)@ == old(text)@,
        old(text)@.len() > 0 ==> last == Some(old(text)@.last())
            && final(text)@ == old(text)@.drop_last(),
{
    text.pop()
}

/// Calls `String::push`, which adds a character at the end.
#[verifier::external_body]
pub(crate) fn push_char(text: &mut String, c: char)
    ensures
        final(text)@ == old(text)@.push(c),
{
    text.push(c)
}

/// Key of the cipher, which is turned by the check letter of each code.
pub const CIPHER_KEY: &'static str = "RUMPLESTILTSKIN";

/// Length of the key of the cipher.
pub const CIPHER_KEY_LEN: usize = 15;

/// The key of the cipher turned by `rot` letters: it starts at letter `rot`
/// and goes on with the letters before it.
pub open spec fn rotated_key(rot: int) -> Seq<char> {
    CIPHER_KEY@.subrange(rot, CIPHER_KEY_LEN as int) + CIPHER_KEY@.subrange(0, rot)
}

/// The checksum of a text before it is made a letter: for each character in
/// turn, the character's code is added and the sum is doubled, all within a
/// byte.
pub open spec fn checksum(text: Seq<char>) -> int
    decreases text.len(),
{
    if text.len() == 0 {
        0
    } else {
        (((checksum(text.drop_last()) + (text.last() as int) % 256) % 256) * 2) % 256
    }
}

/// The check letter of a text, as a byte: a capital letter that goes by the
/// checksum.
pub open spec fn check_letter(text: Seq<char>) -> u8 {
    (65 + checksum(text) % 26) as u8
}

/// The code of a text: the text enciphered with the key turned by its check
/// letter, followed by the check letter.
pub open spec fn encoded(text: Seq<char>) -> Seq<char> {
    enciphered(rotated_key(check_letter(text) as int % (CIPHER_KEY_LEN as int)), text).push(
        check_letter(text) as char,
    )
}

/// Why a code cannot be decoded.
#[derive(Clone, Copy, Debug, PartialEq, Eq, Structural)]
pub enum DecodeError {
    /// There is no code.
    Empty,
    /// The check letter does not go with the text.
    CrcFailed,
}

/// What a code decodes to: the text before its last character, deciphered
/// with the key turned by that last character, if the last character is the
/// check letter of the result.
pub open spec fn decoded(code: Seq<char>) -> Result<Seq<char>, DecodeError> {
    if code.len() == 0 {
        Err(DecodeError::Empty)
    } else {
        let expected = code.last() as u8;
        let text = deciphered(
            rotated_key(expected as int % (CIPHER_KEY_LEN as int)),
            code.drop_last(),
        );
        if check_letter(text) == expected {
            Ok(text)
        } else {
            Err(DecodeError::CrcFailed)
        }
    }
}

/// Whether a code can be read: it is plain text, and all its characters but
/// the last are letters.
pub open spec fn code_readable(code: Seq<char>) -> bool {
    is_ascii_chars(code) && (code.len() > 0 ==> all_letters(code.drop_last()))
}

/// The key is made of fifteen capital letters.
pub proof fn lemma_key_letters()
    ensures
        CIPHER_KEY@.len() == CIPHER_KEY_LEN,
        is_ascii_chars(CIPHER_KEY@),
        forall|i: int| 0 <= i < CIPHER_KEY_LEN ==> 'A' <= #[trigger] CIPHER_KEY@[i] <= 'Z',
{
    reveal_strlit("RUMPLESTILTSKIN");
    let k = CIPHER_KEY@;
    assert(k.len() == 15);
    assert forall|i: int| 0 <= i < 15 implies 'A' <= #[trigger] k[i] <= 'Z' by {}
}

/// Number of characters of a plain text.
pub fn ascii_len(text: &str) -> (n: usize)
    requires
        is_ascii(text),
    ensures
        n == text@.len(),
{
    text.unicode_len()
}

/// Says whether a text is made of letters only.
pub fn is_alpha(text: &str) -> (b: bool)
    requires
        is_ascii(text),
    ensures
        b == all_letters(text@),
{
    let n = ascii_len(text);
    let mut i: usize = 0;
    while i < n
        invariant
            i <= n,
            n == text@.len(),
            is_ascii(text),
            forall|k: int| 0 <= k < i ==> is_letter(#[trigger] text@[k]),
        decreases n - i,
    {
        let b = text.get_ascii(i);
        if !((65 <= b && b <= 90) || (97 <= b && b <= 122)) {
            assert(!is_letter(text@[i as int]));
            return false;
        }
        i = i + 1;
    }
    true
}

/// Says whether a code can be read.
pub fn code_is_readable(code: &str) -> (b: bool)
    ensures
        b == code_readable(code@),
{
    if !code.is_ascii() {
        return false;
    }
    let n = ascii_len(code);
    if n == 0 {
        return true;
    }
    let body = code.substring_ascii(0, n - 1);
    proof {
        assert(body@ =~= code@.drop_last());
    }
    is_alpha(body)
}

/// The check letter of a text.
pub fn calculate_crc(input: &str) -> (crc: u8)
    requires
        is_ascii(input),
    ensures
        crc == check_letter(input@),
        65 <= crc <= 90,
{
    let n = ascii_len(input);
    let mut sum: u8 = 0;
    let mut i: usize = 0;
    while i < n
        invariant
            i <= n,
            n == input@.len(),
            is_ascii(input),
            sum == checksum(input@.subrange(0, i as int)),
        decreases n - i,
    {
        let b = input.get_ascii(i);
        proof {
            assert(input@.subrange(0, i + 1).drop_last() =~= input@.subrange(0, i as int));
            assert(input@.subrange(0, i + 1).last() == input@[i as int]);
            assert(input@[i as int] as int == b);
        }
        let added: u16 = (sum as u16 + b as u16) % 256;
        sum = ((added * 2) % 256) as u8;
        i = i + 1;
    }
    proof {
        assert(input@.subrange(0, n as int) =~= input@);
    }
    65 + sum % 26
}

/// The cipher whose key is turned by a check letter.
fn cipher_for(crc: u8) -> (cipher: Vigenere)
    ensures
        vigenere_key(cipher) == rotated_key(crc as int % (CIPHER_KEY_LEN as int)),
        vigenere_key(cipher).len() == CIPHER_KEY_LEN,
{
    proof {
        lemma_key_letters();
    }
    let rot: usize = (crc as usize) % CIPHER_KEY_LEN;
    let mut key = String::from_str(CIPHER_KEY.substring_ascii(rot, CIPHER_KEY_LEN));
    key.append(CIPHER_KEY.substring_ascii(0, rot));
    proof {
        let k = key@;
        assert(k =~= rotated_key(rot as int));
        assert forall|i: int| 0 <= i < k.len() implies 'A' <= #[trigger] k[i] <= 'Z' by {
            if i < CIPHER_KEY_LEN - rot {
                assert(k[i] == CIPHER_KEY@[rot + i]);
            } else {
                assert(k[i] == CIPHER_KEY@[i - (CIPHER_KEY_LEN - rot)]);
            }
        }
        assert(upper_case(k) =~= k);
    }
    vigenere_new(key.as_str())
}

/// Makes the code of a text of letters.
pub fn encode(s: &str) -> (code: String)
    requires
        is_ascii(s),
        all_letters(s@),
    ensures
        code@ == encoded(s@),
{
    let crc: u8 = calculate_crc(s);
    let cipher = cipher_for(crc);
    let result = vigenere_encipher(&cipher, s);
    let mut code = result.unwrap();
    push_char(&mut code, crc as char);
    code
}

/// Reads a code: the text it was made of, if its check letter agrees.
pub fn decode(s: &str) -> (result: Result<String, DecodeError>)
    requires
        code_readable(s@),
    ensures
        match result {
            Ok(text) => decoded(s@) == Ok::<Seq<char>, DecodeError>(text@),
            Err(e) => decoded(s@) == Err::<Seq<char>, DecodeError>(e),
        },
        result is Ok ==> is_ascii_chars(result->Ok_0@) && result->Ok_0@.len() == s@.len() - 1,
{
    let n = ascii_len(s);
    if n == 0 {
        return Err(DecodeError::Empty);
    }
    let expected: u8 = s.get_ascii(n - 1);
    let body = s.substring_ascii(0, n - 1);
    let cipher = cipher_for(expected);
    proof {
        assert(body@ =~= s@.drop_last());
        assert(s@.last() as u8 == expected);
    }
    let text = vigenere_decipher(&cipher, body).unwrap();
    proof {
        lemma_deciphered_is_plain(vigenere_key(cipher), body@);
    }
    if calculate_crc(text.as_str()) == expected {
        Ok(text)
    } else {
        Err(DecodeError::CrcFailed)
    }
}

/// A deciphered text is made of capital letters.
pub proof fn lemma_deciphered_is_plain(key: Seq<char>, text: Seq<char>)
    requires
        key.len() > 0,
    ensures
        is_ascii_chars(deciphered(key, text)),
        forall|i: int|
            0 <= i < text.len() ==> 'A' <= #[trigger] deciphered(key, text)[i] <= 'Z',
        deciphered(key, text).len() == text.len(),
{
    let d = deciphered(key, text);
    assert forall|i: int| 0 <= i < d.len() implies 'A' <= #[trigger] d[i] <= 'Z' by {
        let k = (letter_index(text[i]) - letter_index(key[i % (key.len() as int)])) % 26;
        assert(0 <= k < 26);
    }
}

/// An enciphered text is made of capital letters.
pub proof fn lemma_enciphered_is_plain(key: Seq<char>, text: Seq<char>)
    requires
        key.len() > 0,
    ensures
        is_ascii_chars(enciphered(key, text)),
        forall|i: int|
            0 <= i < text.len() ==> 'A' <= #[trigger] enciphered(key, text)[i] <= 'Z',
        enciphered(key, text).len() == text.len(),
{
    let d = enciphered(key, text);
    assert forall|i: int| 0 <= i < d.len() implies 'A' <= #[trigger] d[i] <= 'Z' by {
        let k = (letter_index(text[i]) + letter_index(key[i % (key.len() as int)])) % 26;
        assert(0 <= k < 26);
    }
}

/// Whether a text is made of capital letters only.
pub open spec fn all_capitals(text: Seq<char>) -> bool {
    forall|i: int| 0 <= i < text.len() ==> 'A' <= #[trigger] text[i] <= 'Z'
}

/// Deciphering undoes enciphering: a text of capital letters that was
/// enciphered with a key of capital letters deciphers to itself.
pub proof fn lemma_decipher_undoes_encipher(key: Seq<char>, text: Seq<char>)
    requires
        key.len() > 0,
        all_capitals(key),
        all_capitals(text),
    ensures
        deciphered(key, enciphered(key, text)) == text,
{
    let e = enciphered(key, text);
    let d = deciphered(key, e);
    assert forall|i: int| 0 <= i < text.len() implies d[i] == text[i] by {
        let kc = key[i % (key.len() as int)];
        assert('A' <= kc <= 'Z');
        let a = letter_index(text[i]);
        let k = letter_index(kc);
        let m = (a + k) % 26;
        assert(letter_index(letter_at(m)) == m);
        assert((m - k) % 26 == a);
    }
    assert(d =~= text);
}

/// A code reads back as the text it was made of: decoding the code of a
/// text of capital letters gives that text.
pub proof fn lemma_code_round_trip(text: Seq<char>)
    requires
        all_capitals(text),
    ensures
        decoded(encoded(text)) == Ok::<Seq<char>, DecodeError>(text),
        code_readable(encoded(text)),
        encoded(text).len() == text.len() + 1,
{
    lemma_key_letters();
    let crc = check_letter(text);
    let rot = crc as int % (CIPHER_KEY_LEN as int);
    let key = rotated_key(rot);
    assert forall|i: int| 0 <= i < key.len() implies 'A' <= #[trigger] key[i] <= 'Z' by {
        if i < CIPHER_KEY_LEN - rot {
            assert(key[i] == CIPHER_KEY@[rot + i]);
        } else {
            assert(key[i] == CIPHER_KEY@[i - (CIPHER_KEY_LEN - rot)]);
        }
    }
    let body = enciphered(key, text);
    let code = encoded(text);
    lemma_enciphered_is_plain(key, text);
    lemma_decipher_undoes_encipher(key, text);
    assert(code.drop_last() =~= body);
    assert(code.last() == crc as char);
    assert(code.last() as u8 == crc);
    assert forall|i: int| 0 <= i < code.len() implies '\0' <= #[trigger] code[i] <= '\u{7f}' by {
        if i < body.len() {
            assert(code[i] == body[i]);
        }
    }
    assert forall|i: int| 0 <= i < body.len() implies is_letter(#[trigger] body[i]) by {}
}

/// The text of a code that decodes is made of capital letters, one less
/// than the code has characters.
pub proof fn lemma_decoded_is_plain(code: Seq<char>)
    ensures
        match decoded(code) {
            Ok(text) => text.len() == code.len() - 1 && all_capitals(text),
            Err(_) => true,
        },
{
    if code.len() > 0 {
        lemma_key_letters();
        let expected = code.last() as u8;
        lemma_deciphered_is_plain(
            rotated_key(expected as int % (CIPHER_KEY_LEN as int)),
            code.drop_last(),
        );
    }
}

/// The code of a text of letters can be read.
pub proof fn lemma_encoded_is_readable(text: Seq<char>)
    requires
        all_letters(text),
    ensures
        code_readable(encoded(text)),
{
    lemma_key_letters();
    let crc = check_letter(text);
    let key = rotated_key(crc as int % (CIPHER_KEY_LEN as int));
    let body = enciphered(key, text);
    let code = encoded(text);
    lemma_enciphered_is_plain(key, text);
    assert(code.drop_last() =~= body);
    assert forall|i: int| 0 <= i < code.len() implies '\0' <= #[trigger] code[i] <= '\u{7f}' by {
        if i < body.len() {
            assert(code[i] == body[i]);
        }
    }
    assert forall|i: int| 0 <= i < body.len() implies is_letter(#[trigger] body[i]) by {}
}

} // verus!
