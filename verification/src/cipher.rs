//! The rotation cipher engine: encryption and decryption of uppercase text
//! with a repeating key, each letter shifted by the alphabet position of the
//! key letter at the same position, the key cycling as needed.

use vstd::prelude::*;
use vstd::arithmetic::div_mod::lemma_mod_add_multiples_vanish;
use crate::alphabet::is_upper;
use crate::alphabet::char_pos;
use crate::alphabet::pos_char;
use crate::alphabet::lemma_pos_roundtrip;
use crate::alphabet::lemma_char_roundtrip;
use crate::alphabet::to_alpha_index;
use crate::alphabet::to_char;
use crate::rotate::rot_forward;
use crate::rotate::rot_backward;
use crate::rotate::lemma_rot_in_range;
use crate::rotate::lemma_rot_inverse;
use crate::rotate::rotate_index;
use crate::rotate::reverse_rotate_index;

verus! {

/// Why a key or a text was rejected.
#[derive(Clone, Copy, Debug, PartialEq, Eq, Structural)]
pub enum CipherError {
    /// The key is empty; there is no character to shift by.
    EmptyKey,
    /// The key or the text holds a character outside `A`..`Z`.
    InvalidCharacter,
}

/// Every character of the sequence is an uppercase Latin letter.
pub open spec fn all_upper(s: Seq<char>) -> bool {
    forall|i: int| 0 <= i < s.len() ==> is_upper(#[trigger] s[i])
}

/// A valid key: non-empty, all characters uppercase letters.
pub open spec fn valid_key(key: Seq<char>) -> bool {
    key.len() > 0 && all_upper(key)
}

/// The ciphertext: each letter shifted forward by the alphabet position of
/// the key letter at the same position, the key cycling.
pub open spec fn enc_seq(key: Seq<char>, text: Seq<char>) -> Seq<char>
    recommends
        valid_key(key),
        all_upper(text),
{
    Seq::new(
        text.len(),
        |i: int| pos_char(rot_forward(char_pos(text[i]), char_pos(key[i % (key.len() as int)]))),
    )
}

/// The plaintext: each letter shifted backward by the alphabet position of
/// the key letter at the same position, the key cycling.
pub open spec fn dec_seq(key: Seq<char>, text: Seq<char>) -> Seq<char>
    recommends
        valid_key(key),
        all_upper(text),
{
    Seq::new(
        text.len(),
        |i: int| pos_char(rot_backward(char_pos(text[i]), char_pos(key[i % (key.len() as int)]))),
    )
}

/// Relies on String::push: appends the given character to the end of the string.
#[verifier::external_body]
fn push_char(s: &mut String, c: char)
    ensures
        final(s)@ == old(s)@.push(c),
{
    s.push(c);
}

/// Reports whether every character of the string is an uppercase letter.
fn scan_upper(s: &str) -> (ok: bool)
    ensures
        ok == all_upper(s@),
{
    let n = s.unicode_len();
    let mut j: usize = 0;
    while j < n
        invariant
            j <= n,
            n == s@.len(),
            forall|i: int| 0 <= i < j ==> is_upper(#[trigger] s@[i]),
        decreases n - j,
    {
        let c = s.get_char(j);
        let u = c as u32;
        if u < 65 || u > 90 {
            assert(!is_upper(s@[j as int]));
            return false;
        }
        j += 1;
    }
    true
}

/// Encrypts `val` with `key`. Returns the ciphertext, of the same length as
/// `val`; an empty key is rejected as `EmptyKey`, a character outside
/// `A`..`Z` in the key or the text as `InvalidCharacter`.
pub fn enc(key: String, val: String) -> (result: Result<String, CipherError>)
    ensures
        key@.len() == 0 ==> result == Err::<String, CipherError>(CipherError::EmptyKey),
        key@.len() > 0 && !(all_upper(key@) && all_upper(val@)) ==> result == Err::<
            String,
            CipherError,
        >(CipherError::InvalidCharacter),
        valid_key(key@) && all_upper(val@) ==> (result matches Ok(out) && out@ == enc_seq(
            key@,
            val@,
        )),
        result matches Ok(out) ==> out@.len() == val@.len(),
{
    let key_len = key.as_str().unicode_len();
    if key_len == 0 {
        return Err(CipherError::EmptyKey);
    }
    if !scan_upper(key.as_str()) || !scan_upper(val.as_str()) {
        return Err(CipherError::InvalidCharacter);
    }
    let n = val.as_str().unicode_len();
    let mut out = String::new();
    let mut j: usize = 0;
    while j < n
        invariant
            valid_key(key@),
            all_upper(val@),
            key_len == key@.len(),
            n == val@.len(),
            j <= n,
            out@ == enc_seq(key@, val@).take(j as int),
        decreases n - j,
    {
        let c = val.as_str().get_char(j);
        let kc = key.as_str().get_char(j % key_len);
        let p = to_alpha_index(&c);
        let k = to_alpha_index(&kc);
        let r = rotate_index(p, k);
        proof {
            lemma_rot_in_range(p as int, k as int);
        }
        push_char(&mut out, to_char(r));
        proof {
            assert(out@ =~= enc_seq(key@, val@).take(j as int + 1));
        }
        j += 1;
    }
    proof {
        assert(out@ =~= enc_seq(key@, val@));
    }
    Ok(out)
}

/// Decrypts `val` with `key`. Returns the plaintext, of the same length as
/// `val`; an empty key is rejected as `EmptyKey`, a character outside
/// `A`..`Z` in the key or the text as `InvalidCharacter`.
pub fn dec(key: String, val: String) -> (result: Result<String, CipherError>)
    ensures
        key@.len() == 0 ==> result == Err::<String, CipherError>(CipherError::EmptyKey),
        key@.len() > 0 && !(all_upper(key@) && all_upper(val@)) ==> result == Err::<
            String,
            CipherError,
        >(CipherError::InvalidCharacter),
        valid_key(key@) && all_upper(val@) ==> (result matches Ok(out) && out@ == dec_seq(
            key@,
            val@,
        )),
        result matches Ok(out) ==> out@.len() == val@.len(),
{
    let key_len = key.as_str().unicode_len();
    if key_len == 0 {
        return Err(CipherError::EmptyKey);
    }
    if !scan_upper(key.as_str()) || !scan_upper(val.as_str()) {
        return Err(CipherError::InvalidCharacter);
    }
    let n = val.as_str().unicode_len();
    let mut out = String::new();
    let mut j: usize = 0;
    while j < n
        invariant
            valid_key(key@),
            all_upper(val@),
            key_len == key@.len(),
            n == val@.len(),
            j <= n,
            out@ == dec_seq(key@, val@).take(j as int),
        decreases n - j,
    {
        let c = val.as_str().get_char(j);
        let kc = key.as_str().get_char(j % key_len);
        let p = to_alpha_index(&c);
        let k = to_alpha_index(&kc);
        let r = reverse_rotate_index(p, k);
        proof {
            lemma_rot_in_range(p as int, k as int);
        }
        push_char(&mut out, to_char(r));
        proof {
            assert(out@ =~= dec_seq(key@, val@).take(j as int + 1));
        }
        j += 1;
    }
    proof {
        assert(out@ =~= dec_seq(key@, val@));
    }
    Ok(out)
}

/// The ciphertext is made of uppercase letters again, and so is the
/// plaintext: either transform stays inside the alphabet.
pub proof fn lemma_stays_upper(key: Seq<char>, text: Seq<char>)
    requires
        valid_key(key),
        all_upper(text),
    ensures
        all_upper(enc_seq(key, text)),
        all_upper(dec_seq(key, text)),
{
    assert forall|i: int| 0 <= i < text.len() implies is_upper(#[trigger] enc_seq(key, text)[i])
        && is_upper(#[trigger] dec_seq(key, text)[i]) by {
        let p = char_pos(text[i]);
        let k = char_pos(key[i % (key.len() as int)]);
        lemma_rot_in_range(p, k);
        lemma_pos_roundtrip(rot_forward(p, k));
        lemma_pos_roundtrip(rot_backward(p, k));
    }
}

/// The inverse law: decryption undoes encryption, and encryption undoes
/// decryption, for every valid key and uppercase text.
pub proof fn lemma_inverse(key: Seq<char>, text: Seq<char>)
    requires
        valid_key(key),
        all_upper(text),
    ensures
        dec_seq(key, enc_seq(key, text)) == text,
        enc_seq(key, dec_seq(key, text)) == text,
{
    lemma_stays_upper(key, text);
    assert forall|i: int| 0 <= i < text.len() implies dec_seq(key, enc_seq(key, text))[i]
        == text[i] && enc_seq(key, dec_seq(key, text))[i] == text[i] by {
        let p = char_pos(text[i]);
        let k = char_pos(key[i % (key.len() as int)]);
        lemma_rot_in_range(p, k);
        lemma_rot_inverse(p, k);
        lemma_pos_roundtrip(rot_forward(p, k));
        lemma_pos_roundtrip(rot_backward(p, k));
        lemma_char_roundtrip(text[i]);
    }
    assert(dec_seq(key, enc_seq(key, text)) =~= text);
    assert(enc_seq(key, dec_seq(key, text)) =~= text);
}

/// The empty text encrypts and decrypts to the empty text, whatever the key.
pub proof fn lemma_empty_text(key: Seq<char>)
    requires
        valid_key(key),
    ensures
        enc_seq(key, Seq::<char>::empty()) == Seq::<char>::empty(),
        dec_seq(key, Seq::<char>::empty()) == Seq::<char>::empty(),
{
    assert(enc_seq(key, Seq::<char>::empty()) =~= Seq::<char>::empty());
    assert(dec_seq(key, Seq::<char>::empty()) =~= Seq::<char>::empty());
}

/// Key cycling: the key character applied at position `i + key.len()` is the
/// one applied at position `i`, so key characters are reused periodically.
pub proof fn lemma_key_cycling(key: Seq<char>, text: Seq<char>, i: int)
    requires
        valid_key(key),
        all_upper(text),
        0 <= i,
        i + key.len() < text.len(),
    ensures
        enc_seq(key, text)[i + key.len()] == pos_char(
            rot_forward(char_pos(text[i + key.len()]), char_pos(key[i % (key.len() as int)])),
        ),
        dec_seq(key, text)[i + key.len()] == pos_char(
            rot_backward(char_pos(text[i + key.len()]), char_pos(key[i % (key.len() as int)])),
        ),
{
    lemma_mod_add_multiples_vanish(i, key.len() as int);
    assert((i + key.len() as int) % (key.len() as int) == i % (key.len() as int));
}

} // verus!
