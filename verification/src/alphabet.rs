//! The alphabet mapper: an uppercase letter and its zero-based position
//! (`A` = 0 .. `Z` = 25) converted into one another.

use vstd::prelude::*;

verus! {

/// The character is an uppercase Latin letter, `A`..`Z`.
pub open spec fn is_upper(c: char) -> bool {
    65 <= c as int <= 90
}

/// The zero-based alphabet position of an uppercase letter.
pub open spec fn char_pos(c: char) -> int {
    c as int - 65
}

/// The uppercase letter at a zero-based alphabet position.
pub open spec fn pos_char(i: int) -> char {
    ((i + 65) as u8) as char
}

/// The mapper is the identity from positions back to positions.
pub proof fn lemma_pos_roundtrip(i: int)
    requires
        0 <= i < 26,
    ensures
        char_pos(pos_char(i)) == i,
        is_upper(pos_char(i)),
{
}

/// The mapper is the identity from uppercase letters back to letters.
pub proof fn lemma_char_roundtrip(c: char)
    requires
        is_upper(c),
    ensures
        pos_char(char_pos(c)) == c,
{
}

/// Converts an uppercase letter to its alphabet position.
pub fn to_alpha_index(c: &char) -> (i: u8)
    requires
        is_upper(*c),
    ensures
        i as int == char_pos(*c),
        i < 26,
{
    ((*c as u32) as u8) - 65
}

/// Converts an alphabet position to its uppercase letter.
pub fn to_char(i: u8) -> (c: char)
    requires
        i < 26,
    ensures
        c == pos_char(i as int),
        is_upper(c),
{
    (i + 65) as char
}

} // verus!
