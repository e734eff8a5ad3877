//! The rotators: an alphabet position shifted forward or backward by an
//! offset, wrapping modulo 26. The backward rotator uses floor modulo, so
//! its result is in `0..26` even when the difference is negative.

use vstd::prelude::*;
use vstd::arithmetic::div_mod::lemma_mod_add_multiples_vanish;
use vstd::arithmetic::div_mod::lemma_small_mod;

verus! {

/// A position shifted forward by an offset, wrapping modulo 26.
pub open spec fn rot_forward(p: int, k: int) -> int {
    (p + k) % 26
}

/// A position shifted backward by an offset, wrapping modulo 26.
/// `%` on `int` keeps the result in `0..26`, whatever the sign of `p - k`.
pub open spec fn rot_backward(p: int, k: int) -> int {
    (p - k) % 26
}

/// Either rotation of a position lands on a position again.
pub proof fn lemma_rot_in_range(p: int, k: int)
    requires
        0 <= p < 26,
        0 <= k < 26,
    ensures
        0 <= rot_forward(p, k) < 26,
        0 <= rot_backward(p, k) < 26,
{
    if p + k < 26 {
        lemma_small_mod((p + k) as nat, 26);
    } else {
        lemma_mod_add_multiples_vanish(p + k - 26, 26);
        lemma_small_mod((p + k - 26) as nat, 26);
    }
    if p - k >= 0 {
        lemma_small_mod((p - k) as nat, 26);
    } else {
        lemma_mod_add_multiples_vanish(p - k, 26);
        lemma_small_mod((p - k + 26) as nat, 26);
    }
}

/// The backward rotation undoes the forward one, and the other way round.
pub proof fn lemma_rot_inverse(p: int, k: int)
    requires
        0 <= p < 26,
        0 <= k < 26,
    ensures
        rot_backward(rot_forward(p, k), k) == p,
        rot_forward(rot_backward(p, k), k) == p,
{
    if p + k < 26 {
        lemma_small_mod((p + k) as nat, 26);
    } else {
        lemma_mod_add_multiples_vanish(p + k - 26, 26);
        lemma_small_mod((p + k - 26) as nat, 26);
    }
    if p - k >= 0 {
        lemma_small_mod((p - k) as nat, 26);
    } else {
        lemma_mod_add_multiples_vanish(p - k, 26);
        lemma_small_mod((p - k + 26) as nat, 26);
    }
    lemma_small_mod(p as nat, 26);
    lemma_mod_add_multiples_vanish(p - 26, 26);
}

/// Shifts a position forward by an offset, wrapping past `Z` to `A`.
pub fn rotate_index(i: u8, amt: u8) -> (r: u8)
    requires
        i < 26,
        amt < 26,
    ensures
        r as int == rot_forward(i as int, amt as int),
        r < 26,
{
    (i + amt) % 26
}

/// Shifts a position backward by an offset, wrapping past `A` to `Z`.
pub fn reverse_rotate_index(i: u8, amt: u8) -> (r: u8)
    requires
        i < 26,
        amt < 26,
    ensures
        r as int == rot_backward(i as int, amt as int),
        r < 26,
{
    proof {
        lemma_mod_add_multiples_vanish(i as int - amt as int, 26);
    }
    (i + 26 - amt) % 26
}

} // verus!
