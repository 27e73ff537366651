//! Slot-size arithmetic: rounding an element size up to an alignment boundary.

use vstd::prelude::*;
use vstd::arithmetic::div_mod::lemma_fundamental_div_mod;
use vstd::arithmetic::div_mod::lemma_mod_division_less_than_divisor;
use vstd::arithmetic::div_mod::lemma_mod_multiples_basic;

verus! {

/// The smallest multiple of `min_alignment` that is at least `type_size`.
pub open spec fn aligned_size(type_size: int, min_alignment: int) -> int
    recommends
        min_alignment >= 1,
        type_size >= 0,
{
    if type_size % min_alignment == 0 {
        type_size
    } else {
        (type_size / min_alignment + 1) * min_alignment
    }
}

/// Rounds `type_size` up to the next multiple of `min_alignment`, so that
/// consecutive slots of the resulting byte size all start on a
/// `min_alignment` boundary.
pub fn size_align(type_size: usize, min_alignment: usize) -> (slot_size: usize)
    requires
        min_alignment >= 1,
        type_size + min_alignment <= usize::MAX,
    ensures
        slot_size == aligned_size(type_size as int, min_alignment as int),
        slot_size % min_alignment == 0,
        type_size <= slot_size,
        slot_size < type_size + min_alignment,
{
    let ghost t: int = type_size as int;
    let ghost a: int = min_alignment as int;
    proof {
        lemma_fundamental_div_mod(t, a);
        lemma_mod_division_less_than_divisor(t, a);
        lemma_mod_multiples_basic(t / a + 1, a);
        assert((t / a) * a == a * (t / a)) by (nonlinear_arith);
        assert((t / a + 1) * a == (t / a) * a + a) by (nonlinear_arith);
    }

    let mut tmp: usize = type_size / min_alignment;

    if (type_size % min_alignment) != 0 {
        tmp += 1;
    }

    tmp * min_alignment
}

} // verus!
