//! What holds of every run, proved of the model that [`minimize_integer`]
//! is verified against.
//!
//! [`minimize_integer`]: crate::intminimize::minimize_integer

use vstd::prelude::*;
use crate::model::{BITS, Oracle, SMALL, adopted, first_small, flip, flipped, halved, minimized, searched};

verus! {

/// The criterion holds on no value below `bound`, and fails on none.
pub open spec fn holds_nowhere_below<T>(bound: u64, o: Oracle<T>) -> bool {
    forall|v: u64| v < bound ==> #[trigger] o(v) == Ok::<bool, T>(false)
}

/// A value that the exhaustive pass returns lies below `start` and below
/// [`SMALL`], the criterion holds on it, and it does not hold on any value
/// from `i` up to it.
pub proof fn lemma_first_small_is_least<T>(start: u64, i: u64, o: Oracle<T>)
    ensures
        first_small(start, i, o) matches Some(Ok(v)) ==> {
            &&& i <= v < start
            &&& v < SMALL
            &&& o(v) == Ok::<bool, T>(true)
            &&& forall|j: u64| i <= j < v ==> #[trigger] o(j) == Ok::<bool, T>(false)
        },
    decreases SMALL - i,
{
    if i < SMALL && i < start && o(i) == Ok::<bool, T>(false) {
        lemma_first_small_is_least(start, (i + 1) as u64, o);
    }
}

/// Where the exhaustive pass finds nothing from `i` on, the criterion has
/// answered `Ok(false)` on every value that the pass covers.
pub proof fn lemma_first_small_found_nothing<T>(start: u64, i: u64, o: Oracle<T>)
    requires
        first_small(start, i, o) is None,
    ensures
        forall|j: u64| i <= j < SMALL && j < start ==> #[trigger] o(j) == Ok::<bool, T>(false),
    decreases SMALL - i,
{
    if i < SMALL && i < start {
        lemma_first_small_found_nothing(start, (i + 1) as u64, o);
    }
}

/// The halving pass ends at `best` or at a smaller value on which the
/// criterion holds.
pub proof fn lemma_halved_is_sound<T>(best: u64, o: Oracle<T>)
    ensures
        halved(best, o) matches Ok(v) ==> v == best || (v < best && o(v) == Ok::<bool, T>(true)),
    decreases best,
{
    if let Ok(next) = adopted(best, best / 2, o) {
        if next < best {
            lemma_halved_is_sound(next, o);
        }
    }
}

/// The bit-flip pass ends at `best` or at a smaller value on which the
/// criterion holds.
pub proof fn lemma_flipped_is_sound<T>(best: u64, i: u64, o: Oracle<T>)
    ensures
        flipped(best, i, o) matches Ok(v) ==> v == best || (v < best && o(v) == Ok::<bool, T>(true)),
    decreases BITS - i,
{
    if i < BITS {
        if let Ok(next) = adopted(best, flip(best, i), o) {
            lemma_flipped_is_sound(next, (i + 1) as u64, o);
        }
    }
}

/// The binary search ends at `hi` or at a value strictly between `lo` and
/// `hi` on which the criterion holds.
pub proof fn lemma_searched_is_sound<T>(lo: u64, hi: u64, o: Oracle<T>)
    ensures
        searched(lo, hi, o) matches Ok(v) ==> v == hi || (lo < v < hi && o(v) == Ok::<bool, T>(true)),
    decreases hi - lo,
{
    if lo + 1 < hi {
        let mid = (lo + (hi - lo) / 2) as u64;
        if let Ok(holds) = o(mid) {
            if holds {
                lemma_searched_is_sound(lo, mid, o);
            } else {
                lemma_searched_is_sound(mid, hi, o);
            }
        }
    }
}

/// A run never returns a value above the one it started from; a value that
/// it returns is the starting value, or one on which the criterion holds.
pub proof fn lemma_minimized_is_sound<T>(start: u64, o: Oracle<T>)
    ensures
        minimized(start, o) matches Ok(v) ==> v <= start && (v == start || o(v) == Ok::<bool, T>(
            true,
        )),
{
    lemma_first_small_is_least(start, 0, o);
    if start > SMALL {
        lemma_halved_is_sound(start, o);
        if let Ok(halved_to) = halved(start, o) {
            lemma_flipped_is_sound(halved_to, 0, o);
            if let Ok(flipped_to) = flipped(halved_to, 0, o) {
                if let Ok(next) = adopted(flipped_to, (flipped_to - 1) as u64, o) {
                    if next < flipped_to {
                        lemma_searched_is_sound(0, next, o);
                    }
                }
            }
        }
    }
}

/// A value below [`SMALL`] that a run returns, unless it is the starting
/// value, is the smallest value of all on which the criterion holds: the
/// passes that follow the exhaustive one return nothing below [`SMALL`].
pub proof fn lemma_small_result_is_least<T>(start: u64, o: Oracle<T>)
    ensures
        minimized(start, o) matches Ok(v) ==> (v < SMALL && v != start ==> {
            &&& o(v) == Ok::<bool, T>(true)
            &&& forall|j: u64| j < v ==> #[trigger] o(j) == Ok::<bool, T>(false)
        }),
{
    lemma_first_small_is_least(start, 0, o);
    lemma_minimized_is_sound(start, o);
    if start > SMALL && first_small(start, 0, o) is None {
        lemma_first_small_found_nothing(start, 0, o);
    }
}

/// Zero is a fixed point: a run from 0 returns 0, whatever the criterion.
pub proof fn lemma_zero_is_fixed<T>(o: Oracle<T>)
    ensures
        minimized(0, o) == Ok::<u64, T>(0),
{
}

/// Where the criterion holds on no value below `start` and fails on none, the
/// exhaustive pass finds nothing.
pub proof fn lemma_first_small_finds_nothing<T>(start: u64, i: u64, o: Oracle<T>)
    requires
        holds_nowhere_below(start, o),
    ensures
        first_small(start, i, o) == None::<Result<u64, T>>,
    decreases SMALL - i,
{
    if i < SMALL && i < start {
        lemma_first_small_finds_nothing(start, (i + 1) as u64, o);
    }
}

/// Where the criterion holds on no value below `best` and fails on none, the
/// bit-flip pass leaves `best` as it is.
pub proof fn lemma_flipped_keeps<T>(best: u64, i: u64, o: Oracle<T>)
    requires
        holds_nowhere_below(best, o),
    ensures
        flipped(best, i, o) == Ok::<u64, T>(best),
    decreases BITS - i,
{
    if i < BITS {
        lemma_flipped_keeps(best, (i + 1) as u64, o);
    }
}

/// Where the criterion holds on no value below `start` and fails on none, a
/// run returns `start`.
pub proof fn lemma_nothing_smaller_holds<T>(start: u64, o: Oracle<T>)
    requires
        holds_nowhere_below(start, o),
    ensures
        minimized(start, o) == Ok::<u64, T>(start),
{
    lemma_first_small_finds_nothing(start, 0, o);
    if start > SMALL {
        lemma_flipped_keeps(start, 0, o);
    }
}

/// The criterion holds from `least` upward, and nowhere else; it never fails.
pub open spec fn holds_from<T>(least: u64, o: Oracle<T>) -> bool {
    forall|v: u64| #[trigger] o(v) == Ok::<bool, T>(v >= least)
}

/// Where the criterion holds on `least` and answers `Ok(false)` on every
/// value below it, the exhaustive pass from a value up to `least` finds
/// `least`, if it is among the values that the pass covers, and nothing else.
pub proof fn lemma_first_small_finds_least<T>(start: u64, i: u64, least: u64, o: Oracle<T>)
    requires
        holds_nowhere_below(least, o),
        o(least) == Ok::<bool, T>(true),
        i <= least,
    ensures
        first_small(start, i, o) == if least < SMALL && least < start {
            Some(Ok::<u64, T>(least))
        } else {
            None
        },
    decreases SMALL - i,
{
    if i < SMALL && i < start && i < least {
        lemma_first_small_finds_least(start, (i + 1) as u64, least, o);
    }
}

/// On a criterion that holds from `least` upward, the halving pass ends at a
/// value from `least` up to `best`.
pub proof fn lemma_halved_stays_above<T>(best: u64, least: u64, o: Oracle<T>)
    requires
        holds_from(least, o),
        least <= best,
    ensures
        halved(best, o) matches Ok(v) && least <= v <= best,
    decreases best,
{
    if let Ok(next) = adopted(best, best / 2, o) {
        if next < best {
            lemma_halved_stays_above(next, least, o);
        }
    }
}

/// On a criterion that holds from `least` upward, the bit-flip pass ends at a
/// value from `least` up to `best`.
pub proof fn lemma_flipped_stays_above<T>(best: u64, i: u64, least: u64, o: Oracle<T>)
    requires
        holds_from(least, o),
        least <= best,
    ensures
        flipped(best, i, o) matches Ok(v) && least <= v <= best,
    decreases BITS - i,
{
    if i < BITS {
        if let Ok(next) = adopted(best, flip(best, i), o) {
            lemma_flipped_stays_above(next, (i + 1) as u64, least, o);
        }
    }
}

/// On a criterion that holds from `least` upward, the binary search between
/// a value below `least` and one from `least` on ends at `least`.
pub proof fn lemma_searched_finds_least<T>(lo: u64, hi: u64, least: u64, o: Oracle<T>)
    requires
        holds_from(least, o),
        lo < least <= hi,
    ensures
        searched(lo, hi, o) == Ok::<u64, T>(least),
    decreases hi - lo,
{
    if lo + 1 < hi {
        let mid = (lo + (hi - lo) / 2) as u64;
        if mid >= least {
            lemma_searched_finds_least(lo, mid, least, o);
        } else {
            lemma_searched_finds_least(mid, hi, least, o);
        }
    }
}

/// On a criterion that holds from `least` upward and nowhere else, a run from
/// a value on which it holds returns `least`: the smallest value of all on
/// which the criterion holds.
pub proof fn lemma_threshold_is_found<T>(start: u64, least: u64, o: Oracle<T>)
    requires
        holds_from(least, o),
        least <= start,
    ensures
        minimized(start, o) == Ok::<u64, T>(least),
{
    lemma_first_small_finds_least(start, 0, least, o);
    if start > SMALL && least >= SMALL {
        lemma_halved_stays_above(start, least, o);
        let halved_to = halved(start, o)->Ok_0;
        lemma_flipped_stays_above(halved_to, 0, least, o);
        let flipped_to = flipped(halved_to, 0, o)->Ok_0;
        if flipped_to > least {
            lemma_searched_finds_least(0, (flipped_to - 1) as u64, least, o);
        }
    }
}

/// The criterion holds on the values that have every bit of `mask` set, and
/// nowhere else; it never fails.
pub open spec fn holds_on_mask<T>(mask: u64, o: Oracle<T>) -> bool {
    forall|v: u64| #[trigger] o(v) == Ok::<bool, T>(v & mask == mask)
}

/// The bit positions below `i`, as a mask.
pub open spec fn low_bits(i: u64) -> u64 {
    if i >= BITS {
        u64::MAX
    } else {
        ((1u64 << i) - 1) as u64
    }
}

/// A value that has every bit of `mask` set is at least `mask`.
pub proof fn lemma_mask_is_least(v: u64, mask: u64)
    by (bit_vector)
    requires
        v & mask == mask,
    ensures
        v >= mask,
{
}

/// One step of the bit-flip pass on a value that has every bit of `mask`
/// set: the flip at position `i` is adopted where it clears a bit that is not
/// in `mask`, so that afterwards the value agrees with `mask` at that
/// position too.
proof fn lemma_flip_settles_bit(best: u64, i: u64, mask: u64, next: u64)
    by (bit_vector)
    requires
        i < 64,
        best & mask == mask,
        best & low_bits(i) == mask & low_bits(i),
        next == if flip(best, i) < best && flip(best, i) & mask == mask {
            flip(best, i)
        } else {
            best
        },
    ensures
        next <= best,
        next & mask == mask,
        next & low_bits((i + 1) as u64) == mask & low_bits((i + 1) as u64),
{
}

/// On a criterion that holds on the values with every bit of `mask` set, the
/// halving pass from such a value ends at such a value.
pub proof fn lemma_halved_keeps_mask<T>(best: u64, mask: u64, o: Oracle<T>)
    requires
        holds_on_mask(mask, o),
        best & mask == mask,
    ensures
        halved(best, o) matches Ok(v) && v & mask == mask && v <= best,
    decreases best,
{
    if let Ok(next) = adopted(best, best / 2, o) {
        if next < best {
            lemma_halved_keeps_mask(next, mask, o);
        }
    }
}

/// On a criterion that holds on the values with every bit of `mask` set, the
/// bit-flip pass from such a value clears every bit that is not in `mask`:
/// from position `i` on, where the positions below `i` are settled, it ends
/// at `mask`.
pub proof fn lemma_flipped_finds_mask<T>(best: u64, i: u64, mask: u64, o: Oracle<T>)
    requires
        holds_on_mask(mask, o),
        best & mask == mask,
        best & low_bits(i) == mask & low_bits(i),
        i <= BITS,
    ensures
        flipped(best, i, o) == Ok::<u64, T>(mask),
    decreases BITS - i,
{
    if i < BITS {
        let next = adopted(best, flip(best, i), o)->Ok_0;
        lemma_flip_settles_bit(best, i, mask, next);
        lemma_flipped_finds_mask(next, (i + 1) as u64, mask, o);
    } else {
        assert(best == mask) by (bit_vector)
            requires
                best & 0xffff_ffff_ffff_ffffu64 == mask & 0xffff_ffff_ffff_ffffu64,
        ;
    }
}

/// On a criterion that holds on the values with every bit of `mask` set, and
/// nowhere else, a run from such a value returns `mask`: the smallest value
/// of all on which the criterion holds.
pub proof fn lemma_mask_is_found<T>(start: u64, mask: u64, o: Oracle<T>)
    requires
        holds_on_mask(mask, o),
        start & mask == mask,
    ensures
        minimized(start, o) == Ok::<u64, T>(mask),
{
    lemma_mask_is_least(start, mask);
    assert forall|v: u64| v < mask implies #[trigger] o(v) == Ok::<bool, T>(false) by {
        if v & mask == mask {
            lemma_mask_is_least(v, mask);
        }
    }
    assert(mask & mask == mask) by (bit_vector);
    lemma_first_small_finds_least(start, 0, mask, o);
    if start > SMALL && mask >= SMALL {
        lemma_halved_keeps_mask(start, mask, o);
        let halved_to = halved(start, o)->Ok_0;
        assert(halved_to & 0 == mask & 0) by (bit_vector);
        assert(low_bits(0) == 0) by (bit_vector);
        lemma_flipped_finds_mask(halved_to, 0, mask, o);
    }
}

} // verus!
