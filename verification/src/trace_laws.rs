//! What holds of the values that a run asks the criterion about.

use vstd::prelude::*;
use vstd::arithmetic::power2::{pow2, lemma2_to64, lemma_pow2_unfold};
use crate::laws::{holds_nowhere_below, lemma_first_small_found_nothing, lemma_flipped_is_sound, lemma_halved_is_sound};
use crate::model::{BITS, Oracle, SMALL, adopted, first_small, flip, flipped, halved, minimized, probed, searched, shrunk};
use crate::trace::{all_below, asked, bit_length, fails_last, failure, first_small_asks, flipped_asks, halved_asks, most_asks, probed_asks, searched_asks, shrunk_asks, test_asks};

verus! {

/// Two stretches of asking, one after the other: where the first ends
/// without an error, the whole ends as the second does.
proof fn lemma_asks_join<T>(
    first: Seq<u64>,
    rest: Seq<u64>,
    bound: u64,
    failed: Option<T>,
    o: Oracle<T>,
)
    requires
        all_below(first, bound),
        all_below(rest, bound),
        fails_last(first, None::<T>, o),
        fails_last(rest, failed, o),
    ensures
        all_below(first + rest, bound),
        fails_last(first + rest, failed, o),
{
    let whole = first + rest;
    assert forall|k: int| 0 <= k < whole.len() implies #[trigger] whole[k] < bound by {
        if k < first.len() {
            assert(whole[k] == first[k]);
        } else {
            assert(whole[k] == rest[k - first.len()]);
        }
    }
    assert forall|k: int| 0 <= k < whole.len() - 1 implies o(#[trigger] whole[k]) is Ok by {
        if k < first.len() {
            assert(whole[k] == first[k]);
        } else {
            assert(whole[k] == rest[k - first.len()]);
        }
    }
    if rest.len() > 0 {
        assert(whole.last() == rest.last());
    } else {
        assert(whole =~= first);
    }
}

/// A stretch of asking that ends with an error, or that nothing follows.
proof fn lemma_asks_end(asks: Seq<u64>)
    ensures
        asks + Seq::<u64>::empty() == asks,
{
    assert(asks + Seq::<u64>::empty() =~= asks);
}

/// The exhaustive pass asks values below `start` and below [`SMALL`], at most
/// one for each of them from `i` on, and ends at the first error.
pub proof fn lemma_first_small_asks<T>(start: u64, i: u64, o: Oracle<T>)
    ensures
        all_below(first_small_asks(start, i, o), start),
        fails_last(
            first_small_asks(start, i, o),
            match first_small(start, i, o) {
                Some(r) => failure(r),
                None => None,
            },
            o,
        ),
        i <= SMALL && i <= start ==> first_small_asks(start, i, o).len() + i <= SMALL
            && first_small_asks(start, i, o).len() + i <= start,
    decreases SMALL - i,
{
    if i < SMALL && i < start {
        if o(i) == Ok::<bool, T>(false) {
            let next = (i + 1) as u64;
            lemma_first_small_asks(start, next, o);
            lemma_asks_join(
                seq![i],
                first_small_asks(start, next, o),
                start,
                match first_small(start, next, o) {
                    Some(r) => failure(r),
                    None => None,
                },
                o,
            );
        }
    }
}

/// The halving pass asks values below `best`, and ends at the first error.
pub proof fn lemma_halved_asks<T>(best: u64, o: Oracle<T>)
    ensures
        all_below(halved_asks(best, o), best),
        fails_last(halved_asks(best, o), failure(halved(best, o)), o),
    decreases best,
{
    let head = test_asks(best, best / 2);
    lemma_asks_end(head);
    if let Ok(next) = adopted(best, best / 2, o) {
        if next < best {
            lemma_halved_asks(next, o);
            lemma_asks_join(head, halved_asks(next, o), best, failure(halved(next, o)), o);
        }
    }
}

/// The bit-flip pass asks values below `best`, at most one for each position
/// from `i` on, and ends at the first error.
pub proof fn lemma_flipped_asks<T>(best: u64, i: u64, o: Oracle<T>)
    ensures
        all_below(flipped_asks(best, i, o), best),
        fails_last(flipped_asks(best, i, o), failure(flipped(best, i, o)), o),
        i <= BITS ==> flipped_asks(best, i, o).len() <= BITS - i,
    decreases BITS - i,
{
    if i < BITS {
        let head = test_asks(best, flip(best, i));
        lemma_asks_end(head);
        if let Ok(next) = adopted(best, flip(best, i), o) {
            let then = (i + 1) as u64;
            lemma_flipped_asks(next, then, o);
            lemma_asks_join(head, flipped_asks(next, then, o), best, failure(flipped(next, then, o)), o);
        }
    }
}

/// A larger number has no fewer binary digits.
pub proof fn lemma_bit_length_grows(a: nat, b: nat)
    requires
        a <= b,
    ensures
        bit_length(a) <= bit_length(b),
    decreases b,
{
    if a > 0 {
        lemma_bit_length_grows(a / 2, b / 2);
    }
}

/// The binary search asks values below `hi`, no more of them than the
/// interval below `hi` has binary digits, and ends at the first error.
pub proof fn lemma_searched_asks<T>(lo: u64, hi: u64, o: Oracle<T>)
    ensures
        all_below(searched_asks(lo, hi, o), hi),
        fails_last(searched_asks(lo, hi, o), failure(searched(lo, hi, o)), o),
        lo < hi ==> searched_asks(lo, hi, o).len() <= bit_length((hi - lo - 1) as nat),
    decreases hi - lo,
{
    if lo + 1 < hi {
        let mid = (lo + (hi - lo) / 2) as u64;
        let head = seq![mid];
        lemma_asks_end(head);
        assert((hi - lo - 1) / 2 == hi - mid - 1);
        if let Ok(holds) = o(mid) {
            if holds {
                lemma_searched_asks(lo, mid, o);
                lemma_asks_join(head, searched_asks(lo, mid, o), hi, failure(searched(lo, mid, o)), o);
                lemma_bit_length_grows((mid - lo - 1) as nat, (hi - mid - 1) as nat);
            } else {
                lemma_searched_asks(mid, hi, o);
                lemma_asks_join(head, searched_asks(mid, hi, o), hi, failure(searched(mid, hi, o)), o);
            }
        }
    }
}

/// Where the criterion holds on no value below [`SMALL`], and fails on none,
/// the halving pass stays at or above [`SMALL`], and asks at most once for
/// each binary digit of `best` but two.
pub proof fn lemma_halved_asks_few<T>(best: u64, o: Oracle<T>)
    requires
        holds_nowhere_below(SMALL, o),
        best >= SMALL,
    ensures
        halved_asks(best, o).len() + 2 <= bit_length(best as nat),
        halved(best, o) matches Ok(v) ==> SMALL <= v <= best,
    decreases best,
{
    reveal_with_fuel(bit_length, 3);
    lemma_asks_end(test_asks(best, best / 2));
    if let Ok(next) = adopted(best, best / 2, o) {
        if next < best {
            lemma_halved_asks_few(next, o);
        }
    }
}

/// Where the criterion holds on no value below [`SMALL`], and fails on none,
/// the bit-flip pass stays at or above [`SMALL`].
pub proof fn lemma_flipped_stays_above_small<T>(best: u64, i: u64, o: Oracle<T>)
    requires
        holds_nowhere_below(SMALL, o),
        best >= SMALL,
    ensures
        flipped(best, i, o) matches Ok(v) ==> SMALL <= v <= best,
{
    lemma_flipped_is_sound(best, i, o);
}

/// The decrement probe and the binary search ask values below `best`, at
/// most one and then one for each binary digit of `best - 2`, and end at the
/// first error.
pub proof fn lemma_probed_asks<T>(best: u64, o: Oracle<T>)
    ensures
        all_below(probed_asks(best, o), best),
        fails_last(probed_asks(best, o), failure(probed(best, o)), o),
        best >= 2 ==> probed_asks(best, o).len() <= 1 + bit_length((best - 2) as nat),
{
    let head = test_asks(best, (best - 1) as u64);
    lemma_asks_end(head);
    if let Ok(next) = adopted(best, (best - 1) as u64, o) {
        if next < best {
            lemma_searched_asks(0, next, o);
            lemma_asks_join(head, searched_asks(0, next, o), best, failure(searched(0, next, o)), o);
        }
    }
}

/// The passes that track a best value ask values below `start`, and end at
/// the first error.
pub proof fn lemma_shrunk_asks<T>(start: u64, o: Oracle<T>)
    ensures
        all_below(shrunk_asks(start, o), start),
        fails_last(shrunk_asks(start, o), failure(shrunk(start, o)), o),
{
    let halving = halved_asks(start, o);
    lemma_halved_asks(start, o);
    lemma_halved_is_sound(start, o);
    lemma_asks_end(halving);
    if let Ok(halved_to) = halved(start, o) {
        let flipping = flipped_asks(halved_to, 0, o);
        lemma_flipped_asks(halved_to, 0, o);
        lemma_flipped_is_sound(halved_to, 0, o);
        lemma_asks_end(flipping);
        if let Ok(flipped_to) = flipped(halved_to, 0, o) {
            let probing = probed_asks(flipped_to, o);
            lemma_probed_asks(flipped_to, o);
            lemma_asks_join(flipping, probing, start, failure(probed(flipped_to, o)), o);
            lemma_asks_join(halving, flipping + probing, start, failure(probed(flipped_to, o)), o);
        } else {
            lemma_asks_join(halving, flipping, start, failure(flipped(halved_to, 0, o)), o);
        }
    }
}

/// Where the criterion holds on no value below [`SMALL`], and fails on none,
/// the passes that track a best value ask, from a `start` above [`SMALL`],
/// no more than [`most_asks`] allows them.
pub proof fn lemma_shrunk_asks_few<T>(start: u64, o: Oracle<T>)
    requires
        holds_nowhere_below(SMALL, o),
        start > SMALL,
    ensures
        SMALL + shrunk_asks(start, o).len() <= most_asks(start),
{
    lemma_halved_asks_few(start, o);
    if let Ok(halved_to) = halved(start, o) {
        lemma_flipped_asks(halved_to, 0, o);
        lemma_flipped_stays_above_small(halved_to, 0, o);
        if let Ok(flipped_to) = flipped(halved_to, 0, o) {
            lemma_probed_asks(flipped_to, o);
            lemma_bit_length_grows((flipped_to - 2) as nat, (start - 2) as nat);
        }
    }
}

/// Every value that a run asks the criterion about is below the starting
/// value.
pub proof fn lemma_asked_below_start<T>(start: u64, o: Oracle<T>)
    ensures
        all_below(asked(start, o), start),
{
    lemma_asked_in_order(start, o);
}

/// An error ends the run: where the criterion fails on a value that the run
/// asks, no value is asked after it and the run returns that error; and a run
/// returns no error but that of the last value it asked.
pub proof fn lemma_error_ends_run<T>(start: u64, o: Oracle<T>)
    ensures
        fails_last(asked(start, o), failure(minimized(start, o)), o),
{
    lemma_asked_in_order(start, o);
}

/// The two laws above, proved together over the exhaustive pass and the
/// passes that follow it.
proof fn lemma_asked_in_order<T>(start: u64, o: Oracle<T>)
    ensures
        all_below(asked(start, o), start),
        fails_last(asked(start, o), failure(minimized(start, o)), o),
{
    if start > 0 {
        let small = first_small_asks(start, 0, o);
        lemma_first_small_asks(start, 0, o);
        lemma_asks_end(small);
        if first_small(start, 0, o) is None && start > SMALL {
            lemma_shrunk_asks(start, o);
            lemma_asks_join(small, shrunk_asks(start, o), start, failure(shrunk(start, o)), o);
        }
    }
}

/// A run asks the criterion no more than [`most_asks`] times: a number that
/// grows with the binary digits of the starting value, not with the value.
pub proof fn lemma_asked_few<T>(start: u64, o: Oracle<T>)
    ensures
        asked(start, o).len() <= most_asks(start),
{
    if start > 0 {
        lemma_first_small_asks(start, 0, o);
        if first_small(start, 0, o) is None && start > SMALL {
            lemma_first_small_found_nothing(start, 0, o);
            lemma_shrunk_asks_few(start, o);
        } else if start > SMALL {
            reveal_with_fuel(bit_length, 3);
        }
    }
}

/// A number below the `k`-th power of two has at most `k` binary digits.
pub proof fn lemma_bit_length_is_logarithmic(n: nat, k: nat)
    requires
        n < pow2(k),
    ensures
        bit_length(n) <= k,
    decreases k,
{
    lemma2_to64();
    if n > 0 {
        lemma_pow2_unfold(k);
        lemma_bit_length_is_logarithmic(n / 2, (k - 1) as nat);
    }
}

/// The number of times that a run asks the criterion grows with the
/// logarithm of the starting value: from a value up to the `k`-th power of
/// two, a run asks at most [`SMALL`] times in the exhaustive pass, `k` times
/// while halving, [`BITS`] times while flipping bits, once for the decrement,
/// and `k` times in the binary search.
pub proof fn lemma_asked_is_logarithmic<T>(start: u64, k: nat, o: Oracle<T>)
    requires
        start <= pow2(k),
    ensures
        asked(start, o).len() <= SMALL + k + BITS + 1 + k,
{
    lemma_asked_few(start, o);
    if start > SMALL {
        lemma_pow2_unfold(k + 1);
        lemma_bit_length_is_logarithmic(start as nat, k + 1);
        lemma_bit_length_is_logarithmic((start - 2) as nat, k);
    }
}

/// A flip at a position where `best` has a 0 gives a larger value, about
/// which the criterion is not asked; a flip at a position where it has a 1
/// takes that bit away.
pub proof fn lemma_flip_clears_or_grows(best: u64, i: u64)
    requires
        i < BITS,
    ensures
        best & (1u64 << i) == 0 ==> flip(best, i) > best && test_asks(best, flip(best, i))
            == Seq::<u64>::empty(),
        best & (1u64 << i) != 0 ==> flip(best, i) == best - (1u64 << i) && test_asks(
            best,
            flip(best, i),
        ) == seq![flip(best, i)],
{
    assert(best & (1u64 << i) == 0 ==> best ^ (1u64 << i) > best) by (bit_vector)
        requires
            i < 64,
    ;
    assert(best & (1u64 << i) != 0 ==> best ^ (1u64 << i) == best - (1u64 << i) && (1u64 << i) > 0)
        by (bit_vector)
        requires
            i < 64,
    ;
}

} // verus!
