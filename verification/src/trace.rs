//! The values that a run puts to the criterion, in the order in which it asks.
//!
//! Every pass of the model in [`crate::model`] has a companion here that
//! lists the candidates it asks about. A candidate that is not below the best
//! value of its moment is decided without the criterion and is not listed.

use vstd::prelude::*;
use crate::model::{BITS, Oracle, SMALL, adopted, first_small, flip, flipped, halved};

verus! {

/// What a test of `candidate` against `best` asks: the candidate where it is
/// below `best`, and nothing else.
pub open spec fn test_asks(best: u64, candidate: u64) -> Seq<u64> {
    if candidate < best {
        seq![candidate]
    } else {
        Seq::empty()
    }
}

/// What the exhaustive pass asks from `i` on: the values in ascending order,
/// up to the first on which the criterion does not answer `Ok(false)`.
pub open spec fn first_small_asks<T>(start: u64, i: u64, o: Oracle<T>) -> Seq<u64>
    decreases SMALL - i,
{
    if i >= SMALL || i >= start {
        Seq::empty()
    } else if o(i) == Ok::<bool, T>(false) {
        seq![i] + first_small_asks(start, (i + 1) as u64, o)
    } else {
        seq![i]
    }
}

/// What the halving pass asks from `best` on.
pub open spec fn halved_asks<T>(best: u64, o: Oracle<T>) -> Seq<u64>
    decreases best,
{
    test_asks(best, best / 2) + match adopted(best, best / 2, o) {
        Ok(next) => if next < best { halved_asks(next, o) } else { Seq::empty() },
        Err(_) => Seq::empty(),
    }
}

/// What the bit-flip pass asks from position `i` on.
pub open spec fn flipped_asks<T>(best: u64, i: u64, o: Oracle<T>) -> Seq<u64>
    decreases BITS - i,
{
    if i >= BITS {
        Seq::empty()
    } else {
        test_asks(best, flip(best, i)) + match adopted(best, flip(best, i), o) {
            Ok(next) => flipped_asks(next, (i + 1) as u64, o),
            Err(_) => Seq::empty(),
        }
    }
}

/// What the binary search between `lo` and `hi` asks: one midpoint after the
/// other.
pub open spec fn searched_asks<T>(lo: u64, hi: u64, o: Oracle<T>) -> Seq<u64>
    decreases hi - lo,
{
    if lo + 1 >= hi {
        Seq::empty()
    } else {
        let mid = (lo + (hi - lo) / 2) as u64;
        seq![mid] + match o(mid) {
            Ok(holds) => if holds { searched_asks(lo, mid, o) } else { searched_asks(mid, hi, o) },
            Err(_) => Seq::empty(),
        }
    }
}

/// What the decrement probe asks, and the binary search where one follows.
pub open spec fn probed_asks<T>(best: u64, o: Oracle<T>) -> Seq<u64> {
    test_asks(best, (best - 1) as u64) + match adopted(best, (best - 1) as u64, o) {
        Ok(next) => if next < best { searched_asks(0, next, o) } else { Seq::empty() },
        Err(_) => Seq::empty(),
    }
}

/// What the passes that track a best value ask, from `start` on.
pub open spec fn shrunk_asks<T>(start: u64, o: Oracle<T>) -> Seq<u64> {
    halved_asks(start, o) + match halved(start, o) {
        Ok(best) => flipped_asks(best, 0, o) + match flipped(best, 0, o) {
            Ok(best) => probed_asks(best, o),
            Err(_) => Seq::empty(),
        },
        Err(_) => Seq::empty(),
    }
}

/// What a run from `start` asks, on a criterion that `o` describes.
pub open spec fn asked<T>(start: u64, o: Oracle<T>) -> Seq<u64> {
    if start == 0 {
        Seq::empty()
    } else {
        first_small_asks(start, 0, o) + match first_small(start, 0, o) {
            Some(_) => Seq::empty(),
            None => if start <= SMALL { Seq::empty() } else { shrunk_asks(start, o) },
        }
    }
}

/// The error that a result carries, if it is one.
pub open spec fn failure<V, T>(res: Result<V, T>) -> Option<T> {
    match res {
        Ok(_) => None,
        Err(e) => Some(e),
    }
}

/// The criterion answers every value of `asks` but the last without an error,
/// and the last with the error `failed`, or without one where `failed` is
/// `None`.
pub open spec fn fails_last<T>(asks: Seq<u64>, failed: Option<T>, o: Oracle<T>) -> bool {
    &&& forall|k: int| 0 <= k < asks.len() - 1 ==> o(#[trigger] asks[k]) is Ok
    &&& match failed {
        Some(e) => asks.len() > 0 && o(asks.last()) == Err::<bool, T>(e),
        None => asks.len() > 0 ==> o(asks.last()) is Ok,
    }
}

/// All values of `asks` are below `bound`.
pub open spec fn all_below(asks: Seq<u64>, bound: u64) -> bool {
    forall|k: int| 0 <= k < asks.len() ==> #[trigger] asks[k] < bound
}

/// The number of binary digits of `n`.
pub open spec fn bit_length(n: nat) -> nat
    decreases n,
{
    if n == 0 {
        0
    } else {
        1 + bit_length(n / 2)
    }
}

/// The most that a run from `start` asks: every value below `start` where
/// that is at most [`SMALL`]; else [`SMALL`] values one by one, a halving for
/// each binary digit of `start` but two, one value for each bit position, the
/// decrement, and a search that halves an interval shorter than `start`.
pub open spec fn most_asks(start: u64) -> nat {
    if start <= SMALL {
        start as nat
    } else {
        (SMALL + (bit_length(start as nat) - 2) + BITS + 1 + bit_length((start - 2) as nat)) as nat
    }
}

} // verus!
