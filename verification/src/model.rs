//! The mathematical model of a minimization run.
//!
//! A run is described against an *oracle*: a total function that gives, for
//! every value, the answer of the criterion on it (it holds, it does not hold,
//! or it fails with an error). For a criterion that answers a value always in
//! the same way, the oracle is simply the criterion, and [`minimized`] is the
//! value that the run ends with.

use vstd::prelude::*;

verus! {

/// Values below this bound are tried one by one, in ascending order, before
/// any other pass runs.
pub const SMALL: u64 = 5;

/// The number of bit positions that the bit-flip pass walks through.
pub const BITS: u64 = 64;

/// An oracle: for every value, what the criterion answers on it.
pub type Oracle<T> = spec_fn(u64) -> Result<bool, T>;

/// The best value after `candidate` has been tested against `best`: a
/// candidate that is not below `best` changes nothing and is not looked up;
/// one below it becomes the best when the criterion holds on it.
pub open spec fn adopted<T>(best: u64, candidate: u64, o: Oracle<T>) -> Result<u64, T> {
    if candidate >= best {
        Ok(best)
    } else {
        match o(candidate) {
            Ok(holds) => Ok(if holds { candidate } else { best }),
            Err(e) => Err(e),
        }
    }
}

/// The exhaustive pass from `i` on: the first of `i, i + 1, ..` below both
/// `start` and [`SMALL`] on which the criterion holds or fails with an error;
/// `None` where it holds on none of them.
pub open spec fn first_small<T>(start: u64, i: u64, o: Oracle<T>) -> Option<Result<u64, T>>
    decreases SMALL - i,
{
    if i >= SMALL || i >= start {
        None
    } else {
        match o(i) {
            Ok(holds) => if holds { Some(Ok(i)) } else { first_small(start, (i + 1) as u64, o) },
            Err(e) => Some(Err(e)),
        }
    }
}

/// The halving pass: `best` is halved for as long as the criterion holds on
/// the half.
pub open spec fn halved<T>(best: u64, o: Oracle<T>) -> Result<u64, T>
    decreases best,
{
    match adopted(best, best / 2, o) {
        Ok(next) => if next < best { halved(next, o) } else { Ok(best) },
        Err(e) => Err(e),
    }
}

/// The candidate of the bit-flip pass at position `i`: `best` with that bit
/// inverted.
pub open spec fn flip(best: u64, i: u64) -> u64 {
    best ^ (1u64 << i)
}

/// The bit-flip pass from position `i` on: each position up to [`BITS`] is
/// tried once, in ascending order, against the best value of that moment.
pub open spec fn flipped<T>(best: u64, i: u64, o: Oracle<T>) -> Result<u64, T>
    decreases BITS - i,
{
    if i >= BITS {
        Ok(best)
    } else {
        match adopted(best, flip(best, i), o) {
            Ok(next) => flipped(next, (i + 1) as u64, o),
            Err(e) => Err(e),
        }
    }
}

/// The binary search between `lo`, which is never adopted, and `hi`, the best
/// value: the midpoint replaces `hi` where the criterion holds on it, and `lo`
/// where it does not, until the two are neighbours.
pub open spec fn searched<T>(lo: u64, hi: u64, o: Oracle<T>) -> Result<u64, T>
    decreases hi - lo,
{
    if lo + 1 >= hi {
        Ok(hi)
    } else {
        let mid = (lo + (hi - lo) / 2) as u64;
        match o(mid) {
            Ok(holds) => if holds { searched(lo, mid, o) } else { searched(mid, hi, o) },
            Err(e) => Err(e),
        }
    }
}

/// The decrement probe and what follows it: where the criterion holds on
/// `best - 1`, the binary search below it; else `best`.
pub open spec fn probed<T>(best: u64, o: Oracle<T>) -> Result<u64, T> {
    match adopted(best, (best - 1) as u64, o) {
        Ok(next) => if next < best { searched(0, next, o) } else { Ok(best) },
        Err(e) => Err(e),
    }
}

/// The passes that track a best value, from `start` on: halving, bit flips,
/// the decrement probe and the binary search.
pub open spec fn shrunk<T>(start: u64, o: Oracle<T>) -> Result<u64, T> {
    match halved(start, o) {
        Ok(best) => match flipped(best, 0, o) {
            Ok(best) => probed(best, o),
            Err(e) => Err(e),
        },
        Err(e) => Err(e),
    }
}

/// What a run from `start` ends with, on a criterion that `o` describes.
pub open spec fn minimized<T>(start: u64, o: Oracle<T>) -> Result<u64, T> {
    if start == 0 {
        Ok(0)
    } else {
        match first_small(start, 0, o) {
            Some(r) => r,
            None => if start <= SMALL { Ok(start) } else { shrunk(start, o) },
        }
    }
}

} // verus!
