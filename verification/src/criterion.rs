//! What is known of a criterion: the answers that it can give.
//!
//! A criterion is any `FnMut(u64) -> Result<bool, T>`. What it can answer on
//! a value is what its own contract allows; a criterion whose contract
//! leaves one answer for each value is described by an oracle.

use vstd::prelude::*;
use crate::model::{Oracle, SMALL};

verus! {

/// `o` describes `criterion` below `bound`: whatever the criterion can answer
/// on a value below `bound` is what `o` gives for it.
pub open spec fn answers<F, T>(criterion: F, bound: u64, o: Oracle<T>) -> bool
    where F: FnMut(u64) -> Result<bool, T> {
    forall|v: u64, r: Result<bool, T>|
        v < bound && #[trigger] call_ensures(criterion, (v,), r) ==> o(v) == r
}

/// The criterion never answers one value below [`SMALL`] both ways.
pub open spec fn steady_on_small<F, T>(criterion: F) -> bool
    where F: FnMut(u64) -> Result<bool, T> {
    forall|v: u64|
        v < SMALL ==> !(#[trigger] call_ensures(criterion, (v,), Ok::<bool, T>(true))
            && call_ensures(criterion, (v,), Ok::<bool, T>(false)))
}

/// The criterion can fail with the error `e` on a value below `bound`.
pub open spec fn fails_with<F, T>(criterion: F, bound: u64, e: T) -> bool
    where F: FnMut(u64) -> Result<bool, T> {
    exists|v: u64| v < bound && #[trigger] call_ensures(criterion, (v,), Err::<bool, T>(e))
}

/// The criterion has given an answer on `v`.
pub open spec fn answered<F, T>(criterion: F, v: u64) -> bool
    where F: FnMut(u64) -> Result<bool, T> {
    exists|r: Result<bool, T>| call_ensures(criterion, (v,), r)
}

/// The criterion has given an answer on every value of `asks`.
pub open spec fn all_answered<F, T>(criterion: F, asks: Seq<u64>) -> bool
    where F: FnMut(u64) -> Result<bool, T> {
    forall|k: int| 0 <= k < asks.len() ==> answered(criterion, #[trigger] asks[k])
}

} // verus!
