//! The candidate tester: the best value known so far, and the criterion.

use vstd::prelude::*;
use crate::criterion::{all_answered, answers};
use crate::model::{Oracle, adopted};
use crate::trace::test_asks;

verus! {

/// The state of a run: the criterion, and the smallest value on which it is
/// known to hold (the starting value, before any candidate has been adopted).
pub struct Minimizer<'a, F: 'a> {
    pub criterion: &'a mut F,
    pub best: u64,
}

/// What testing `candidate` against `best` gives: the report `res` and the
/// best value `next` afterwards.
///
/// A candidate equal to `best` is reported as a success, and a larger one as a
/// failure, in both cases without asking the criterion. A smaller one is
/// reported as the criterion answers it, and adopted where that answer is
/// `Ok(true)`.
pub open spec fn tested<F, T>(criterion: F, best: u64, candidate: u64, res: Result<bool, T>, next: u64) -> bool
    where F: FnMut(u64) -> Result<bool, T> {
    if candidate == best {
        res == Ok::<bool, T>(true) && next == best
    } else if candidate > best {
        res == Ok::<bool, T>(false) && next == best
    } else {
        &&& call_ensures(criterion, (candidate,), res)
        &&& next == if res == Ok::<bool, T>(true) { candidate } else { best }
    }
}

/// A test, read against an oracle that describes the criterion below `best`:
/// the report is a success exactly where the candidate is the best value
/// afterwards, that value is the one that [`adopted`] gives, and the
/// criterion has given an answer on what [`test_asks`] lists.
pub proof fn lemma_tested_is_adopted<F, T>(
    criterion: F,
    best: u64,
    candidate: u64,
    res: Result<bool, T>,
    next: u64,
    o: Oracle<T>,
) where F: FnMut(u64) -> Result<bool, T>
    requires
        tested(criterion, best, candidate, res, next),
        answers(criterion, best, o),
    ensures
        adopted(best, candidate, o) == match res {
            Ok(_) => Ok::<u64, T>(next),
            Err(e) => Err(e),
        },
        res matches Ok(accepted) ==> accepted == (next == candidate),
        all_answered(criterion, test_asks(best, candidate)),
{
}

/// Testing the best value again asks nothing and changes nothing.
pub proof fn lemma_best_is_not_asked_again<T>(best: u64, o: Oracle<T>)
    ensures
        test_asks(best, best) == Seq::<u64>::empty(),
        adopted(best, best, o) == Ok::<u64, T>(best),
{
}

impl<'a, F, T> Minimizer<'a, F> where F: 'a + FnMut(u64) -> Result<bool, T> {
    /// Tests `candidate`, and adopts it as the best value where it is smaller
    /// than the current one and the criterion holds on it.
    ///
    /// The criterion has to accept the candidate only where the candidate is
    /// below the best value: on any other candidate it is not asked.
    pub fn test(&mut self, candidate: u64) -> (res: Result<bool, T>)
        requires
            candidate < old(self).best ==> call_requires(*old(self).criterion, (candidate,)),
        ensures
            *final(self).criterion == *old(self).criterion,
            tested(*old(self).criterion, old(self).best, candidate, res, final(self).best),
    {
        if candidate == self.best {
            return Ok(true);
        }
        if candidate > self.best {
            return Ok(false);
        }
        let result = (self.criterion)(candidate)?;
        if result {
            self.best = candidate;
        }
        Ok(result)
    }

    /// Applies `g` to the best value and tests what it gives.
    pub fn modify<G>(&mut self, g: G) -> (res: Result<bool, T>) where G: Fn(u64) -> u64
        requires
            call_requires(g, (old(self).best,)),
            forall|x: u64|
                call_ensures(g, (old(self).best,), x) && x < old(self).best ==> call_requires(
                    *old(self).criterion,
                    (x,),
                ),
        ensures
            *final(self).criterion == *old(self).criterion,
            exists|x: u64|
                {
                    &&& #[trigger] call_ensures(g, (old(self).best,), x)
                    &&& tested(*old(self).criterion, old(self).best, x, res, final(self).best)
                },
    {
        let x = g(self.best);
        self.test(x)
    }
}

} // verus!
