//! The minimization run: a fixed sequence of shrink passes over one best value.

use vstd::prelude::*;
use crate::criterion::{all_answered, answered, answers, fails_with, steady_on_small};
use crate::minimizer::Minimizer;
use crate::model::{BITS, Oracle, SMALL, first_small, flip, flipped, minimized, probed, searched, shrunk};
use crate::trace::{asked, first_small_asks, flipped_asks, probed_asks, searched_asks, shrunk_asks, test_asks};

verus! {

/// What the passes that track a best value rely on, once the exhaustive pass
/// has found nothing: the criterion accepts every value below `start`, and it
/// has answered `Ok(false)` on every value below [`SMALL`], so that it holds
/// on none of them.
spec fn past_small<F, T>(criterion: F, start: u64) -> bool
    where F: FnMut(u64) -> Result<bool, T> {
    &&& start > SMALL
    &&& forall|v: u64| v < start ==> call_requires(criterion, (v,))
    &&& forall|v: u64| v < SMALL ==> !call_ensures(criterion, (v,), Ok::<bool, T>(true))
}

/// `best` is a best value of a run from `start`: at least [`SMALL`], and
/// either `start` itself or a smaller value on which the criterion held.
spec fn is_best<F, T>(criterion: F, start: u64, best: u64) -> bool
    where F: FnMut(u64) -> Result<bool, T> {
    &&& SMALL <= best <= start
    &&& best == start || call_ensures(criterion, (best,), Ok::<bool, T>(true))
}

/// Where a run from `start` stands: the criterion has answered every value
/// of `log`, and on every oracle that describes it, the run has asked `log`,
/// will ask `rest_asks` and come to `rest`.
spec fn on_course<F, T>(
    criterion: F,
    start: u64,
    log: Seq<u64>,
    rest: spec_fn(Oracle<T>) -> Result<u64, T>,
    rest_asks: spec_fn(Oracle<T>) -> Seq<u64>,
) -> bool where F: FnMut(u64) -> Result<bool, T> {
    &&& all_answered(criterion, log)
    &&& forall|o: Oracle<T>| #[trigger]
        answers(criterion, start, o) ==> minimized(start, o) == rest(o) && asked(start, o) == log
            + rest_asks(o)
}

/// What a run comes to from the value `i` of the exhaustive pass on.
spec fn small_onward<T>(start: u64, i: u64, o: Oracle<T>) -> Result<u64, T> {
    match first_small(start, i, o) {
        Some(r) => r,
        None => if start <= SMALL { Ok(start) } else { shrunk(start, o) },
    }
}

/// What a run asks from the value `i` of the exhaustive pass on.
spec fn small_onward_asks<T>(start: u64, i: u64, o: Oracle<T>) -> Seq<u64> {
    first_small_asks(start, i, o) + match first_small(start, i, o) {
        Some(_) => Seq::empty(),
        None => if start <= SMALL { Seq::empty() } else { shrunk_asks(start, o) },
    }
}

/// What a run comes to from position `i` of the bit-flip pass on.
spec fn flips_onward<T>(best: u64, i: u64, o: Oracle<T>) -> Result<u64, T> {
    match flipped(best, i, o) {
        Ok(best) => probed(best, o),
        Err(e) => Err(e),
    }
}

/// What a run asks from position `i` of the bit-flip pass on.
spec fn flips_onward_asks<T>(best: u64, i: u64, o: Oracle<T>) -> Seq<u64> {
    flipped_asks(best, i, o) + match flipped(best, i, o) {
        Ok(best) => probed_asks(best, o),
        Err(_) => Seq::empty(),
    }
}

/// One more test in a run that was to come to `was` after asking `was_asks`:
/// with what the test asks behind it, the run is to come to `rest` after
/// asking `rest_asks`.
proof fn lemma_run_goes_on<F, T>(
    criterion: F,
    start: u64,
    log: Seq<u64>,
    best: u64,
    candidate: u64,
    was: spec_fn(Oracle<T>) -> Result<u64, T>,
    was_asks: spec_fn(Oracle<T>) -> Seq<u64>,
    rest: spec_fn(Oracle<T>) -> Result<u64, T>,
    rest_asks: spec_fn(Oracle<T>) -> Seq<u64>,
) where F: FnMut(u64) -> Result<bool, T>
    requires
        on_course(criterion, start, log, was, was_asks),
        candidate < best ==> answered(criterion, candidate),
        forall|o: Oracle<T>| #[trigger]
            answers(criterion, start, o) ==> was(o) == rest(o) && was_asks(o) =~= test_asks(
                best,
                candidate,
            ) + rest_asks(o),
    ensures
        on_course(criterion, start, log + test_asks(best, candidate), rest, rest_asks),
{
    let head = test_asks(best, candidate);
    let longer = log + head;
    assert forall|k: int| 0 <= k < longer.len() implies answered(criterion, #[trigger] longer[k]) by {
        if k < log.len() {
            assert(longer[k] == log[k]);
        } else {
            assert(longer[k] == candidate);
        }
    }
    assert forall|o: Oracle<T>| #[trigger] answers(criterion, start, o) implies asked(start, o)
        == longer + rest_asks(o) by {
        assert(log + (head + rest_asks(o)) =~= longer + rest_asks(o));
    }
}

/// A run that asks nothing more has come to its result, and has had an
/// answer on each value that it asked.
proof fn lemma_run_is_over<F, T>(criterion: F, start: u64, log: Seq<u64>, res: Result<u64, T>)
    where F: FnMut(u64) -> Result<bool, T>
    requires
        on_course(criterion, start, log, |o: Oracle<T>| res, |o: Oracle<T>| Seq::<u64>::empty()),
    ensures
        forall|o: Oracle<T>| #[trigger]
            answers(criterion, start, o) ==> res == minimized(start, o) && all_answered(
                criterion,
                asked(start, o),
            ),
{
    assert(log + Seq::<u64>::empty() =~= log);
}

/// Shrinks `start` against `criterion`, and returns the value that the search
/// ends with, or the first error that the criterion fails with.
///
/// The criterion has to accept the values below `start`: it is asked about no
/// other, and so about none where `start` is 0. Where `start` is above
/// [`SMALL`], it must not answer one value below [`SMALL`] both ways: the
/// passes that follow the exhaustive one rely on what it found.
///
/// For a criterion that answers every value in one way, described by `o`,
/// the result is `minimized(start, o)`, and the criterion has given an answer
/// on each value of `asked(start, o)`. Whatever the criterion, a value that
/// is returned is `start` or a smaller one on which the criterion held, and
/// an error that is returned is one that the criterion failed with.
pub fn minimize_integer<F, T>(start: u64, criterion: F) -> (res: Result<u64, T>) where
    F: FnMut(u64) -> Result<bool, T>,

    requires
        forall|v: u64| v < start ==> call_requires(criterion, (v,)),
        start > SMALL ==> steady_on_small(criterion),
    ensures
        forall|o: Oracle<T>| #[trigger]
            answers(criterion, start, o) ==> res == minimized(start, o) && all_answered(
                criterion,
                asked(start, o),
            ),
        start == 0 ==> res == Ok::<u64, T>(0),
        match res {
            Ok(v) => v <= start && (v == start || call_ensures(criterion, (v,), Ok::<bool, T>(true))),
            Err(e) => fails_with(criterion, start, e),
        },
{
    let ghost mut log: Seq<u64> = Seq::empty();
    if start == 0 {
        proof {
            lemma_run_is_over(criterion, start, log, Ok(start));
        }
        return Ok(start);
    }
    let mut ask = criterion;
    let limit: u64 = start.min(SMALL);
    let mut i: u64 = 0;
    while i < limit
        invariant
            ask == criterion,
            i <= limit,
            limit == if start <= SMALL { start } else { SMALL },
            forall|v: u64| v < start ==> call_requires(criterion, (v,)),
            forall|j: u64| j < i ==> call_ensures(criterion, (j,), Ok::<bool, T>(false)),
            on_course(
                criterion,
                start,
                log,
                |o: Oracle<T>| small_onward(start, i, o),
                |o: Oracle<T>| small_onward_asks(start, i, o),
            ),
        decreases limit - i,
    {
        let answer = ask(i);
        proof {
            let then = (i + 1) as u64;
            lemma_run_goes_on(
                criterion,
                start,
                log,
                start,
                i,
                |o: Oracle<T>| small_onward(start, i, o),
                |o: Oracle<T>| small_onward_asks(start, i, o),
                |o: Oracle<T>|
                    match answer {
                        Ok(holds) => if holds { Ok(i) } else { small_onward(start, then, o) },
                        Err(e) => Err(e),
                    },
                |o: Oracle<T>|
                    if answer == Ok::<bool, T>(false) {
                        small_onward_asks(start, then, o)
                    } else {
                        Seq::empty()
                    },
            );
            log = log + test_asks(start, i);
        }
        match answer {
            Ok(holds) => if holds {
                proof {
                    lemma_run_is_over(criterion, start, log, Ok(i));
                }
                return Ok(i);
            },
            Err(e) => {
                proof {
                    assert(fails_with(criterion, start, e));
                    lemma_run_is_over(criterion, start, log, Err(e));
                }
                return Err(e);
            },
        }
        i += 1;
    }
    if start <= SMALL {
        proof {
            lemma_run_is_over(criterion, start, log, Ok(start));
        }
        return Ok(start);
    }
    assert(past_small(criterion, start));
    let mut minimizer = Minimizer { best: start, criterion: &mut ask };

    loop
        invariant_except_break
            on_course(
                criterion,
                start,
                log,
                |o: Oracle<T>| shrunk(minimizer.best, o),
                |o: Oracle<T>| shrunk_asks(minimizer.best, o),
            ),
        invariant
            *minimizer.criterion == criterion,
            past_small(criterion, start),
            is_best(criterion, start, minimizer.best),
        ensures
            on_course(
                criterion,
                start,
                log,
                |o: Oracle<T>| flips_onward(minimizer.best, 0, o),
                |o: Oracle<T>| flips_onward_asks(minimizer.best, 0, o),
            ),
        decreases minimizer.best,
    {
        let ghost best = minimizer.best;
        let ghost half = (best / 2) as u64;
        let halve = |x: u64| -> (r: u64)
            ensures
                r == x / 2,
            {
                assert(x >> 1 == x / 2) by (bit_vector);
                x >> 1
            };
        let outcome = minimizer.modify(halve);
        proof {
            lemma_run_goes_on(
                criterion,
                start,
                log,
                best,
                half,
                |o: Oracle<T>| shrunk(best, o),
                |o: Oracle<T>| shrunk_asks(best, o),
                |o: Oracle<T>|
                    match outcome {
                        Ok(shrank) => if shrank { shrunk(half, o) } else { flips_onward(best, 0, o) },
                        Err(e) => Err(e),
                    },
                |o: Oracle<T>|
                    match outcome {
                        Ok(shrank) => if shrank {
                            shrunk_asks(half, o)
                        } else {
                            flips_onward_asks(best, 0, o)
                        },
                        Err(_) => Seq::empty(),
                    },
            );
            log = log + test_asks(best, half);
        }
        match outcome {
            Ok(shrank) => if !shrank {
                break ;
            },
            Err(e) => {
                proof {
                    assert(fails_with(criterion, start, e));
                    lemma_run_is_over(criterion, start, log, Err(e));
                }
                return Err(e);
            },
        }
    }

    let mut i: u64 = 0;
    while i < BITS
        invariant
            i <= BITS,
            *minimizer.criterion == criterion,
            past_small(criterion, start),
            is_best(criterion, start, minimizer.best),
            on_course(
                criterion,
                start,
                log,
                |o: Oracle<T>| flips_onward(minimizer.best, i, o),
                |o: Oracle<T>| flips_onward_asks(minimizer.best, i, o),
            ),
        decreases BITS - i,
    {
        let ghost best = minimizer.best;
        let invert = |x: u64| -> (r: u64)
            ensures
                r == flip(x, i),
            { x ^ (1u64 << i) };
        let outcome = minimizer.modify(invert);
        proof {
            let then = (i + 1) as u64;
            lemma_run_goes_on(
                criterion,
                start,
                log,
                best,
                flip(best, i),
                |o: Oracle<T>| flips_onward(best, i, o),
                |o: Oracle<T>| flips_onward_asks(best, i, o),
                |o: Oracle<T>|
                    match outcome {
                        Ok(_) => flips_onward(minimizer.best, then, o),
                        Err(e) => Err(e),
                    },
                |o: Oracle<T>|
                    match outcome {
                        Ok(_) => flips_onward_asks(minimizer.best, then, o),
                        Err(_) => Seq::empty(),
                    },
            );
            log = log + test_asks(best, flip(best, i));
        }
        match outcome {
            Ok(_) => {},
            Err(e) => {
                proof {
                    assert(fails_with(criterion, start, e));
                    lemma_run_is_over(criterion, start, log, Err(e));
                }
                return Err(e);
            },
        }
        i += 1;
    }

    assert(minimizer.best >= SMALL);
    let ghost best = minimizer.best;
    let ghost below = (best - 1) as u64;
    let decrement = |x: u64| -> (r: u64)
        requires
            x >= 1,
        ensures
            r == x - 1,
        { x - 1 };
    let outcome = minimizer.modify(decrement);
    proof {
        lemma_run_goes_on(
            criterion,
            start,
            log,
            best,
            below,
            |o: Oracle<T>| flips_onward(best, BITS, o),
            |o: Oracle<T>| flips_onward_asks(best, BITS, o),
            |o: Oracle<T>|
                match outcome {
                    Ok(shrank) => if shrank { searched(0, below, o) } else { Ok(best) },
                    Err(e) => Err(e),
                },
            |o: Oracle<T>|
                if outcome == Ok::<bool, T>(true) {
                    searched_asks(0, below, o)
                } else {
                    Seq::empty()
                },
        );
        log = log + test_asks(best, below);
    }
    match outcome {
        Ok(shrank) => if !shrank {
            proof {
                lemma_run_is_over(criterion, start, log, Ok(best));
            }
            return Ok(minimizer.best);
        },
        Err(e) => {
            proof {
                assert(fails_with(criterion, start, e));
                lemma_run_is_over(criterion, start, log, Err(e));
            }
            return Err(e);
        },
    }

    let mut lo: u64 = 0;
    let mut hi: u64 = minimizer.best;
    while lo + 1 < hi
        invariant
            lo < hi,
            hi == minimizer.best,
            *minimizer.criterion == criterion,
            past_small(criterion, start),
            is_best(criterion, start, minimizer.best),
            on_course(
                criterion,
                start,
                log,
                |o: Oracle<T>| searched(lo, hi, o),
                |o: Oracle<T>| searched_asks(lo, hi, o),
            ),
        decreases hi - lo,
    {
        let mid: u64 = lo + (hi - lo) / 2;
        let outcome = minimizer.test(mid);
        proof {
            lemma_run_goes_on(
                criterion,
                start,
                log,
                hi,
                mid,
                |o: Oracle<T>| searched(lo, hi, o),
                |o: Oracle<T>| searched_asks(lo, hi, o),
                |o: Oracle<T>|
                    match outcome {
                        Ok(holds) => if holds { searched(lo, mid, o) } else { searched(mid, hi, o) },
                        Err(e) => Err(e),
                    },
                |o: Oracle<T>|
                    match outcome {
                        Ok(holds) => if holds {
                            searched_asks(lo, mid, o)
                        } else {
                            searched_asks(mid, hi, o)
                        },
                        Err(_) => Seq::empty(),
                    },
            );
            log = log + test_asks(hi, mid);
        }
        match outcome {
            Ok(holds) => if holds {
                hi = mid;
            } else {
                lo = mid;
            },
            Err(e) => {
                proof {
                    assert(fails_with(criterion, start, e));
                    lemma_run_is_over(criterion, start, log, Err(e));
                }
                return Err(e);
            },
        }
    }

    proof {
        lemma_run_is_over(criterion, start, log, Ok(hi));
    }
    Ok(minimizer.best)
}

} // verus!
