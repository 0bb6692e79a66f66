use intminimize::minimize_integer;

fn non_failing_minimize<F>(start: u64, criterion: F) -> u64
where
    F: Fn(u64) -> bool,
{
    let r: Result<u64, ()> = minimize_integer(start, |x| Ok(criterion(x)));
    r.unwrap()
}

#[test]
fn minimize_down_to() {
    let n = non_failing_minimize(100, |x| x >= 10);
    assert_eq!(n, 10);
}

#[test]
fn unset_relevant_bits() {
    let x = 0b101010101010;
    let y = 0b111111111111;
    let n = non_failing_minimize(y, |k| k & x == x);
    assert_eq!(n, x);
}

#[test]
fn zero_is_returned_as_it_is() {
    assert_eq!(non_failing_minimize(0, |_| true), 0);
    assert_eq!(non_failing_minimize(0, |_| false), 0);
}

#[test]
fn criterion_that_always_holds_gives_zero() {
    assert_eq!(non_failing_minimize(1, |_| true), 0);
    assert_eq!(non_failing_minimize(1 << 40, |_| true), 0);
    assert_eq!(non_failing_minimize(u64::MAX, |_| true), 0);
}

#[test]
fn first_small_value_that_holds_is_returned() {
    assert_eq!(non_failing_minimize(4, |x| x >= 3), 3);
    assert_eq!(non_failing_minimize(100, |x| x >= 2), 2);
    assert_eq!(non_failing_minimize(100, |x| x == 4 || x == 1), 1);
    assert_eq!(non_failing_minimize(u64::MAX, |x| x >= 4), 4);
}

#[test]
fn small_start_without_smaller_value_is_kept() {
    assert_eq!(non_failing_minimize(1, |_| false), 1);
    assert_eq!(non_failing_minimize(3, |_| false), 3);
    assert_eq!(non_failing_minimize(5, |_| false), 5);
    assert_eq!(non_failing_minimize(5, |x| x == 5), 5);
}

#[test]
fn start_is_kept_where_nothing_smaller_holds() {
    assert_eq!(non_failing_minimize(6, |_| false), 6);
    assert_eq!(non_failing_minimize(1000, |x| x == 1000), 1000);
    assert_eq!(non_failing_minimize(1 << 40, |_| false), 1 << 40);
    assert_eq!(non_failing_minimize(u64::MAX, |x| x == u64::MAX), u64::MAX);
}

#[test]
fn result_is_never_above_start() {
    let starts: [u64; 8] = [0, 1, 4, 5, 6, 99, 1000, u64::MAX];
    for start in starts {
        assert!(non_failing_minimize(start, |_| false) <= start);
        assert!(non_failing_minimize(start, |_| true) <= start);
        assert!(non_failing_minimize(start, |x| x % 3 == 2) <= start);
        assert!(non_failing_minimize(start, |x| x >= start / 2) <= start);
    }
}

#[test]
fn threshold_is_found_exactly() {
    assert_eq!(non_failing_minimize(7, |x| x >= 6), 6);
    assert_eq!(non_failing_minimize(7, |x| x >= 5), 5);
    assert_eq!(non_failing_minimize(1000, |x| x >= 37), 37);
    assert_eq!(non_failing_minimize(1 << 40, |x| x >= 1000), 1000);
    assert_eq!(non_failing_minimize(1 << 40, |x| x >= 5), 5);
    assert_eq!(
        non_failing_minimize(u64::MAX, |x| x >= (1 << 63) + 12345),
        (1 << 63) + 12345
    );
}

#[test]
fn halving_stops_at_the_first_half_that_fails() {
    // 1000 -> 500 -> 250; 125 is odd, the flips clear bits down to 128, and
    // 127 fails.
    assert_eq!(non_failing_minimize(1000, |x| x >= 6 && x % 2 == 0), 128);
    // 99 is not halved (49 -> holds, 24 fails), bit 4 is cleared, 32 fails.
    assert_eq!(non_failing_minimize(99, |x| x >= 5 && x % 2 == 1), 33);
}

#[test]
fn search_is_a_heuristic_and_may_miss_smaller_values() {
    // 7 satisfies the criterion, but no pass from 1001 reaches it.
    assert_eq!(non_failing_minimize(1001, |x| x >= 7 && x % 7 == 0), 1001);
    // 200 -> 100 -> 50 by halving, 48 by a flip, 47 by the decrement, 23 by
    // the binary search.
    assert_eq!(
        non_failing_minimize(200, |x| [200, 100, 50, 48, 47, 23].contains(&x)),
        23
    );
    assert_eq!(non_failing_minimize(1 << 40, |x| x >= 5 && x & (x - 1) == 0), 8);
}

#[test]
fn error_on_the_first_candidate_is_returned() {
    let r: Result<u64, &str> = minimize_integer(100, |_| Err("broken"));
    assert_eq!(r, Err("broken"));
    let r: Result<u64, u32> = minimize_integer(1, |x| if x == 0 { Err(7) } else { Ok(true) });
    assert_eq!(r, Err(7));
}

#[test]
fn error_in_the_small_pass_is_returned() {
    let r: Result<u64, u64> = minimize_integer(100, |x| if x == 3 { Err(x) } else { Ok(false) });
    assert_eq!(r, Err(3));
}

#[test]
fn error_is_not_reached_behind_a_success() {
    let r: Result<u64, u64> = minimize_integer(100, |x| if x == 3 { Err(x) } else { Ok(x == 2) });
    assert_eq!(r, Ok(2));
}

#[test]
fn error_in_the_halving_pass_is_returned() {
    let r: Result<u64, u64> = minimize_integer(100, |x| if x == 25 { Err(x) } else { Ok(x >= 10) });
    assert_eq!(r, Err(25));
}

#[test]
fn error_in_the_flip_pass_is_returned() {
    // From 1000 the flips ask 992 first.
    let r: Result<u64, u64> =
        minimize_integer(1000, |x| if x == 992 { Err(x) } else { Ok(x == 1000) });
    assert_eq!(r, Err(992));
}

#[test]
fn error_in_the_decrement_probe_is_returned() {
    let r: Result<u64, u64> =
        minimize_integer(1000, |x| if x == 999 { Err(x) } else { Ok(x == 1000) });
    assert_eq!(r, Err(999));
}

#[test]
fn error_in_the_binary_search_is_returned_after_earlier_successes() {
    // 100 -> 50 -> 25 -> 12 by halving, 11 by the decrement; the search then
    // asks 5, 8, 9.
    let r: Result<u64, u64> = minimize_integer(100, |x| if x == 9 { Err(x) } else { Ok(x >= 10) });
    assert_eq!(r, Err(9));
}

#[test]
fn values_off_the_path_are_not_asked() {
    let r: Result<u64, u64> = minimize_integer(100, |x| if x == 7 { Err(x) } else { Ok(x >= 10) });
    assert_eq!(r, Ok(10));
}

#[test]
fn least_value_of_a_threshold_is_found_from_any_start() {
    let thresholds: [u64; 9] = [0, 1, 4, 5, 6, 63, 64, 1000, (1 << 40) + 1];
    let starts: [u64; 9] = [0, 1, 4, 5, 6, 100, 1 << 20, (1 << 40) + 1, u64::MAX];
    for least in thresholds {
        for start in starts {
            if least <= start {
                assert_eq!(non_failing_minimize(start, |x| x >= least), least);
            }
        }
    }
    assert_eq!(non_failing_minimize(u64::MAX, |x| x >= u64::MAX), u64::MAX);
    assert_eq!(non_failing_minimize(u64::MAX, |x| x >= u64::MAX - 1), u64::MAX - 1);
}

#[test]
fn bits_outside_a_mask_are_cleared_from_any_start() {
    let masks: [u64; 8] = [0, 1, 4, 5, 0b1000, 0b101010101010, 1 << 63, (1 << 63) | 0b110];
    let extras: [u64; 6] = [0, 1, 0b10, 0b1111, 0xffff_0000, u64::MAX];
    for mask in masks {
        for extra in extras {
            let start = mask | extra;
            assert_eq!(non_failing_minimize(start, |x| x & mask == mask), mask);
        }
    }
}

#[test]
fn returned_value_is_start_or_satisfies_the_criterion() {
    let starts: [u64; 6] = [1, 5, 6, 1000, 1 << 40, u64::MAX];
    for start in starts {
        let criterion = |x: u64| x % 7 == 3 || x % 1000 == 999;
        let n = non_failing_minimize(start, criterion);
        assert!(n == start || criterion(n));
    }
    assert_eq!(non_failing_minimize(1000, |x| x % 7 == 3 || x % 1000 == 999), 3);
    assert_eq!(non_failing_minimize(1000, |x| x >= 5 && x % 7 == 3), 500);
}
