use intminimize::minimize_integer;

fn asked_by<F>(start: u64, criterion: F) -> (u64, Vec<u64>)
where
    F: Fn(u64) -> bool,
{
    let mut asked: Vec<u64> = Vec::new();
    let r: Result<u64, ()> = minimize_integer(start, |x| {
        asked.push(x);
        Ok(criterion(x))
    });
    (r.unwrap(), asked)
}

#[test]
fn zero_start_never_asks() {
    let (n, asked) = asked_by(0, |_| true);
    assert_eq!(n, 0);
    assert!(asked.is_empty());
    let r: Result<u64, ()> = minimize_integer(0, |_| panic!("asked"));
    assert_eq!(r, Ok(0));
}

#[test]
fn small_pass_asks_in_ascending_order_and_stops_at_a_success() {
    assert_eq!(asked_by(4, |x| x >= 3), (3, vec![0, 1, 2, 3]));
    assert_eq!(asked_by(3, |_| false), (3, vec![0, 1, 2]));
    assert_eq!(asked_by(5, |_| false), (5, vec![0, 1, 2, 3, 4]));
    assert_eq!(asked_by(1 << 40, |_| true), (0, vec![0]));
}

#[test]
fn passes_ask_in_their_order() {
    assert_eq!(
        asked_by(100, |x| x >= 10),
        (10, vec![0, 1, 2, 3, 4, 50, 25, 12, 6, 8, 4, 11, 5, 8, 9, 10])
    );
    assert_eq!(
        asked_by(1000, |x| x == 1000),
        (1000, vec![0, 1, 2, 3, 4, 500, 992, 968, 936, 872, 744, 488, 999])
    );
    assert_eq!(asked_by(6, |_| false), (6, vec![0, 1, 2, 3, 4, 3, 4, 2, 5]));
    assert_eq!(
        asked_by(7, |x| x >= 5),
        (5, vec![0, 1, 2, 3, 4, 3, 6, 4, 2, 5, 2, 3, 4])
    );
}

#[test]
fn flips_that_set_a_bit_are_not_asked() {
    let (n, asked) = asked_by(1 << 40, |_| false);
    assert_eq!(n, 1 << 40);
    assert_eq!(asked, vec![0, 1, 2, 3, 4, 1 << 39, 0, (1 << 40) - 1]);
}

#[test]
fn every_candidate_asked_is_below_start() {
    let starts: [u64; 6] = [1, 5, 6, 100, 1 << 40, u64::MAX];
    for start in starts {
        let (_, asked) = asked_by(start, |x| x >= start / 3);
        assert!(asked.iter().all(|&x| x < start));
        let (_, asked) = asked_by(start, |_| false);
        assert!(asked.iter().all(|&x| x < start));
    }
}

#[test]
fn number_of_calls_is_logarithmic_in_start() {
    let start: u64 = 1 << 40;
    let bound = 5 + 40 + 64 + 1 + 40;
    assert!(asked_by(start, |_| false).1.len() <= bound);
    assert!(asked_by(start, |_| true).1.len() <= bound);
    assert!(asked_by(start, |x| x >= 5).1.len() <= bound);
    assert!(asked_by(start, |x| x >= 1000).1.len() <= bound);
    assert!(asked_by(start, |x| x >= start - 1).1.len() <= bound);
    assert!(asked_by(start, |x| x >= start / 2 + 1).1.len() <= bound);
    assert!(asked_by(start, |x| x >= 5 && x & (x - 1) == 0).1.len() <= bound);
    assert!(asked_by(start, |x| x >= 5 && x % 2 == 0).1.len() <= bound);
    assert_eq!(asked_by(start, |x| x >= 1000).1.len(), 48);
}

#[test]
fn number_of_calls_stays_bounded_at_the_largest_start() {
    let bound = 5 + 64 + 64 + 1 + 64;
    assert!(asked_by(u64::MAX, |_| false).1.len() <= bound);
    assert!(asked_by(u64::MAX, |x| x >= 5).1.len() <= bound);
    assert!(asked_by(u64::MAX, |x| x >= (1 << 63) + 12345).1.len() <= bound);
    assert_eq!(asked_by(u64::MAX, |_| false).1.len(), 71);
}

fn bit_length(n: u64) -> usize {
    (64 - n.leading_zeros()) as usize
}

fn most_asks(start: u64) -> usize {
    if start <= 5 {
        start as usize
    } else {
        5 + (bit_length(start) - 2) + 64 + 1 + bit_length(start - 2)
    }
}

#[test]
fn number_of_calls_stays_within_the_bound_of_each_start() {
    let starts: [u64; 12] =
        [0, 1, 3, 5, 6, 7, 100, 1000, 12345, 1 << 40, (1 << 63) + 5, u64::MAX];
    for start in starts {
        let bound = most_asks(start);
        assert!(asked_by(start, |_| false).1.len() <= bound);
        assert!(asked_by(start, |_| true).1.len() <= bound);
        assert!(asked_by(start, |x| x >= 5).1.len() <= bound);
        assert!(asked_by(start, |x| x >= start / 2).1.len() <= bound);
        assert!(asked_by(start, |x| x >= start - start / 3).1.len() <= bound);
        assert!(asked_by(start, |x| x >= 5 && x % 2 == 1).1.len() <= bound);
        assert!(asked_by(start, |x| x >= 5 && x & (x - 1) == 0).1.len() <= bound);
    }
    assert_eq!(most_asks(1 << 40), 149);
    assert_eq!(most_asks(u64::MAX), 196);
}

#[test]
fn nothing_is_asked_after_an_error() {
    let fails_on: [u64; 7] = [0, 4, 50, 12, 8, 11, 9];
    for bad in fails_on {
        let mut asked: Vec<u64> = Vec::new();
        let r: Result<u64, u64> = minimize_integer(100, |x| {
            asked.push(x);
            if x == bad {
                Err(x)
            } else {
                Ok(x >= 10)
            }
        });
        assert_eq!(r, Err(bad));
        assert_eq!(asked.last(), Some(&bad));
        assert_eq!(asked.iter().filter(|&&x| x == bad).count(), 1);
    }
}
