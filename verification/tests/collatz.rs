use libra::collatz::{argument_fits_counter, collatz_reply, collatz_steps, fits_counter, CollatzOutcome};

fn reference(mut n: u128) -> CollatzOutcome {
    let mut steps: i32 = 0;
    while n > 1 {
        steps += 1;
        n = if n % 2 == 0 {
            n / 2
        } else {
            match n.checked_mul(3).and_then(|m| m.checked_add(1)) {
                Some(m) => m,
                None => return CollatzOutcome::Overflow(steps),
            }
        };
    }
    CollatzOutcome::Finished(steps)
}

#[test]
fn collatz_of_27_takes_111_steps() {
    assert_eq!(collatz_steps(27), CollatzOutcome::Finished(111));
    assert_eq!(collatz_reply(Some("27")), "Finished after 111 iterations.");
}

#[test]
fn collatz_of_one_and_zero_take_no_steps() {
    assert_eq!(collatz_reply(Some("1")), "Finished after 0 iterations.");
    assert_eq!(collatz_reply(Some("0")), "Finished after 0 iterations.");
}

#[test]
fn collatz_small_numbers_match_reference() {
    for n in 0u128..2000 {
        assert_eq!(collatz_steps(n), reference(n));
    }
    assert_eq!(collatz_steps(6), CollatzOutcome::Finished(8));
    assert_eq!(collatz_steps(2), CollatzOutcome::Finished(1));
}

#[test]
fn collatz_overflow_on_largest_odd() {
    assert_eq!(collatz_steps(u128::MAX), CollatzOutcome::Overflow(1));
    assert_eq!(collatz_reply(Some("340282366920938463463374607431768211455")), "Overflow occurred after 1 iterations.");
}

#[test]
fn collatz_large_even_matches_reference() {
    let n = u128::MAX - 1;
    assert_eq!(collatz_steps(n), reference(n));
    let n = u128::MAX / 3;
    assert_eq!(collatz_steps(n), reference(n));
}

#[test]
fn collatz_unparsable_arguments() {
    assert_eq!(collatz_reply(None), "Unable to parse number.");
    assert_eq!(collatz_reply(Some("abc")), "Unable to parse number.");
    assert_eq!(collatz_reply(Some("")), "Unable to parse number.");
    assert_eq!(collatz_reply(Some("-5")), "Unable to parse number.");
    assert_eq!(collatz_reply(Some("+")), "Unable to parse number.");
    assert_eq!(collatz_reply(Some(" 5")), "Unable to parse number.");
    assert_eq!(collatz_reply(Some("340282366920938463463374607431768211456")), "Unable to parse number.");
}

#[test]
fn collatz_accepts_plus_sign_and_leading_zeros() {
    assert_eq!(collatz_reply(Some("+6")), "Finished after 8 iterations.");
    assert_eq!(collatz_reply(Some("0006")), "Finished after 8 iterations.");
}

#[test]
fn counter_check() {
    assert!(fits_counter(27));
    assert!(fits_counter(0));
    assert!(fits_counter(u128::MAX));
    assert!(argument_fits_counter(None));
    assert!(argument_fits_counter(Some("x")));
    assert!(argument_fits_counter(Some("97")));
}
