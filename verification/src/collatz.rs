//! The Collatz command: how many steps a number takes to reach 1.

use vstd::prelude::*;
use crate::text::{decimal, law_decimal_reads_back, parse_unsigned, parse_unsigned_spec, push_decimal, shows_number};

verus! {

/// One step of the Collatz process on a `u128`: halve an even number, map an
/// odd `m` to `3 * m + 1`, or `None` when that does not fit in a `u128`.
pub open spec fn collatz_step(m: u128) -> Option<u128> {
    if m % 2 == 0 {
        Some((m / 2) as u128)
    } else if 3 * m + 1 <= u128::MAX {
        Some((3 * m + 1) as u128)
    } else {
        None
    }
}

/// The number held after `k` rounds of the command's loop started on `n`:
/// the loop stops once the number is at most 1, and an overflow ends it.
pub open spec fn collatz_state(n: u128, k: nat) -> Option<u128>
    decreases k,
{
    if k == 0 {
        Some(n)
    } else {
        match collatz_state(n, (k - 1) as nat) {
            Some(m) => if m > 1 { collatz_step(m) } else { Some(m) },
            None => None,
        }
    }
}

/// Whether the loop is still going after `k` rounds.
pub open spec fn running(n: u128, k: nat) -> bool {
    collatz_state(n, k) matches Some(m) && m > 1
}

/// The loop on `n` stops after exactly `s` rounds.
pub open spec fn stops_after(n: u128, s: nat) -> bool {
    &&& !running(n, s)
    &&& forall|j: nat| j < s ==> #[trigger] running(n, j)
}

/// How the command's loop ends.
#[derive(Clone, Copy, Debug, PartialEq, Eq)]
pub enum CollatzOutcome {
    /// The number reached 1 (or started at most 1) after this many steps.
    Finished(i32),
    /// Step number this many would have left the range of a `u128`.
    Overflow(i32),
}

/// The outcome of the loop on `n`, where it stops.
pub open spec fn collatz_outcome(n: u128) -> CollatzOutcome {
    let s = choose|s: nat| stops_after(n, s);
    if collatz_state(n, s) is Some {
        CollatzOutcome::Finished(s as i32)
    } else {
        CollatzOutcome::Overflow(s as i32)
    }
}

/// The loop on `n` stops within the `i32` step counter's range.
pub open spec fn stops_within_counter(n: u128) -> bool {
    !running(n, i32::MAX as nat)
}

proof fn lemma_running_prefix(n: u128, j: nat, k: nat)
    requires
        j <= k,
        running(n, k),
    ensures
        running(n, j),
    decreases k,
{
    if j < k {
        assert(running(n, (k - 1) as nat));
        lemma_running_prefix(n, j, (k - 1) as nat);
    }
}

proof fn lemma_stops_unique(n: u128, s: nat, t: nat)
    requires
        stops_after(n, s),
        stops_after(n, t),
    ensures
        s == t,
{
    if s < t {
        assert(running(n, s));
    } else if t < s {
        assert(running(n, t));
    }
}

proof fn lemma_stop_exists(n: u128, k: nat)
    requires
        !running(n, k),
    ensures
        exists|s: nat| s <= k && stops_after(n, s),
    decreases k,
{
    if k == 0 {
        assert(stops_after(n, 0));
    } else if running(n, (k - 1) as nat) {
        assert forall|j: nat| j < k implies #[trigger] running(n, j) by {
            lemma_running_prefix(n, j, (k - 1) as nat);
        }
        assert(stops_after(n, k));
    } else {
        lemma_stop_exists(n, (k - 1) as nat);
    }
}

/// The Collatz command starts from its argument.
pub proof fn law_collatz_starts_at_argument(n: u128)
    ensures
        collatz_state(n, 0) == Some(n),
{
}

/// An even number above 1 is halved.
pub proof fn law_collatz_halves_even(n: u128, k: nat, m: u128)
    requires
        collatz_state(n, k) == Some(m),
        m > 1,
        m % 2 == 0,
    ensures
        collatz_state(n, k + 1) == Some((m / 2) as u128),
{
    assert(collatz_state(n, k + 1) == (if m > 1 { collatz_step(m) } else { Some(m) }));
}

/// An odd number `m` above 1 becomes `3 * m + 1` whenever that fits in a
/// `u128`: the loop only overflows past `u128::MAX`.
pub proof fn law_collatz_triples_odd(n: u128, k: nat, m: u128)
    requires
        collatz_state(n, k) == Some(m),
        m > 1,
        m % 2 == 1,
        3 * m + 1 <= u128::MAX,
    ensures
        collatz_state(n, k + 1) == Some((3 * m + 1) as u128),
{
    assert(collatz_state(n, k + 1) == (if m > 1 { collatz_step(m) } else { Some(m) }));
}

/// An odd number `m` above 1 whose `3 * m + 1` exceeds `u128::MAX` ends the
/// loop in an overflow.
pub proof fn law_collatz_overflows_past_u128(n: u128, k: nat, m: u128)
    requires
        collatz_state(n, k) == Some(m),
        m > 1,
        m % 2 == 1,
        3 * m + 1 > u128::MAX,
    ensures
        collatz_state(n, k + 1) is None,
{
    assert(collatz_state(n, k + 1) == (if m > 1 { collatz_step(m) } else { Some(m) }));
}

/// Once the number is at most 1 it stays as it is.
pub proof fn law_collatz_stops_at_one(n: u128, k: nat, m: u128)
    requires
        collatz_state(n, k) == Some(m),
        m <= 1,
    ensures
        collatz_state(n, k + 1) == Some(m),
{
}

/// The outcome reports where the loop stops: `Finished(s)` when after `s`
/// steps the number is at most 1, every earlier number being above 1;
/// `Overflow(s)` when step `s` is the step from an odd number above 1 whose
/// `3 * m + 1` exceeds `u128::MAX`, every earlier step having fitted.
pub proof fn law_collatz_outcome(n: u128)
    requires
        stops_within_counter(n),
    ensures
        match collatz_outcome(n) {
            CollatzOutcome::Finished(s) => {
                &&& 0 <= s
                &&& collatz_state(n, s as nat) matches Some(m) && m <= 1
                &&& forall|j: nat| j < s ==> ((#[trigger] collatz_state(n, j)) matches Some(m) && m > 1)
            },
            CollatzOutcome::Overflow(s) => {
                &&& 1 <= s
                &&& collatz_state(n, (s - 1) as nat) matches Some(m) && m > 1 && m % 2 == 1
                    && 3 * m + 1 > u128::MAX
                &&& forall|j: nat| j < s ==> ((#[trigger] collatz_state(n, j)) matches Some(m) && m > 1)
            },
        },
{
    lemma_stop_exists(n, i32::MAX as nat);
    let s = choose|s: nat| s <= i32::MAX && stops_after(n, s);
    lemma_outcome_at(n, s);
    assert forall|j: nat| j < s implies ((#[trigger] collatz_state(n, j)) matches Some(m) && m > 1) by {
        assert(running(n, j));
    }
    if collatz_state(n, s) is None {
        assert(s != 0);
        assert(running(n, (s - 1) as nat));
        let m = collatz_state(n, (s - 1) as nat)->0;
        if m % 2 == 0 {
            assert(collatz_state(n, s) == collatz_step(m));
        }
    }
}

/// Runs the Collatz process on `n`, counting steps in an `i32` as the
/// command does, until the number is at most 1 or a step overflows.
pub fn collatz_steps(n: u128) -> (r: CollatzOutcome)
    requires
        stops_within_counter(n),
    ensures
        r == collatz_outcome(n),
        outcome_steps(r) >= 0,
{
    let mut num: u128 = n;
    let mut steps: i32 = 0;
    while num > 1
        invariant
            0 <= steps,
            stops_within_counter(n),
            collatz_state(n, steps as nat) == Some(num),
            forall|j: nat| j < steps ==> #[trigger] running(n, j),
        decreases i32::MAX - steps,
    {
        proof {
            assert(running(n, steps as nat));
            if steps == i32::MAX {
                assert(false);
            }
        }
        let ghost prev = steps as nat;
        steps = steps + 1;
        let next = if num % 2 == 0 {
            num / 2
        } else {
            match num.checked_mul(3) {
                Some(m) => match m.checked_add(1) {
                    Some(m) => m,
                    None => {
                        proof {
                            assert(collatz_state(n, steps as nat) is None);
                            assert(stops_after(n, steps as nat));
                            lemma_outcome_at(n, steps as nat);
                        }
                        return CollatzOutcome::Overflow(steps);
                    },
                },
                None => {
                    proof {
                        assert(collatz_state(n, steps as nat) is None);
                        assert(stops_after(n, steps as nat));
                        lemma_outcome_at(n, steps as nat);
                    }
                    return CollatzOutcome::Overflow(steps);
                },
            }
        };
        num = next;
        assert(collatz_state(n, steps as nat) == Some(num));
    }
    proof {
        assert(stops_after(n, steps as nat));
        lemma_outcome_at(n, steps as nat);
    }
    CollatzOutcome::Finished(steps)
}

proof fn lemma_outcome_at(n: u128, s: nat)
    requires
        stops_after(n, s),
        s <= i32::MAX,
    ensures
        collatz_outcome(n) == (if collatz_state(n, s) is Some {
            CollatzOutcome::Finished(s as i32)
        } else {
            CollatzOutcome::Overflow(s as i32)
        }),
{
    let t = choose|t: nat| stops_after(n, t);
    lemma_stops_unique(n, s, t);
}

/// Whether the loop on `n` stops before its `i32` step counter would have to
/// go past `i32::MAX`.
pub fn fits_counter(n: u128) -> (r: bool)
    ensures
        r == stops_within_counter(n),
{
    let mut num: u128 = n;
    let mut steps: i32 = 0;
    while num > 1
        invariant
            0 <= steps,
            collatz_state(n, steps as nat) == Some(num),
        decreases i32::MAX - steps,
    {
        if steps == i32::MAX {
            assert(running(n, i32::MAX as nat));
            return false;
        }
        steps = steps + 1;
        if num % 2 == 0 {
            num = num / 2;
        } else {
            match num.checked_mul(3) {
                Some(m) => match m.checked_add(1) {
                    Some(m) => {
                        num = m;
                    },
                    None => {
                        proof { lemma_stopped_stays(n, steps as nat); }
                        return true;
                    },
                },
                None => {
                    proof { lemma_stopped_stays(n, steps as nat); }
                    return true;
                },
            }
        }
    }
    proof { lemma_stopped_stays(n, steps as nat); }
    true
}

proof fn lemma_stopped_stays(n: u128, s: nat)
    requires
        s <= i32::MAX,
        !running(n, s),
    ensures
        stops_within_counter(n),
{
    if running(n, i32::MAX as nat) {
        lemma_running_prefix(n, s, i32::MAX as nat);
    }
}

/// Whether the Collatz command can count the steps for this argument in its
/// `i32` counter; where it cannot, the command's counter overflows.
pub fn argument_fits_counter(arg: Option<&str>) -> (r: bool)
    ensures
        r == (collatz_input(opt_chars(arg)) matches Some(v) ==> stops_within_counter(v as u128)),
{
    let parsed = match arg {
        Some(a) => parse_unsigned(a, u128::MAX),
        None => None,
    };
    match parsed {
        Some(v) => fits_counter(v),
        None => true,
    }
}

/// The reply to an argument that is missing or is not a `u128`.
pub open spec fn unparsable_reply() -> Seq<char> {
    "Unable to parse number."@
}

/// The reply that reports an outcome of the loop.
pub open spec fn outcome_reply(o: CollatzOutcome) -> Seq<char> {
    match o {
        CollatzOutcome::Finished(s) => "Finished after "@ + decimal(s as nat) + " iterations."@,
        CollatzOutcome::Overflow(s) => "Overflow occurred after "@ + decimal(s as nat)
            + " iterations."@,
    }
}

/// The reply names the outcome and the step count in full, as a decimal
/// numeral.
pub proof fn law_outcome_reply_shows_steps(o: CollatzOutcome)
    requires
        outcome_steps(o) >= 0,
    ensures
        exists|d: Seq<char>| #![trigger shows_number(d, outcome_steps(o) as nat)]
            shows_number(d, outcome_steps(o) as nat) && outcome_reply(o) == match o {
                CollatzOutcome::Finished(_) => "Finished after "@ + d + " iterations."@,
                CollatzOutcome::Overflow(_) => "Overflow occurred after "@ + d + " iterations."@,
            },
{
    law_decimal_reads_back(outcome_steps(o) as nat);
    assert(shows_number(decimal(outcome_steps(o) as nat), outcome_steps(o) as nat));
}

/// The number the command reads from its argument, if any.
pub open spec fn collatz_input(arg: Option<Seq<char>>) -> Option<nat> {
    match arg {
        Some(a) => parse_unsigned_spec(a, u128::MAX as nat),
        None => None,
    }
}

/// The reply of the Collatz command to its argument.
pub open spec fn collatz_reply_spec(arg: Option<Seq<char>>) -> Seq<char> {
    match collatz_input(arg) {
        Some(v) => outcome_reply(collatz_outcome(v as u128)),
        None => unparsable_reply(),
    }
}

/// The characters of an optional string.
pub open spec fn opt_chars(o: Option<&str>) -> Option<Seq<char>> {
    match o {
        Some(s) => Some(s@),
        None => None,
    }
}

/// The step count an outcome reports.
pub open spec fn outcome_steps(o: CollatzOutcome) -> i32 {
    match o {
        CollatzOutcome::Finished(s) => s,
        CollatzOutcome::Overflow(s) => s,
    }
}

/// The text that reports an outcome of the loop.
fn outcome_message(o: CollatzOutcome) -> (r: String)
    requires
        outcome_steps(o) >= 0,
    ensures
        r@ == outcome_reply(o),
{
    match o {
        CollatzOutcome::Finished(s) => {
            let mut r = String::from_str("Finished after ");
            push_decimal(&mut r, s as u64);
            r.append(" iterations.");
            r
        },
        CollatzOutcome::Overflow(s) => {
            let mut r = String::from_str("Overflow occurred after ");
            push_decimal(&mut r, s as u64);
            r.append(" iterations.");
            r
        },
    }
}

/// The Collatz command: reads a `u128` from the argument and reports the
/// number of steps the process takes to reach 1, or the step at which it
/// overflowed, or that the argument is not a number.
pub fn collatz_reply(arg: Option<&str>) -> (r: String)
    requires
        collatz_input(opt_chars(arg)) matches Some(v) ==> stops_within_counter(v as u128),
    ensures
        r@ == collatz_reply_spec(opt_chars(arg)),
{
    let parsed = match arg {
        Some(a) => parse_unsigned(a, u128::MAX),
        None => None,
    };
    match parsed {
        Some(v) => outcome_message(collatz_steps(v)),
        None => String::from_str("Unable to parse number."),
    }
}

} // verus!
