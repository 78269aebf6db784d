//! When a failed store operation is tried again, and after how long.

use vstd::arithmetic::power2;
use vstd::prelude::*;

use crate::error::Error;

verus! {

/// How often an operation is tried.
pub const MAX_STORE_ATTEMPTS: u32 = 5;

/// Whether an error may go away by itself.
pub open spec fn transient(e: Error) -> bool {
    e is Store || e is Io
}

/// Whether an error may go away by itself.
pub fn is_transient(e: &Error) -> (r: bool)
    ensures
        r == transient(*e),
{
    match e {
        Error::Store(_) => true,
        Error::Io(_) => true,
        _ => false,
    }
}

/// The smaller of two numbers.
pub open spec fn smaller(a: int, b: int) -> int {
    if a <= b {
        a
    } else {
        b
    }
}

/// The wait before the next try, in milliseconds: half a second, doubled with
/// each try up to half a minute, and a quarter on top.
pub open spec fn delay_ms(attempts: nat) -> int {
    let base = smaller(500 * power2::pow2(smaller(attempts - 1, 6) as nat) as int, 30_000);
    base + base / 4
}

/// Decides what to do after the `attempts`-th try failed: `None` to give up,
/// or the wait in milliseconds before the next try.
pub fn after_failure(attempts: u32, e: &Error) -> (r: Option<u64>)
    requires
        attempts >= 1,
    ensures
        r is None <==> attempts >= MAX_STORE_ATTEMPTS || !transient(*e),
        r matches Some(ms) ==> ms == delay_ms(attempts as nat),
{
    if attempts >= MAX_STORE_ATTEMPTS || !is_transient(e) {
        return None;
    }
    proof {
        power2::lemma2_to64();
    }
    let base: u64 = if attempts == 1 {
        500
    } else if attempts == 2 {
        1000
    } else if attempts == 3 {
        2000
    } else {
        4000
    };
    Some(base + base / 4)
}

/// What follows a try.
#[derive(Debug, PartialEq, Eq)]
pub enum Tried<T> {
    /// The operation is over, one way or the other.
    Over(Result<T, Error>),
    /// The operation is to be tried again after so many milliseconds.
    Again { after_ms: u64 },
}

/// Counts a try and decides what follows it: a success ends the operation, and
/// so does a failure that will not go away by itself or comes at the last try.
pub fn tried<T>(attempts: &mut u32, outcome: Result<T, Error>) -> (r: Tried<T>)
    requires
        *old(attempts) < u32::MAX,
    ensures
        *final(attempts) == *old(attempts) + 1,
        match outcome {
            Ok(_) => r == Tried::Over(outcome),
            Err(e) => if *final(attempts) >= MAX_STORE_ATTEMPTS || !transient(e) {
                r == Tried::Over(outcome)
            } else {
                r == (Tried::<T>::Again { after_ms: delay_ms(*final(attempts) as nat) as u64 })
            },
        },
{
    *attempts = *attempts + 1;
    match outcome {
        Ok(v) => Tried::Over(Ok(v)),
        Err(e) => match after_failure(*attempts, &e) {
            Some(after_ms) => Tried::Again { after_ms },
            None => Tried::Over(Err(e)),
        },
    }
}

/// The wait doubles with each of the first tries, from five eighths of a second on, and
/// stays at its cap from the seventh on.
pub proof fn law_delay_doubles_up_to_the_cap(attempts: nat)
    requires
        attempts >= 1,
    ensures
        attempts <= 5 ==> delay_ms(attempts + 1) == 2 * delay_ms(attempts),
        attempts >= 7 ==> delay_ms(attempts) == 37_500,
        delay_ms(1) == 625,
{
    power2::lemma2_to64();
}

/// Only what went wrong in the store or on disk may go away by itself, and even that is
/// tried no more than five times in all.
pub proof fn law_only_outside_trouble_is_tried_again(e: Error)
    ensures
        transient(e) <==> e is Store || e is Io,
        MAX_STORE_ATTEMPTS == 5,
{
}

/// The waits never shrink from one try to the next, and never exceed the cap
/// and its quarter.
pub proof fn law_delays_grow_to_a_cap(attempts: nat)
    requires
        attempts >= 1,
    ensures
        delay_ms(attempts) <= delay_ms(attempts + 1) <= 37_500,
        delay_ms(1) == 625,
{
    power2::lemma2_to64();
    if attempts <= 6 {
        let k = (attempts - 1) as nat;
        power2::lemma_pow2_unfold(attempts);
        assert(power2::pow2(attempts) == 2 * power2::pow2(k));
    }
}

} // verus!
