//! A time budget for long polls.
use vstd::prelude::*;
use std::time::Instant;

verus! {

#[verifier::external_type_specification]
#[verifier::external_body]
pub struct ExInstant(Instant);

/// Relies on `std::time::Instant::now`: the current instant.
#[verifier::external_body]
fn instant_now() -> (r: Instant) {
    Instant::now()
}

/// Relies on `std::time::Instant::elapsed` and `Duration::as_millis`: the
/// whole milliseconds since `start`.
#[verifier::external_body]
fn millis_since(start: &Instant) -> (r: u128) {
    start.elapsed().as_millis()
}

/// Milliseconds since `start`, saturated at `u64::MAX`.
fn elapsed_ms(start: &Instant) -> (r: u64) {
    let ms = millis_since(start);
    if ms > u64::MAX as u128 {
        u64::MAX
    } else {
        ms as u64
    }
}

/// A budget of `budget_ms` milliseconds that started when it was made.
pub struct Deadline {
    pub start: Instant,
    pub budget_ms: u64,
}

impl Deadline {
    /// A deadline `ms` milliseconds from now.
    pub fn new(ms: u64) -> (r: Deadline)
        ensures
            r.budget_ms == ms,
    {
        Deadline { start: instant_now(), budget_ms: ms }
    }

    /// Milliseconds left once `elapsed_ms` have passed: the budget less the
    /// time spent, and 0 once it is spent.
    pub fn remaining_at(&self, elapsed_ms: u64) -> (r: u64)
        ensures
            r == if elapsed_ms >= self.budget_ms { 0 } else { self.budget_ms - elapsed_ms },
    {
        if elapsed_ms >= self.budget_ms {
            0
        } else {
            self.budget_ms - elapsed_ms
        }
    }

    /// Whether the budget is spent once `elapsed_ms` have passed.
    pub fn exceeded_at(&self, elapsed_ms: u64) -> (r: bool)
        ensures
            r == (elapsed_ms >= self.budget_ms),
    {
        elapsed_ms >= self.budget_ms
    }

    /// Milliseconds left now; never more than the budget.
    pub fn remaining(&self) -> (r: u64)
        ensures
            r <= self.budget_ms,
    {
        self.remaining_at(elapsed_ms(&self.start))
    }

    /// Whether the budget is spent now.
    pub fn exceeded(&self) -> (r: bool)
        ensures
            self.budget_ms == 0 ==> r,
    {
        self.exceeded_at(elapsed_ms(&self.start))
    }
}

} // verus!
