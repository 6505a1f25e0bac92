//! The time budget of a search.
//!
//! Time is read from `instant::Instant`, which is the standard library's
//! monotonic clock on native targets. Nothing is claimed about a reading:
//! what a search does with it is proved for every reading.

use vstd::prelude::*;

verus! {

/// `instant::Instant`, carried as it is: nothing is said of the moment.
#[verifier::external_type_specification]
#[verifier::external_body]
pub struct ExInstant(instant::Instant);

/// The moment a search began and the milliseconds it may take.
pub struct Deadline {
    pub start: instant::Instant,
    pub max_time: u64,
}

/// `instant::Instant::now`: the current moment.
#[verifier::external_body]
pub(crate) fn now() -> (start: instant::Instant) {
    instant::Instant::now()
}

/// `instant::Instant::elapsed`, in whole milliseconds.
#[verifier::external_body]
pub(crate) fn elapsed_millis(start: &instant::Instant) -> (millis: u128) {
    start.elapsed().as_millis()
}

impl Deadline {
    /// A budget of `max_time` milliseconds that starts now.
    pub fn starting_now(max_time: u64) -> (deadline: Deadline)
        ensures
            deadline.max_time == max_time,
    {
        Deadline { start: now(), max_time }
    }

    /// Whether more than the budget has elapsed: `overrun_at` the clock.
    pub fn overrun(&self) -> bool {
        self.overrun_at(elapsed_millis(&self.start))
    }

    /// Whether less than the budget has elapsed. A budget of nothing has
    /// no time left at any moment.
    pub fn time_left(&self) -> (left: bool)
        ensures
            self.max_time == 0 ==> !left,
    {
        self.time_left_at(elapsed_millis(&self.start))
    }
}

/// Whether a search under `deadline` must abort now. A search without a
/// deadline never aborts.
pub fn must_abort(deadline: &Option<Deadline>) -> (abort: bool)
    ensures
        deadline is None ==> !abort,
{
    match deadline {
        Some(d) => must_abort_at(deadline, elapsed_millis(&d.start)),
        None => false,
    }
}

/// Whether a search under `deadline` may start another pass. A search
/// without a deadline always may, one with a budget of nothing never.
pub fn may_continue(deadline: &Option<Deadline>) -> (go_on: bool)
    ensures
        deadline is None ==> go_on,
        deadline matches Some(d) ==> (d.max_time == 0 ==> !go_on),
{
    match deadline {
        Some(d) => may_continue_at(deadline, elapsed_millis(&d.start)),
        None => true,
    }
}

/// Whether a search under `deadline` must abort when the clock reads
/// `elapsed` milliseconds since the start: if there is a deadline and the
/// reading is past its budget.
pub fn must_abort_at(deadline: &Option<Deadline>, elapsed: u128) -> (abort: bool)
    ensures
        abort == (deadline matches Some(d) && elapsed > d.max_time),
{
    match deadline {
        Some(d) => d.overrun_at(elapsed),
        None => false,
    }
}

/// Whether a search under `deadline` may start another pass when the clock
/// reads `elapsed` milliseconds since the start: unless there is a deadline
/// and the reading has reached its budget.
pub fn may_continue_at(deadline: &Option<Deadline>, elapsed: u128) -> (go_on: bool)
    ensures
        go_on == (deadline matches Some(d) ==> elapsed < d.max_time),
{
    match deadline {
        Some(d) => d.time_left_at(elapsed),
        None => true,
    }
}

impl Deadline {
    /// Whether `elapsed` milliseconds since the start are more than the
    /// budget. A search aborts at such a reading.
    pub fn overrun_at(&self, elapsed: u128) -> (over: bool)
        ensures
            over == (elapsed > self.max_time),
    {
        elapsed > self.max_time as u128
    }

    /// Whether `elapsed` milliseconds since the start are less than the
    /// budget. A search starts another pass at such a reading.
    pub fn time_left_at(&self, elapsed: u128) -> (left: bool)
        ensures
            left == (elapsed < self.max_time),
    {
        elapsed < self.max_time as u128
    }
}

} // verus!
