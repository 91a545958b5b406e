//! Wall-clock arithmetic: cycles, boundaries and the tick schedule.

use crate::error::{ConfigField, ConfigReason, PyroscopeError};
use vstd::arithmetic::div_mod::{
    lemma_fundamental_div_mod, lemma_mod_bound, lemma_mod_multiples_vanish, lemma_small_mod,
};
use vstd::prelude::*;

verus! {

/// A cycle length is valid when it is positive and divides a minute.
pub open spec fn valid_cycle(cycle: int) -> bool {
    0 < cycle <= 60 && 60int % cycle == 0
}

/// Whether `t` is a boundary of the cycle grid: a multiple of the cycle.
pub open spec fn on_grid(t: int, cycle: int) -> bool {
    t % cycle == 0
}

/// The last boundary of the cycle grid at or before `t`.
pub open spec fn align_down(t: int, cycle: int) -> int {
    t - t % cycle
}

/// The first boundary of the cycle grid at or after `t`.
pub open spec fn align_up(t: int, cycle: int) -> int {
    if t % cycle == 0 {
        t
    } else {
        t - t % cycle + cycle
    }
}

/// The time of the `k`-th tick (counting from zero) of a timer started at
/// wall time `start`.
pub open spec fn tick_time(start: int, cycle: int, k: nat) -> int {
    align_up(start, cycle) + k * cycle
}

/// `align_down` lands on the grid, at most one cycle before `t`.
pub proof fn lemma_align_down(t: int, cycle: int)
    requires
        0 <= t,
        0 < cycle,
    ensures
        align_down(t, cycle) % cycle == 0,
        0 <= align_down(t, cycle) <= t < align_down(t, cycle) + cycle,
        t % cycle == 0 ==> align_down(t, cycle) == t,
{
    lemma_mod_bound(t, cycle);
    lemma_fundamental_div_mod(t, cycle);
    lemma_mod_multiples_vanish(t / cycle, 0, cycle);
    lemma_small_mod(0, cycle as nat);
}

/// Moving along the grid by whole cycles stays on the grid.
pub proof fn lemma_grid_step(t: int, cycle: int, k: int)
    requires
        0 < cycle,
        t % cycle == 0,
    ensures
        (t + k * cycle) % cycle == 0,
{
    lemma_mod_multiples_vanish(k, t, cycle);
    assert(k * cycle == cycle * k) by (nonlinear_arith);
}

/// `align_up` is the least boundary that is not before `t`.
pub proof fn lemma_align_up(t: int, cycle: int)
    requires
        0 <= t,
        0 < cycle,
    ensures
        align_up(t, cycle) % cycle == 0,
        t <= align_up(t, cycle) < t + cycle,
        forall|b: int| t <= b < align_up(t, cycle) ==> !#[trigger] on_grid(b, cycle),
{
    lemma_align_down(t, cycle);
    if t % cycle != 0 {
        lemma_grid_step(align_down(t, cycle), cycle, 1);
        assert(align_down(t, cycle) + 1 * cycle == align_up(t, cycle));
        assert forall|b: int| t <= b < align_up(t, cycle) implies !#[trigger] on_grid(
            b,
            cycle,
        ) by {
            let a = align_down(t, cycle);
            lemma_fundamental_div_mod(a, cycle);
            lemma_mod_multiples_vanish(a / cycle, b - a, cycle);
            lemma_small_mod((b - a) as nat, cycle as nat);
        }
    }
}

/// Every tick falls on a boundary that is not before the start, the first
/// tick is the earliest such boundary, and two successive ticks are exactly
/// one cycle apart.
pub proof fn tick_alignment(start: int, cycle: int, k: nat)
    requires
        0 <= start,
        valid_cycle(cycle),
    ensures
        tick_time(start, cycle, k) % cycle == 0,
        tick_time(start, cycle, k) >= start,
        tick_time(start, cycle, k + 1) - tick_time(start, cycle, k) == cycle,
        forall|b: int| start <= b < tick_time(start, cycle, 0) ==> !#[trigger] on_grid(b, cycle),
{
    lemma_align_up(start, cycle);
    lemma_grid_step(align_up(start, cycle), cycle, k as int);
    assert(k * cycle >= 0 && (k + 1) * cycle == k * cycle + cycle) by (nonlinear_arith)
        requires
            0 < cycle,
            0 <= k,
    ;
    assert(0 * cycle == 0);
}

/// What is wrong with a cycle length, if anything: it is zero, or it does
/// not divide a minute.
pub open spec fn cycle_fault(cycle: u64) -> Option<PyroscopeError> {
    if cycle == 0 {
        Some(PyroscopeError::InvalidConfig { field: ConfigField::Cycle, reason: ConfigReason::Zero })
    } else if !valid_cycle(cycle as int) {
        Some(
            PyroscopeError::InvalidConfig {
                field: ConfigField::Cycle,
                reason: ConfigReason::NotADivisorOfMinute,
            },
        )
    } else {
        None
    }
}

/// The error for a time that the agent cannot schedule.
pub open spec fn out_of_range() -> PyroscopeError {
    PyroscopeError::InvalidConfig { field: ConfigField::Timestamp, reason: ConfigReason::OutOfRange }
}

/// Accepts a cycle length, in seconds, that is positive and divides a minute.
pub fn check_cycle(cycle: u64) -> (r: Result<(), PyroscopeError>)
    ensures
        match cycle_fault(cycle) {
            Some(e) => r == Err::<(), PyroscopeError>(e),
            None => r is Ok && valid_cycle(cycle as int),
        },
{
    if cycle == 0 {
        Err(PyroscopeError::InvalidConfig { field: ConfigField::Cycle, reason: ConfigReason::Zero })
    } else if cycle > 60 || 60 % cycle != 0 {
        Err(
            PyroscopeError::InvalidConfig {
                field: ConfigField::Cycle,
                reason: ConfigReason::NotADivisorOfMinute,
            },
        )
    } else {
        Ok(())
    }
}

/// The cycle that a timestamp falls into.
#[derive(Clone, Copy, Debug, PartialEq, Eq, Structural)]
pub struct TimeRange {
    /// Start of the cycle: the last boundary at or before `current`.
    pub from: u64,
    /// End of the cycle: the first boundary after `current`.
    pub until: u64,
    /// The timestamp itself.
    pub current: u64,
    /// Seconds left until `until`.
    pub rem: u64,
}

/// What `get_time_range` returns where it succeeds.
pub open spec fn time_range_of(timestamp: u64, cycle: u64) -> TimeRange {
    TimeRange {
        from: align_down(timestamp as int, cycle as int) as u64,
        until: (align_down(timestamp as int, cycle as int) + cycle) as u64,
        current: timestamp,
        rem: (cycle - timestamp % cycle) as u64,
    }
}

/// Places `timestamp` (unix seconds) on the cycle grid. Fails on an invalid
/// cycle, and with `OutOfRange` where the end of the cycle is past the last
/// representable second.
pub fn get_time_range(timestamp: u64, cycle: u64) -> (r: Result<TimeRange, PyroscopeError>)
    ensures
        r == match cycle_fault(cycle) {
            Some(e) => Err::<TimeRange, PyroscopeError>(e),
            None => if align_down(timestamp as int, cycle as int) + cycle <= u64::MAX {
                Ok(time_range_of(timestamp, cycle))
            } else {
                Err(out_of_range())
            },
        },
{
    match check_cycle(cycle) {
        Err(e) => Err(e),
        Ok(()) => {
            let rest: u64 = timestamp % cycle;
            proof {
                lemma_align_down(timestamp as int, cycle as int);
            }
            let from: u64 = timestamp - rest;
            match from.checked_add(cycle) {
                Some(until) => Ok(TimeRange { from, until, current: timestamp, rem: cycle - rest }),
                None => Err(
                    PyroscopeError::InvalidConfig {
                        field: ConfigField::Timestamp,
                        reason: ConfigReason::OutOfRange,
                    },
                ),
            }
        },
    }
}

/// The first boundary at or after `now`, or `None` where it is past the last
/// representable second.
pub fn first_boundary(now: u64, cycle: u64) -> (r: Option<u64>)
    requires
        cycle > 0,
    ensures
        align_up(now as int, cycle as int) <= u64::MAX ==> r == Some(
            align_up(now as int, cycle as int) as u64,
        ),
        align_up(now as int, cycle as int) > u64::MAX ==> r is None,
{
    let rest: u64 = now % cycle;
    proof {
        lemma_align_down(now as int, cycle as int);
    }
    if rest == 0 {
        Some(now)
    } else {
        (now - rest).checked_add(cycle)
    }
}

} // verus!
