//! The aligned periodic timer: a registry of listeners and the decision of
//! when a tick is due. The worker that waits on the clock owns a `Timer`,
//! asks it on every wake-up whether a tick is due, and lets it fan the tick
//! out.

use crate::clock::{
    align_down, align_up, check_cycle, first_boundary, lemma_align_down, lemma_align_up,
    lemma_grid_step, on_grid, out_of_range, cycle_fault, valid_cycle,
};
use vstd::arithmetic::div_mod::{
    lemma_fundamental_div_mod, lemma_mod_multiples_vanish, lemma_small_mod,
};
use crate::error::PyroscopeError;
use std::sync::mpsc::Sender;
use vstd::prelude::*;

verus! {

/// The sending half of a std channel. Nothing inside it is visible to the
/// verifier; a value is only stored, compared and handed to `send_signal`.
#[verifier::external_type_specification]
#[verifier::external_body]
#[verifier::reject_recursive_types(T)]
pub struct ExSender<T>(Sender<T>);

/// What the timer tells its listeners.
#[derive(Clone, Copy, Debug, PartialEq, Eq, Structural)]
pub enum AgentSignal {
    /// A cycle ended at this boundary (unix seconds): take a snapshot.
    NextSnapshot(u64),
    /// The agent is going away.
    Terminate,
}

/// Calls `std::sync::mpsc::Sender::send` and reports whether the value was
/// accepted. Whether it is depends on the receiving half being alive, so
/// nothing is claimed of the result.
#[verifier::external_body]
fn send_signal(tx: &Sender<AgentSignal>, signal: AgentSignal) -> (delivered: bool) {
    tx.send(signal).is_ok()
}

/// The number of listeners that accepted a signal, given for each listener
/// whether it did.
pub open spec fn accepted(outcomes: Seq<bool>) -> nat
    decreases outcomes.len(),
{
    if outcomes.len() == 0 {
        0
    } else {
        accepted(outcomes.drop_last()) + if outcomes.last() {
            1nat
        } else {
            0nat
        }
    }
}

/// No more listeners accept than there are.
pub proof fn lemma_accepted_bound(outcomes: Seq<bool>)
    ensures
        accepted(outcomes) <= outcomes.len(),
    decreases outcomes.len(),
{
    if outcomes.len() > 0 {
        lemma_accepted_bound(outcomes.drop_last());
    }
}

/// Counts the listeners that accepted a signal.
pub fn count_accepted(outcomes: &Vec<bool>) -> (n: usize)
    ensures
        n == accepted(outcomes@),
{
    let mut n: usize = 0;
    let mut i: usize = 0;
    proof {
        assert(outcomes@.take(0).len() == 0);
    }
    while i < outcomes.len()
        invariant
            i <= outcomes.len(),
            n == accepted(outcomes@.take(i as int)),
            n <= i,
        decreases outcomes.len() - i,
    {
        proof {
            let next = outcomes@.take(i + 1);
            assert(next.drop_last() =~= outcomes@.take(i as int));
            assert(next.last() == outcomes@[i as int]);
        }
        if outcomes[i] {
            n = n + 1;
        }
        i = i + 1;
    }
    proof {
        assert(outcomes@.take(outcomes.len() as int) =~= outcomes@);
    }
    n
}

/// How to program an absolute, periodic clock for a timer.
#[derive(Clone, Copy, Debug, PartialEq, Eq, Structural)]
pub struct TimerSchedule {
    /// Unix second of the first expiry.
    pub first_fire_secs: u64,
    /// Whole seconds between expiries.
    pub interval_secs: u64,
    /// Nanoseconds between expiries, on top of `interval_secs`.
    pub interval_nanos: u32,
}

/// Listener registry and tick schedule of the periodic timer.
#[derive(Debug)]
pub struct Timer {
    txs: Vec<Sender<AgentSignal>>,
    cycle: u64,
    first: u64,
    last: Option<u64>,
    terminated: bool,
}

impl Timer {
    /// The attached listeners, oldest first.
    pub closed spec fn listeners(&self) -> Seq<Sender<AgentSignal>> {
        self.txs@
    }

    /// The cycle length in seconds.
    pub closed spec fn cycle_len(&self) -> int {
        self.cycle as int
    }

    /// Whether the listeners have been dropped and the worker is to exit.
    pub closed spec fn is_terminated(&self) -> bool {
        self.terminated
    }

    /// The earliest boundary that has not been emitted yet.
    pub closed spec fn next_due(&self) -> int {
        match self.last {
            None => self.first as int,
            Some(t) => t + self.cycle,
        }
    }

    /// The invariant of a timer: a valid cycle and a schedule on its grid.
    pub closed spec fn wf(&self) -> bool {
        &&& valid_cycle(self.cycle as int)
        &&& on_grid(self.first as int, self.cycle as int)
        &&& match self.last {
            None => true,
            Some(t) => on_grid(t as int, self.cycle as int) && self.first <= t,
        }
    }

    /// Whatever a timer has been through, the cycle is valid and the next
    /// tick is due on a boundary of its grid.
    pub proof fn next_due_is_aligned(&self)
        requires
            self.wf(),
        ensures
            valid_cycle(self.cycle_len()),
            on_grid(self.next_due(), self.cycle_len()),
            self.next_due() >= 0,
    {
        match self.last {
            None => {},
            Some(t) => {
                lemma_grid_step(t as int, self.cycle as int, 1);
                assert(t + 1 * self.cycle == t + self.cycle);
            },
        }
    }

    /// Creates the timer for a worker that starts at wall time `now` (unix
    /// seconds). The first tick is due at the first boundary at or after
    /// `now`. Fails on a cycle that is zero or does not divide a minute, and
    /// where that first boundary is past the last representable second.
    pub fn initialize(cycle: u64, now: u64) -> (r: Result<Timer, PyroscopeError>)
        ensures
            match cycle_fault(cycle) {
                Some(e) => r matches Err(f) && f == e,
                None => if align_up(now as int, cycle as int) <= u64::MAX {
                    r matches Ok(t) && t.wf() && t.cycle_len() == cycle && t.next_due() == align_up(
                        now as int,
                        cycle as int,
                    ) && t.listeners() == Seq::<Sender<AgentSignal>>::empty() && !t.is_terminated()
                } else {
                    r matches Err(f) && f == out_of_range()
                },
            },
    {
        match check_cycle(cycle) {
            Err(e) => Err(e),
            Ok(()) => match first_boundary(now, cycle) {
                None => Err(
                    PyroscopeError::InvalidConfig {
                        field: crate::error::ConfigField::Timestamp,
                        reason: crate::error::ConfigReason::OutOfRange,
                    },
                ),
                Some(first) => {
                    proof {
                        lemma_align_up(now as int, cycle as int);
                    }
                    Ok(Timer { txs: Vec::new(), cycle, first, last: None, terminated: false })
                },
            },
        }
    }

    /// The cycle length in seconds.
    pub fn cycle(&self) -> (c: u64)
        ensures
            c == self.cycle_len(),
    {
        self.cycle
    }

    /// The number of attached listeners.
    pub fn listener_count(&self) -> (n: usize)
        ensures
            n == self.listeners().len(),
    {
        self.txs.len()
    }

    /// Whether the worker is to release its clock and exit.
    pub fn terminated(&self) -> (b: bool)
        ensures
            b == self.is_terminated(),
    {
        self.terminated
    }

    /// The clock programme of a freshly initialized timer: an absolute first
    /// expiry at the first due boundary, then one expiry per cycle.
    pub fn schedule(&self) -> (s: TimerSchedule)
        requires
            self.wf(),
        ensures
            s.interval_secs == self.cycle_len(),
            s.interval_nanos == 0,
            s.first_fire_secs <= self.next_due(),
            self.next_due() <= u64::MAX ==> s.first_fire_secs == self.next_due(),
            self.next_due() > u64::MAX ==> s.first_fire_secs == u64::MAX,
    {
        let first_fire_secs: u64 = match self.last {
            None => self.first,
            Some(t) => t.saturating_add(self.cycle),
        };
        TimerSchedule { first_fire_secs, interval_secs: self.cycle, interval_nanos: 0 }
    }

    /// Attaches a listener; it receives every tick from the next one on.
    /// Fails with `TimerTerminated`, changing nothing, once the listeners
    /// have been dropped.
    pub fn attach_listener(&mut self, tx: Sender<AgentSignal>) -> (r: Result<(), PyroscopeError>)
        ensures
            !old(self).is_terminated() ==> r is Ok && final(self).listeners() == old(
                self,
            ).listeners().push(tx),
            old(self).is_terminated() ==> r == Err::<(), PyroscopeError>(
                PyroscopeError::TimerTerminated,
            ) && final(self).listeners() == old(self).listeners(),
            final(self).is_terminated() == old(self).is_terminated(),
            final(self).cycle_len() == old(self).cycle_len(),
            final(self).next_due() == old(self).next_due(),
            old(self).wf() ==> final(self).wf(),
    {
        if self.terminated {
            Err(PyroscopeError::TimerTerminated)
        } else {
            self.txs.push(tx);
            Ok(())
        }
    }

    /// Detaches every listener. The subscriber set is then empty for good:
    /// the timer is terminated, emits no further tick and its worker exits
    /// the next time it looks. Calling it again changes nothing.
    pub fn drop_listeners(&mut self) -> (r: Result<(), PyroscopeError>)
        ensures
            r is Ok,
            final(self).listeners() == Seq::<Sender<AgentSignal>>::empty(),
            final(self).is_terminated(),
            final(self).cycle_len() == old(self).cycle_len(),
            final(self).next_due() == old(self).next_due(),
            old(self).wf() ==> final(self).wf(),
    {
        self.txs.clear();
        self.terminated = true;
        Ok(())
    }

    /// Decides, on a wake-up at wall time `now`, whether a tick is due. The
    /// tick carries the last boundary at or before `now`; it is due when that
    /// boundary has not been emitted yet and the timer is not terminated. A
    /// late wake-up therefore still fires for its boundary, a wake-up that
    /// missed whole cycles fires once, and an early or repeated one not at all.
    pub fn tick(&mut self, now: u64) -> (r: Option<AgentSignal>)
        requires
            old(self).wf(),
        ensures
            final(self).wf(),
            final(self).listeners() == old(self).listeners(),
            final(self).is_terminated() == old(self).is_terminated(),
            final(self).cycle_len() == old(self).cycle_len(),
            !old(self).is_terminated() && align_down(now as int, old(self).cycle_len()) >= old(
                self,
            ).next_due() ==> r == Some(
                AgentSignal::NextSnapshot(align_down(now as int, old(self).cycle_len()) as u64),
            ) && final(self).next_due() == align_down(now as int, old(self).cycle_len()) + old(
                self,
            ).cycle_len(),
            old(self).is_terminated() || align_down(now as int, old(self).cycle_len()) < old(
                self,
            ).next_due() ==> r is None && final(self).next_due() == old(self).next_due(),
    {
        proof {
            lemma_align_down(now as int, self.cycle as int);
        }
        if self.terminated {
            return None;
        }
        let boundary: u64 = now - now % self.cycle;
        let due: bool = match self.last {
            None => boundary >= self.first,
            Some(t) => boundary > t,
        };
        proof {
            match self.last {
                None => {},
                Some(t) => {
                    lemma_boundaries_apart(t as int, boundary as int, self.cycle as int);
                },
            }
        }
        if due {
            self.last = Some(boundary);
            Some(AgentSignal::NextSnapshot(boundary))
        } else {
            None
        }
    }

    /// Offers `signal` to every listener, oldest first, without waiting on
    /// any of them, and notes for each whether it accepted. Whether a
    /// listener accepts is up to its receiving half.
    fn offer(&self, signal: AgentSignal) -> (outcomes: Vec<bool>)
        ensures
            outcomes@.len() == self.listeners().len(),
    {
        let mut outcomes: Vec<bool> = Vec::new();
        let mut i: usize = 0;
        while i < self.txs.len()
            invariant
                i <= self.txs.len(),
                outcomes@.len() == i,
            decreases self.txs.len() - i,
        {
            outcomes.push(send_signal(&self.txs[i], signal));
            i = i + 1;
        }
        outcomes
    }

    /// Sends `signal` to every listener, oldest first, without waiting on any
    /// of them: a listener that does not accept it is skipped. Returns how
    /// many accepted.
    pub fn broadcast(&self, signal: AgentSignal) -> (delivered: usize)
        ensures
            delivered <= self.listeners().len(),
    {
        let outcomes = self.offer(signal);
        proof {
            lemma_accepted_bound(outcomes@);
        }
        count_accepted(&outcomes)
    }
}

/// Two boundaries of one grid are equal or at least a cycle apart.
proof fn lemma_boundaries_apart(a: int, b: int, cycle: int)
    requires
        0 < cycle,
        0 <= a,
        0 <= b,
        on_grid(a, cycle),
        on_grid(b, cycle),
    ensures
        b > a <==> b >= a + cycle,
{
    if a < b < a + cycle {
        lemma_fundamental_div_mod(a, cycle);
        lemma_mod_multiples_vanish(a / cycle, b - a, cycle);
        lemma_small_mod((b - a) as nat, cycle as nat);
    }
}

/// A timer woken within the cycle that follows a due boundary emits exactly
/// that boundary and is next due one cycle later: ticks that are not missed
/// are exactly one cycle apart, on the grid, and never before the start.
pub proof fn timely_tick(due: int, cycle: int, now: int)
    requires
        valid_cycle(cycle),
        0 <= due,
        on_grid(due, cycle),
        due <= now < due + cycle,
    ensures
        align_down(now, cycle) == due,
{
    lemma_align_down(now, cycle);
    lemma_boundaries_apart(due, align_down(now, cycle), cycle);
    lemma_boundaries_apart(align_down(now, cycle), due, cycle);
}

} // verus!
