//! The contract between the agent and a sampling backend.

use crate::buffer::report_views;
use crate::error::PyroscopeError;
use crate::pyspy::{Pyspy, TagRule};
use crate::report::{Report, ReportView};
use crate::state::{backend_expected, backend_next, AgentState, BackendOp};
use vstd::prelude::*;

verus! {

/// The error of a backend operation that is illegal in state `state`.
pub open spec fn refused(state: AgentState, op: BackendOp) -> PyroscopeError {
    PyroscopeError::InvalidState { expected: backend_expected(op), actual: state }
}

/// Whether an operation went as the lifecycle asks: where it is legal it
/// either succeeds and reaches the next state or fails and stays; where it
/// is illegal it fails with `InvalidState` and stays.
pub open spec fn obeys_lifecycle(
    before: AgentState,
    op: BackendOp,
    outcome: Result<(), PyroscopeError>,
    after: AgentState,
) -> bool {
    match backend_next(before, op) {
        Some(next) => if outcome is Ok {
            after == next
        } else {
            after == before
        },
        None => outcome == Err::<(), PyroscopeError>(refused(before, op)) && after == before,
    }
}

/// A sampling backend: a state machine that mirrors the states of the agent
/// and accumulates samples between drains.
pub trait Backend {
    /// The lifecycle state.
    spec fn lifecycle(&self) -> AgentState;

    /// What has been recorded since the last drain, one report per metadata.
    spec fn pending(&self) -> Seq<ReportView>;

    /// The invariant of the implementation.
    spec fn valid(&self) -> bool;

    /// The name that identifies the backend in every request.
    spec fn name(&self) -> Seq<char>;

    /// The nominal sampling rate in samples per second.
    spec fn rate(&self) -> u32;

    /// The lifecycle state.
    fn get_state(&self) -> (s: AgentState)
        ensures
            s == self.lifecycle(),
    ;

    /// The name of the backend. An accessor: where it answers, the answer
    /// is the name.
    fn spy_name(&self) -> (r: Result<String, PyroscopeError>)
        ensures
            r matches Ok(name) ==> name@ == self.name(),
    ;

    /// The nominal sampling rate. An accessor: where it answers, the answer
    /// is the rate.
    fn sample_rate(&self) -> (r: Result<u32, PyroscopeError>)
        ensures
            r matches Ok(rate) ==> rate == self.rate(),
    ;

    /// Acquires what the backend needs to sample. Legal only in state
    /// `Uninitialized`; leads to `Ready`.
    fn initialize(&mut self) -> (r: Result<(), PyroscopeError>)
        requires
            old(self).valid(),
        ensures
            final(self).valid(),
            final(self).pending() == old(self).pending(),
            obeys_lifecycle(
                old(self).lifecycle(),
                BackendOp::Initialize,
                r,
                final(self).lifecycle(),
            ),
    ;

    /// Arms the sampler. Legal only in state `Ready`; leads to `Running`.
    fn start(&mut self) -> (r: Result<(), PyroscopeError>)
        requires
            old(self).valid(),
        ensures
            final(self).valid(),
            final(self).pending() == old(self).pending(),
            obeys_lifecycle(old(self).lifecycle(), BackendOp::Start, r, final(self).lifecycle()),
    ;

    /// Halts the sampler and leaves what has been recorded. Legal only in
    /// state `Running`; leads to `Ready`.
    fn stop(&mut self) -> (r: Result<(), PyroscopeError>)
        requires
            old(self).valid(),
        ensures
            final(self).valid(),
            final(self).pending() == old(self).pending(),
            obeys_lifecycle(old(self).lifecycle(), BackendOp::Stop, r, final(self).lifecycle()),
    ;

    /// Releases the backend. Legal in every state but `Stopped`; leads to
    /// `Stopped`.
    fn shutdown(&mut self) -> (r: Result<(), PyroscopeError>)
        requires
            old(self).valid(),
        ensures
            final(self).valid(),
            obeys_lifecycle(
                old(self).lifecycle(),
                BackendOp::Shutdown,
                r,
                final(self).lifecycle(),
            ),
    ;

    /// Drains the backend: swaps the buffer for an empty one and hands out
    /// what it held. Nothing is lost on the way: a successful drain returns
    /// everything that was pending, a failed one leaves it pending. Legal in
    /// states `Running` and `Ready`.
    fn report(&mut self) -> (r: Result<Vec<Report>, PyroscopeError>)
        requires
            old(self).valid(),
        ensures
            final(self).valid(),
            final(self).lifecycle() == old(self).lifecycle(),
            match r {
                Ok(reports) => backend_next(old(self).lifecycle(), BackendOp::Report) is Some
                    && report_views(reports@) == old(self).pending() && final(self).pending()
                    == Seq::<ReportView>::empty(),
                Err(e) => final(self).pending() == old(self).pending() && (backend_next(
                    old(self).lifecycle(),
                    BackendOp::Report,
                ) is None ==> e == refused(old(self).lifecycle(), BackendOp::Report)),
            },
    ;

    /// Adds a tag rule. Legal in every state but `Stopped`. A backend that
    /// cannot tell the samples of one thread from those of another accepts
    /// the rule and does nothing.
    fn add_rule(&mut self, rule: TagRule) -> (r: Result<(), PyroscopeError>)
        requires
            old(self).valid(),
        ensures
            final(self).valid(),
            final(self).pending() == old(self).pending(),
            final(self).lifecycle() == old(self).lifecycle(),
            backend_next(old(self).lifecycle(), BackendOp::AddRule) is None ==> r == Err::<
                (),
                PyroscopeError,
            >(refused(old(self).lifecycle(), BackendOp::AddRule)),
    ;

    /// Removes a tag rule; see `add_rule`.
    fn remove_rule(&mut self, rule: TagRule) -> (r: Result<(), PyroscopeError>)
        requires
            old(self).valid(),
        ensures
            final(self).valid(),
            final(self).pending() == old(self).pending(),
            final(self).lifecycle() == old(self).lifecycle(),
            backend_next(old(self).lifecycle(), BackendOp::RemoveRule) is None ==> r == Err::<
                (),
                PyroscopeError,
            >(refused(old(self).lifecycle(), BackendOp::RemoveRule)),
    ;
}

impl Backend for Pyspy {
    open spec fn lifecycle(&self) -> AgentState {
        self.state()
    }

    open spec fn pending(&self) -> Seq<ReportView> {
        self.buffered()
    }

    open spec fn valid(&self) -> bool {
        self.wf()
    }

    open spec fn name(&self) -> Seq<char> {
        "pyspy"@
    }

    open spec fn rate(&self) -> u32 {
        self.config().sample_rate
    }

    fn get_state(&self) -> (s: AgentState) {
        Pyspy::get_state(self)
    }

    fn spy_name(&self) -> (r: Result<String, PyroscopeError>)
        ensures
            r matches Ok(name) && name@ == "pyspy"@,
    {
        Pyspy::spy_name(self)
    }

    fn sample_rate(&self) -> (r: Result<u32, PyroscopeError>)
        ensures
            r == Ok::<u32, PyroscopeError>(self.config().sample_rate),
    {
        Pyspy::sample_rate(self)
    }

    fn initialize(&mut self) -> (r: Result<(), PyroscopeError>) {
        Pyspy::initialize(self)
    }

    fn start(&mut self) -> (r: Result<(), PyroscopeError>) {
        Pyspy::start(self)
    }

    fn stop(&mut self) -> (r: Result<(), PyroscopeError>) {
        Pyspy::stop(self)
    }

    fn shutdown(&mut self) -> (r: Result<(), PyroscopeError>) {
        Pyspy::shutdown(self)
    }

    fn report(&mut self) -> (r: Result<Vec<Report>, PyroscopeError>) {
        Pyspy::report(self)
    }

    fn add_rule(&mut self, rule: TagRule) -> (r: Result<(), PyroscopeError>) {
        Pyspy::add_rule(self, rule)
    }

    fn remove_rule(&mut self, rule: TagRule) -> (r: Result<(), PyroscopeError>) {
        Pyspy::remove_rule(self, rule)
    }
}

} // verus!
