//! The agent core: the lifecycle of the agent, its configuration snapshot
//! and what it does on a tick.

use crate::clock::{check_cycle, cycle_fault};
use crate::config::{
    config_fault, default_config, with_tag, without, ConfigView, PyroscopeConfig,
};
use crate::error::PyroscopeError;
use crate::report::Report;
use crate::session::{window_fault, window_from, window_until, Session};
use crate::state::{
    agent_effects, agent_expected, agent_next, agent_transition, AgentEffect, AgentOp, AgentState,
};
use vstd::prelude::*;

verus! {

/// The cycle length, in seconds, of an agent that sets none.
pub const DEFAULT_CYCLE_SECS: u64 = 10;

/// Why an agent cannot be built, if so: what is wrong with its
/// configuration, else what is wrong with its cycle.
pub open spec fn build_fault(config: ConfigView, cycle: u64) -> Option<PyroscopeError> {
    match config_fault(config) {
        Some(e) => Some(e),
        None => cycle_fault(cycle),
    }
}

/// The agent: its lifecycle state, its configuration and its cycle.
#[derive(Debug)]
pub struct PyroscopeAgent {
    config: PyroscopeConfig,
    cycle: u64,
    state: AgentState,
}

impl PyroscopeAgent {
    /// The lifecycle state.
    pub closed spec fn state(&self) -> AgentState {
        self.state
    }

    /// The current configuration.
    pub closed spec fn config(&self) -> ConfigView {
        self.config@
    }

    /// The cycle length in seconds.
    pub closed spec fn cycle(&self) -> u64 {
        self.cycle
    }

    /// An agent that has not been built yet, for the given server and
    /// application, with the default cycle.
    pub fn builder(url: &str, application_name: &str) -> (agent: PyroscopeAgent)
        ensures
            agent.state() == AgentState::Uninitialized,
            agent.cycle() == DEFAULT_CYCLE_SECS,
            agent.config() == default_config(url@, application_name@),
    {
        let agent = PyroscopeAgent {
            config: PyroscopeConfig::new(url, application_name),
            cycle: DEFAULT_CYCLE_SECS,
            state: AgentState::Uninitialized,
        };
        agent
    }

    /// An agent that has not been built yet, with the given configuration
    /// and cycle.
    pub fn with_config(config: PyroscopeConfig, cycle: u64) -> (agent: PyroscopeAgent)
        ensures
            agent.state() == AgentState::Uninitialized,
            agent.cycle() == cycle,
            agent.config() == config@,
    {
        PyroscopeAgent { config, cycle, state: AgentState::Uninitialized }
    }

    /// The lifecycle state.
    pub fn get_state(&self) -> (s: AgentState)
        ensures
            s == self.state(),
    {
        self.state
    }

    /// The cycle length in seconds.
    pub fn cycle_secs(&self) -> (c: u64)
        ensures
            c == self.cycle(),
    {
        self.cycle
    }

    /// A copy of the current configuration.
    pub fn config_snapshot(&self) -> (c: PyroscopeConfig)
        ensures
            c@ == self.config(),
    {
        self.config.duplicate()
    }

    fn apply(&mut self, op: AgentOp) -> (r: Result<Vec<AgentEffect>, PyroscopeError>)
        ensures
            final(self).config() == old(self).config(),
            final(self).cycle() == old(self).cycle(),
            match agent_next(old(self).state(), op) {
                Some(next) => r matches Ok(effects) && effects@ == agent_effects(
                    old(self).state(),
                    op,
                ) && final(self).state() == next,
                None => r == Err::<Vec<AgentEffect>, PyroscopeError>(
                    PyroscopeError::InvalidState {
                        expected: agent_expected(op),
                        actual: old(self).state(),
                    },
                ) && final(self).state() == old(self).state(),
            },
    {
        match agent_transition(self.state, op) {
            Err(e) => Err(e),
            Ok(transition) => {
                self.state = transition.next;
                Ok(transition.effects)
            },
        }
    }

    /// Builds the agent: checks the configuration and the cycle and moves
    /// from `Uninitialized` to `Ready`. Returns the side effects to perform,
    /// in order. A failure leaves the agent as it was.
    pub fn build(&mut self) -> (r: Result<Vec<AgentEffect>, PyroscopeError>)
        ensures
            final(self).config() == old(self).config(),
            final(self).cycle() == old(self).cycle(),
            old(self).state() != AgentState::Uninitialized ==> r == Err::<
                Vec<AgentEffect>,
                PyroscopeError,
            >(
                PyroscopeError::InvalidState {
                    expected: AgentState::Uninitialized,
                    actual: old(self).state(),
                },
            ) && final(self).state() == old(self).state(),
            old(self).state() == AgentState::Uninitialized ==> match build_fault(
                old(self).config(),
                old(self).cycle(),
            ) {
                Some(e) => r == Err::<Vec<AgentEffect>, PyroscopeError>(e) && final(self).state()
                    == AgentState::Uninitialized,
                None => (r matches Ok(effects) && effects@ == agent_effects(
                    AgentState::Uninitialized,
                    AgentOp::Build,
                )) && final(self).state() == AgentState::Ready,
            },
    {
        if self.state != AgentState::Uninitialized {
            return Err(
                PyroscopeError::InvalidState {
                    expected: AgentState::Uninitialized,
                    actual: self.state,
                },
            );
        }
        match self.config.validate() {
            Err(e) => {
                return Err(e);
            },
            Ok(()) => {},
        }
        match check_cycle(self.cycle) {
            Err(e) => {
                return Err(e);
            },
            Ok(()) => {},
        }
        self.apply(AgentOp::Build)
    }

    /// Starts sampling: `Ready` to `Running`.
    pub fn start(&mut self) -> (r: Result<Vec<AgentEffect>, PyroscopeError>)
        ensures
            final(self).config() == old(self).config(),
            final(self).cycle() == old(self).cycle(),
            match agent_next(old(self).state(), AgentOp::Start) {
                Some(next) => r matches Ok(effects) && effects@ == agent_effects(
                    old(self).state(),
                    AgentOp::Start,
                ) && final(self).state() == next,
                None => r == Err::<Vec<AgentEffect>, PyroscopeError>(
                    PyroscopeError::InvalidState {
                        expected: AgentState::Ready,
                        actual: old(self).state(),
                    },
                ) && final(self).state() == old(self).state(),
            },
    {
        self.apply(AgentOp::Start)
    }

    /// Stops sampling: `Running` to `Ready`. The side effects drop the timer
    /// subscription, drain the backend one last time and stop it; the
    /// session manager stays alive.
    pub fn stop(&mut self) -> (r: Result<Vec<AgentEffect>, PyroscopeError>)
        ensures
            final(self).config() == old(self).config(),
            final(self).cycle() == old(self).cycle(),
            match agent_next(old(self).state(), AgentOp::Stop) {
                Some(next) => r matches Ok(effects) && effects@ == agent_effects(
                    old(self).state(),
                    AgentOp::Stop,
                ) && final(self).state() == next,
                None => r == Err::<Vec<AgentEffect>, PyroscopeError>(
                    PyroscopeError::InvalidState {
                        expected: AgentState::Running,
                        actual: old(self).state(),
                    },
                ) && final(self).state() == old(self).state(),
            },
    {
        self.apply(AgentOp::Stop)
    }

    /// Shuts the agent down for good. From `Running` this is a stop followed
    /// by a shutdown; on a stopped agent it succeeds and does nothing.
    pub fn shutdown(&mut self) -> (r: Result<Vec<AgentEffect>, PyroscopeError>)
        ensures
            final(self).config() == old(self).config(),
            final(self).cycle() == old(self).cycle(),
            match agent_next(old(self).state(), AgentOp::Shutdown) {
                Some(next) => r matches Ok(effects) && effects@ == agent_effects(
                    old(self).state(),
                    AgentOp::Shutdown,
                ) && final(self).state() == next,
                None => r == Err::<Vec<AgentEffect>, PyroscopeError>(
                    PyroscopeError::InvalidState {
                        expected: AgentState::Ready,
                        actual: old(self).state(),
                    },
                ) && final(self).state() == old(self).state(),
            },
    {
        self.apply(AgentOp::Shutdown)
    }

    /// Sets the cycle length of an agent that has not been built yet.
    pub fn set_cycle(&mut self, cycle: u64) -> (r: Result<(), PyroscopeError>)
        ensures
            final(self).config() == old(self).config(),
            final(self).state() == old(self).state(),
            old(self).state() == AgentState::Uninitialized ==> r is Ok && final(self).cycle()
                == cycle,
            old(self).state() != AgentState::Uninitialized ==> r == Err::<(), PyroscopeError>(
                PyroscopeError::InvalidState {
                    expected: AgentState::Uninitialized,
                    actual: old(self).state(),
                },
            ) && final(self).cycle() == old(self).cycle(),
    {
        if self.state != AgentState::Uninitialized {
            Err(
                PyroscopeError::InvalidState {
                    expected: AgentState::Uninitialized,
                    actual: self.state,
                },
            )
        } else {
            self.cycle = cycle;
            Ok(())
        }
    }

    /// Sets an agent-wide tag on a running agent. Sessions built from now on
    /// carry it; sessions built before keep the tags they were built with.
    pub fn add_global_tag(&mut self, key: &str, value: &str) -> (r: Result<(), PyroscopeError>)
        ensures
            final(self).state() == old(self).state(),
            final(self).cycle() == old(self).cycle(),
            old(self).state() == AgentState::Running ==> r is Ok && final(self).config() == (
            ConfigView { tags: with_tag(old(self).config().tags, key@, value@), ..old(self).config() }),
            old(self).state() != AgentState::Running ==> r == Err::<(), PyroscopeError>(
                PyroscopeError::InvalidState {
                    expected: AgentState::Running,
                    actual: old(self).state(),
                },
            ) && final(self).config() == old(self).config(),
    {
        if self.state != AgentState::Running {
            Err(PyroscopeError::InvalidState { expected: AgentState::Running, actual: self.state })
        } else {
            self.config.add_global_tag(key, value);
            Ok(())
        }
    }

    /// Removes an agent-wide tag from a running agent, for the sessions built
    /// from now on.
    pub fn remove_global_tag(&mut self, key: &str, value: &str) -> (r: Result<(), PyroscopeError>)
        ensures
            final(self).state() == old(self).state(),
            final(self).cycle() == old(self).cycle(),
            old(self).state() == AgentState::Running ==> r is Ok && final(self).config() == (
            ConfigView {
                tags: without(old(self).config().tags, key@, Some(value@)),
                ..old(self).config()
            }),
            old(self).state() != AgentState::Running ==> r == Err::<(), PyroscopeError>(
                PyroscopeError::InvalidState {
                    expected: AgentState::Running,
                    actual: old(self).state(),
                },
            ) && final(self).config() == old(self).config(),
    {
        if self.state != AgentState::Running {
            Err(PyroscopeError::InvalidState { expected: AgentState::Running, actual: self.state })
        } else {
            self.config.remove_global_tag(key, value);
            Ok(())
        }
    }

    /// What a drain leads to: nothing where the backend had no report, else
    /// the session of the cycle that ends at the last boundary at or before
    /// `timestamp`, with the reports and a snapshot of the configuration as
    /// it is now. On a tick, `timestamp` is the tick time; on a stop it is
    /// the time of the stop. Fails as `Session::new` does.
    pub fn snapshot(&self, timestamp: u64, reports: Vec<Report>) -> (r: Result<
        Option<Session>,
        PyroscopeError,
    >)
        ensures
            reports@.len() == 0 ==> (r matches Ok(None)),
            reports@.len() > 0 ==> match window_fault(timestamp, self.cycle()) {
                Some(e) => r matches Err(f) && f == e,
                None => r matches Ok(Some(s)) && s@.config == self.config() && s.reports == reports
                    && s.until == window_until(timestamp as int, self.cycle() as int) && s.from
                    == window_from(timestamp as int, self.cycle() as int),
            },
    {
        if reports.len() == 0 {
            return Ok(None);
        }
        match Session::new(timestamp, self.cycle, self.config.duplicate(), reports) {
            Ok(session) => Ok(Some(session)),
            Err(e) => Err(e),
        }
    }
}

} // verus!
