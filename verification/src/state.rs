//! Lifecycle state machines of the agent and of a sampling backend.

use crate::error::PyroscopeError;
use vstd::prelude::*;

verus! {

/// Lifecycle state, shared by the agent and by every backend.
#[derive(Clone, Copy, Debug, PartialEq, Eq, Structural)]
pub enum AgentState {
    Uninitialized,
    Ready,
    Running,
    Stopped,
}

/// A lifecycle operation a user can ask of the agent.
#[derive(Clone, Copy, Debug, PartialEq, Eq, Structural)]
pub enum AgentOp {
    Build,
    Start,
    Stop,
    Shutdown,
}

/// One side effect the supervisor performs while carrying out a transition.
#[derive(Clone, Copy, Debug, PartialEq, Eq, Structural)]
pub enum AgentEffect {
    InitializeBackend,
    SpawnSessionManager,
    SubscribeTimer,
    StartBackend,
    DropTimerSubscription,
    FinalDrain,
    StopBackend,
    KillSessionManager,
    ShutdownBackend,
    JoinWorkers,
}

/// An operation on a sampling backend.
#[derive(Clone, Copy, Debug, PartialEq, Eq, Structural)]
pub enum BackendOp {
    Initialize,
    Start,
    Stop,
    Shutdown,
    Report,
    AddRule,
    RemoveRule,
}

/// The state the agent reaches by `op` from `state`, or `None` where the
/// operation is illegal.
pub open spec fn agent_next(state: AgentState, op: AgentOp) -> Option<AgentState> {
    match (state, op) {
        (AgentState::Uninitialized, AgentOp::Build) => Some(AgentState::Ready),
        (AgentState::Ready, AgentOp::Start) => Some(AgentState::Running),
        (AgentState::Running, AgentOp::Stop) => Some(AgentState::Ready),
        (AgentState::Ready, AgentOp::Shutdown) => Some(AgentState::Stopped),
        (AgentState::Running, AgentOp::Shutdown) => Some(AgentState::Stopped),
        (AgentState::Stopped, AgentOp::Shutdown) => Some(AgentState::Stopped),
        _ => None,
    }
}

/// The state an operation is normally issued from; it is the `expected`
/// state of the error that an illegal call gets.
pub open spec fn agent_expected(op: AgentOp) -> AgentState {
    match op {
        AgentOp::Build => AgentState::Uninitialized,
        AgentOp::Start => AgentState::Ready,
        AgentOp::Stop => AgentState::Running,
        AgentOp::Shutdown => AgentState::Ready,
    }
}

/// Side effects of stopping a running agent, in the order they happen.
pub open spec fn stop_effects() -> Seq<AgentEffect> {
    seq![AgentEffect::DropTimerSubscription, AgentEffect::FinalDrain, AgentEffect::StopBackend]
}

/// Side effects of shutting down an agent that is not running.
pub open spec fn shutdown_effects() -> Seq<AgentEffect> {
    seq![AgentEffect::KillSessionManager, AgentEffect::ShutdownBackend, AgentEffect::JoinWorkers]
}

/// The side effects of a legal transition, in order. A shutdown of a running
/// agent is a stop followed by a shutdown; a shutdown of a stopped agent does
/// nothing.
pub open spec fn agent_effects(state: AgentState, op: AgentOp) -> Seq<AgentEffect> {
    match (state, op) {
        (AgentState::Uninitialized, AgentOp::Build) => seq![
            AgentEffect::InitializeBackend,
            AgentEffect::SpawnSessionManager,
            AgentEffect::SubscribeTimer,
        ],
        (AgentState::Ready, AgentOp::Start) => seq![AgentEffect::StartBackend],
        (AgentState::Running, AgentOp::Stop) => stop_effects(),
        (AgentState::Ready, AgentOp::Shutdown) => shutdown_effects(),
        (AgentState::Running, AgentOp::Shutdown) => stop_effects() + shutdown_effects(),
        _ => Seq::empty(),
    }
}

/// The outcome of a legal agent transition.
#[derive(Debug)]
pub struct Transition {
    pub next: AgentState,
    pub effects: Vec<AgentEffect>,
}

/// Decides a user-facing lifecycle operation: the next state and the side
/// effects to perform, or `InvalidState` with the state left as it is.
pub fn agent_transition(state: AgentState, op: AgentOp) -> (r: Result<Transition, PyroscopeError>)
    ensures
        match agent_next(state, op) {
            Some(next) => r matches Ok(t) && t.next == next && t.effects@ == agent_effects(
                state,
                op,
            ),
            None => r == Err::<Transition, PyroscopeError>(
                PyroscopeError::InvalidState { expected: agent_expected(op), actual: state },
            ),
        },
{
    match op {
        AgentOp::Build => match state {
            AgentState::Uninitialized => {
                let mut effects: Vec<AgentEffect> = Vec::new();
                effects.push(AgentEffect::InitializeBackend);
                effects.push(AgentEffect::SpawnSessionManager);
                effects.push(AgentEffect::SubscribeTimer);
                assert(effects@ =~= agent_effects(state, op));
                Ok(Transition { next: AgentState::Ready, effects })
            },
            _ => Err(
                PyroscopeError::InvalidState { expected: AgentState::Uninitialized, actual: state },
            ),
        },
        AgentOp::Start => match state {
            AgentState::Ready => {
                let mut effects: Vec<AgentEffect> = Vec::new();
                effects.push(AgentEffect::StartBackend);
                assert(effects@ =~= agent_effects(state, op));
                Ok(Transition { next: AgentState::Running, effects })
            },
            _ => Err(PyroscopeError::InvalidState { expected: AgentState::Ready, actual: state }),
        },
        AgentOp::Stop => match state {
            AgentState::Running => {
                let mut effects: Vec<AgentEffect> = Vec::new();
                push_stop_effects(&mut effects);
                assert(effects@ =~= agent_effects(state, op));
                Ok(Transition { next: AgentState::Ready, effects })
            },
            _ => Err(PyroscopeError::InvalidState { expected: AgentState::Running, actual: state }),
        },
        AgentOp::Shutdown => match state {
            AgentState::Ready => {
                let mut effects: Vec<AgentEffect> = Vec::new();
                push_shutdown_effects(&mut effects);
                assert(effects@ =~= agent_effects(state, op));
                Ok(Transition { next: AgentState::Stopped, effects })
            },
            AgentState::Running => {
                let mut effects: Vec<AgentEffect> = Vec::new();
                push_stop_effects(&mut effects);
                push_shutdown_effects(&mut effects);
                assert(effects@ =~= agent_effects(state, op));
                Ok(Transition { next: AgentState::Stopped, effects })
            },
            AgentState::Stopped => {
                let effects: Vec<AgentEffect> = Vec::new();
                assert(effects@ =~= agent_effects(state, op));
                Ok(Transition { next: AgentState::Stopped, effects })
            },
            AgentState::Uninitialized => Err(
                PyroscopeError::InvalidState { expected: AgentState::Ready, actual: state },
            ),
        },
    }
}

fn push_stop_effects(effects: &mut Vec<AgentEffect>)
    ensures
        final(effects)@ == old(effects)@ + stop_effects(),
{
    effects.push(AgentEffect::DropTimerSubscription);
    effects.push(AgentEffect::FinalDrain);
    effects.push(AgentEffect::StopBackend);
    assert(effects@ =~= old(effects)@ + stop_effects());
}

fn push_shutdown_effects(effects: &mut Vec<AgentEffect>)
    ensures
        final(effects)@ == old(effects)@ + shutdown_effects(),
{
    effects.push(AgentEffect::KillSessionManager);
    effects.push(AgentEffect::ShutdownBackend);
    effects.push(AgentEffect::JoinWorkers);
    assert(effects@ =~= old(effects)@ + shutdown_effects());
}

/// The state a backend reaches by `op` from `state`, or `None` where the
/// operation is illegal. Draining a report and changing tag rules leave the
/// state as it is.
pub open spec fn backend_next(state: AgentState, op: BackendOp) -> Option<AgentState> {
    match op {
        BackendOp::Initialize => if state == AgentState::Uninitialized {
            Some(AgentState::Ready)
        } else {
            None
        },
        BackendOp::Start => if state == AgentState::Ready {
            Some(AgentState::Running)
        } else {
            None
        },
        BackendOp::Stop => if state == AgentState::Running {
            Some(AgentState::Ready)
        } else {
            None
        },
        BackendOp::Shutdown => if state == AgentState::Stopped {
            None
        } else {
            Some(AgentState::Stopped)
        },
        BackendOp::Report => if state == AgentState::Running || state == AgentState::Ready {
            Some(state)
        } else {
            None
        },
        BackendOp::AddRule | BackendOp::RemoveRule => if state == AgentState::Stopped {
            None
        } else {
            Some(state)
        },
    }
}

/// The state named as `expected` when a backend operation is refused.
pub open spec fn backend_expected(op: BackendOp) -> AgentState {
    match op {
        BackendOp::Initialize => AgentState::Uninitialized,
        BackendOp::Start => AgentState::Ready,
        BackendOp::Stop => AgentState::Running,
        BackendOp::Shutdown => AgentState::Ready,
        BackendOp::Report => AgentState::Running,
        BackendOp::AddRule => AgentState::Running,
        BackendOp::RemoveRule => AgentState::Running,
    }
}

/// Decides a backend operation: the next state, or `InvalidState`.
pub fn backend_transition(state: AgentState, op: BackendOp) -> (r: Result<AgentState, PyroscopeError>)
    ensures
        match backend_next(state, op) {
            Some(next) => r == Ok::<AgentState, PyroscopeError>(next),
            None => r == Err::<AgentState, PyroscopeError>(
                PyroscopeError::InvalidState { expected: backend_expected(op), actual: state },
            ),
        },
{
    let (legal, next, expected): (bool, AgentState, AgentState) = match op {
        BackendOp::Initialize => (
            state == AgentState::Uninitialized,
            AgentState::Ready,
            AgentState::Uninitialized,
        ),
        BackendOp::Start => (state == AgentState::Ready, AgentState::Running, AgentState::Ready),
        BackendOp::Stop => (state == AgentState::Running, AgentState::Ready, AgentState::Running),
        BackendOp::Shutdown => (state != AgentState::Stopped, AgentState::Stopped, AgentState::Ready),
        BackendOp::Report => (
            state == AgentState::Running || state == AgentState::Ready,
            state,
            AgentState::Running,
        ),
        BackendOp::AddRule => (state != AgentState::Stopped, state, AgentState::Running),
        BackendOp::RemoveRule => (state != AgentState::Stopped, state, AgentState::Running),
    };
    if legal {
        Ok(next)
    } else {
        Err(PyroscopeError::InvalidState { expected, actual: state })
    }
}

/// Shutting down is idempotent: wherever a shutdown is legal it ends in
/// `Stopped`, a second shutdown succeeds as well, stays in `Stopped` and has
/// no side effect, so no worker is joined a second time.
pub proof fn shutdown_is_idempotent(state: AgentState)
    requires
        agent_next(state, AgentOp::Shutdown) is Some,
    ensures
        agent_next(state, AgentOp::Shutdown) == Some(AgentState::Stopped),
        agent_next(AgentState::Stopped, AgentOp::Shutdown) == Some(AgentState::Stopped),
        agent_effects(AgentState::Stopped, AgentOp::Shutdown) == Seq::<AgentEffect>::empty(),
        agent_effects(state, AgentOp::Shutdown).contains(AgentEffect::JoinWorkers) <==> state
            != AgentState::Stopped,
{
    if state == AgentState::Ready {
        assert(shutdown_effects()[2] == AgentEffect::JoinWorkers);
    } else if state == AgentState::Running {
        assert((stop_effects() + shutdown_effects())[5] == AgentEffect::JoinWorkers);
    }
}

/// Every operation but a shutdown is refused once the agent has stopped.
pub proof fn stopped_refuses_all_but_shutdown(op: AgentOp)
    requires
        op != AgentOp::Shutdown,
    ensures
        agent_next(AgentState::Stopped, op) is None,
{
}

} // verus!
