use pyroscope::agent::PyroscopeAgent;
use pyroscope::config::PyroscopeConfig;
use pyroscope::error::{ConfigField, ConfigReason, PyroscopeError};
use pyroscope::state::{
    agent_transition, backend_transition, AgentEffect, AgentOp, AgentState, BackendOp,
};

fn invalid_state(expected: AgentState, actual: AgentState) -> PyroscopeError {
    PyroscopeError::InvalidState { expected, actual }
}

#[test]
fn agent_walks_through_its_states() {
    let t = agent_transition(AgentState::Uninitialized, AgentOp::Build).unwrap();
    assert_eq!(t.next, AgentState::Ready);
    assert_eq!(
        t.effects,
        vec![
            AgentEffect::InitializeBackend,
            AgentEffect::SpawnSessionManager,
            AgentEffect::SubscribeTimer
        ]
    );
    let t = agent_transition(AgentState::Ready, AgentOp::Start).unwrap();
    assert_eq!(t.next, AgentState::Running);
    assert_eq!(t.effects, vec![AgentEffect::StartBackend]);
    let t = agent_transition(AgentState::Running, AgentOp::Stop).unwrap();
    assert_eq!(t.next, AgentState::Ready);
    assert_eq!(
        t.effects,
        vec![AgentEffect::DropTimerSubscription, AgentEffect::FinalDrain, AgentEffect::StopBackend]
    );
    let t = agent_transition(AgentState::Ready, AgentOp::Shutdown).unwrap();
    assert_eq!(t.next, AgentState::Stopped);
    assert_eq!(
        t.effects,
        vec![
            AgentEffect::KillSessionManager,
            AgentEffect::ShutdownBackend,
            AgentEffect::JoinWorkers
        ]
    );
}

#[test]
fn shutdown_of_a_running_agent_stops_it_first() {
    let t = agent_transition(AgentState::Running, AgentOp::Shutdown).unwrap();
    assert_eq!(t.next, AgentState::Stopped);
    assert_eq!(
        t.effects,
        vec![
            AgentEffect::DropTimerSubscription,
            AgentEffect::FinalDrain,
            AgentEffect::StopBackend,
            AgentEffect::KillSessionManager,
            AgentEffect::ShutdownBackend,
            AgentEffect::JoinWorkers
        ]
    );
}

#[test]
fn shutdown_twice_succeeds_and_joins_no_worker_again() {
    let first = agent_transition(AgentState::Ready, AgentOp::Shutdown).unwrap();
    assert!(first.effects.contains(&AgentEffect::JoinWorkers));
    let second = agent_transition(first.next, AgentOp::Shutdown).unwrap();
    assert_eq!(second.next, AgentState::Stopped);
    assert!(second.effects.is_empty());
}

#[test]
fn illegal_agent_operations_leave_the_state_alone() {
    let cases = [
        (AgentState::Uninitialized, AgentOp::Start, AgentState::Ready),
        (AgentState::Uninitialized, AgentOp::Stop, AgentState::Running),
        (AgentState::Uninitialized, AgentOp::Shutdown, AgentState::Ready),
        (AgentState::Ready, AgentOp::Build, AgentState::Uninitialized),
        (AgentState::Ready, AgentOp::Stop, AgentState::Running),
        (AgentState::Running, AgentOp::Build, AgentState::Uninitialized),
        (AgentState::Running, AgentOp::Start, AgentState::Ready),
        (AgentState::Stopped, AgentOp::Build, AgentState::Uninitialized),
        (AgentState::Stopped, AgentOp::Start, AgentState::Ready),
        (AgentState::Stopped, AgentOp::Stop, AgentState::Running),
    ];
    for (state, op, expected) in cases {
        match agent_transition(state, op) {
            Err(e) => assert_eq!(e, invalid_state(expected, state)),
            Ok(_) => panic!("an illegal operation was accepted"),
        }
    }
}

#[test]
fn backend_transitions() {
    assert_eq!(
        backend_transition(AgentState::Uninitialized, BackendOp::Initialize),
        Ok(AgentState::Ready)
    );
    assert_eq!(backend_transition(AgentState::Ready, BackendOp::Start), Ok(AgentState::Running));
    assert_eq!(backend_transition(AgentState::Running, BackendOp::Stop), Ok(AgentState::Ready));
    assert_eq!(backend_transition(AgentState::Ready, BackendOp::Shutdown), Ok(AgentState::Stopped));
    assert_eq!(
        backend_transition(AgentState::Uninitialized, BackendOp::Shutdown),
        Ok(AgentState::Stopped)
    );
    assert_eq!(
        backend_transition(AgentState::Running, BackendOp::Shutdown),
        Ok(AgentState::Stopped)
    );
    assert_eq!(backend_transition(AgentState::Running, BackendOp::Report), Ok(AgentState::Running));
    assert_eq!(backend_transition(AgentState::Ready, BackendOp::Report), Ok(AgentState::Ready));
    assert_eq!(backend_transition(AgentState::Ready, BackendOp::AddRule), Ok(AgentState::Ready));
    assert_eq!(
        backend_transition(AgentState::Uninitialized, BackendOp::RemoveRule),
        Ok(AgentState::Uninitialized)
    );
}

#[test]
fn backend_refuses_illegal_operations() {
    assert_eq!(
        backend_transition(AgentState::Ready, BackendOp::Initialize),
        Err(invalid_state(AgentState::Uninitialized, AgentState::Ready))
    );
    assert_eq!(
        backend_transition(AgentState::Running, BackendOp::Start),
        Err(invalid_state(AgentState::Ready, AgentState::Running))
    );
    assert_eq!(
        backend_transition(AgentState::Ready, BackendOp::Stop),
        Err(invalid_state(AgentState::Running, AgentState::Ready))
    );
    assert_eq!(
        backend_transition(AgentState::Stopped, BackendOp::Shutdown),
        Err(invalid_state(AgentState::Ready, AgentState::Stopped))
    );
    assert_eq!(
        backend_transition(AgentState::Uninitialized, BackendOp::Report),
        Err(invalid_state(AgentState::Running, AgentState::Uninitialized))
    );
    assert_eq!(
        backend_transition(AgentState::Stopped, BackendOp::AddRule),
        Err(invalid_state(AgentState::Running, AgentState::Stopped))
    );
}

#[test]
fn agent_handle_runs_the_lifecycle() {
    let mut agent = PyroscopeAgent::builder("http://localhost:4040", "example");
    assert_eq!(agent.get_state(), AgentState::Uninitialized);
    assert_eq!(agent.cycle_secs(), 10);
    assert_eq!(agent.build().unwrap().len(), 3);
    assert_eq!(agent.get_state(), AgentState::Ready);
    assert_eq!(agent.start().unwrap(), vec![AgentEffect::StartBackend]);
    assert_eq!(agent.get_state(), AgentState::Running);
    assert_eq!(agent.stop().unwrap().len(), 3);
    assert_eq!(agent.get_state(), AgentState::Ready);
    assert_eq!(agent.shutdown().unwrap().len(), 3);
    assert_eq!(agent.get_state(), AgentState::Stopped);
    assert_eq!(agent.shutdown().unwrap(), vec![]);
    assert_eq!(agent.get_state(), AgentState::Stopped);
    assert_eq!(agent.start(), Err(invalid_state(AgentState::Ready, AgentState::Stopped)));
    assert_eq!(agent.get_state(), AgentState::Stopped);
}

#[test]
fn build_rejects_a_bad_configuration_and_does_not_begin() {
    let mut agent = PyroscopeAgent::builder("http://localhost:4040", "");
    assert_eq!(
        agent.build(),
        Err(PyroscopeError::InvalidConfig {
            field: ConfigField::ApplicationName,
            reason: ConfigReason::Missing
        })
    );
    assert_eq!(agent.get_state(), AgentState::Uninitialized);

    let config = PyroscopeConfig::new("http://localhost:4040", "app").sample_rate(0);
    let mut agent = PyroscopeAgent::with_config(config, 10);
    assert_eq!(
        agent.build(),
        Err(PyroscopeError::InvalidConfig {
            field: ConfigField::SampleRate,
            reason: ConfigReason::Zero
        })
    );

    let config = PyroscopeConfig::new("http://localhost:4040", "app").tag("__name__", "x");
    let mut agent = PyroscopeAgent::with_config(config, 10);
    assert_eq!(
        agent.build(),
        Err(PyroscopeError::InvalidConfig {
            field: ConfigField::Tags,
            reason: ConfigReason::ReservedTagKey
        })
    );

    let config = PyroscopeConfig::new("not a url", "app");
    let mut agent = PyroscopeAgent::with_config(config, 10);
    assert_eq!(
        agent.build(),
        Err(PyroscopeError::InvalidConfig {
            field: ConfigField::ServerUrl,
            reason: ConfigReason::Malformed
        })
    );

    let config = PyroscopeConfig::new("http://localhost:4040", "app");
    let mut agent = PyroscopeAgent::with_config(config, 7);
    assert_eq!(
        agent.build(),
        Err(PyroscopeError::InvalidConfig {
            field: ConfigField::Cycle,
            reason: ConfigReason::NotADivisorOfMinute
        })
    );
    assert_eq!(agent.get_state(), AgentState::Uninitialized);
    assert_eq!(agent.set_cycle(15), Ok(()));
    assert!(agent.build().is_ok());
    assert_eq!(
        agent.set_cycle(20),
        Err(invalid_state(AgentState::Uninitialized, AgentState::Ready))
    );
    assert_eq!(agent.cycle_secs(), 15);
}
