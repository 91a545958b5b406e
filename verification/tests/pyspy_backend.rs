use pyroscope::backend::Backend;
use pyroscope::error::{ConfigField, ConfigReason, PyroscopeError};
use pyroscope::pyspy::{
    convert_frame, convert_trace, LockingStrategy, Pyspy, PyspyConfig, RawFrame, RawTrace,
    RecordDuration, TagRule,
};
use pyroscope::stack::{FrameOrder, ReportMetadata};
use pyroscope::state::AgentState;
use pyroscope::tags::Tag;

fn raw_frame(name: &str) -> RawFrame {
    RawFrame {
        name: name.to_string(),
        filename: format!("/srv/{}.py", name),
        module: Some("mod".to_string()),
        short_filename: Some(format!("{}.py", name)),
        line: 7,
    }
}

fn raw_trace(names: &[&str], active: bool, owns_gil: bool) -> RawTrace {
    RawTrace {
        pid: 42,
        thread_id: 9,
        thread_name: Some("worker".to_string()),
        active,
        owns_gil,
        frames: names.iter().map(|n| raw_frame(n)).collect(),
    }
}

fn invalid_state(expected: AgentState, actual: AgentState) -> PyroscopeError {
    PyroscopeError::InvalidState { expected, actual }
}

#[test]
fn default_configuration() {
    let config = PyspyConfig::default();
    assert_eq!(config.pid, Some(0));
    assert_eq!(config.sample_rate, 100);
    assert_eq!(config.lock_process, LockingStrategy::NonBlocking);
    assert_eq!(config.time_limit, None);
    assert!(!config.with_subprocesses);
    assert!(!config.include_idle);
    assert!(!config.gil_only);
    assert!(!config.native);
}

#[test]
fn configuration_builders() {
    let config = PyspyConfig::new(1234)
        .sample_rate(50)
        .lock_process(true)
        .time_limit(Some(30))
        .with_subprocesses(true)
        .include_idle(true)
        .gil_only(true)
        .native(true);
    assert_eq!(config.pid, Some(1234));
    assert_eq!(config.sample_rate, 50);
    assert_eq!(config.lock_process, LockingStrategy::Lock);
    assert_eq!(config.time_limit, Some(30));
    assert!(config.with_subprocesses && config.include_idle && config.gil_only && config.native);
    assert_eq!(config.lock_process(false).lock_process, LockingStrategy::NonBlocking);
}

#[test]
fn initialize_prepares_the_sampler_configuration() {
    let mut backend = Pyspy::new(PyspyConfig::new(1234).sample_rate(50).time_limit(Some(30)));
    assert_eq!(backend.get_state(), AgentState::Uninitialized);
    assert!(backend.sampler_config().is_none());
    assert_eq!(backend.initialize(), Ok(()));
    assert_eq!(backend.get_state(), AgentState::Ready);
    let sampler = backend.sampler_config().unwrap();
    assert_eq!(sampler.pid, Some(1234));
    assert_eq!(sampler.sampling_rate, 50);
    assert_eq!(sampler.blocking, LockingStrategy::NonBlocking);
    assert_eq!(sampler.duration, RecordDuration::Seconds(30));
    assert!(sampler.include_thread_ids);
    assert!(!sampler.include_idle && !sampler.gil_only && !sampler.native && !sampler.subprocesses);
    assert_eq!(
        backend.initialize(),
        Err(invalid_state(AgentState::Uninitialized, AgentState::Ready))
    );
    let unlimited = {
        let mut b = Pyspy::new(PyspyConfig::new(1));
        b.initialize().unwrap();
        b.sampler_config().unwrap().duration
    };
    assert_eq!(unlimited, RecordDuration::Unlimited);
}

#[test]
fn initialize_needs_a_process() {
    let mut config = PyspyConfig::new(1);
    config.pid = None;
    let mut backend = Pyspy::new(config);
    assert_eq!(
        backend.initialize(),
        Err(PyroscopeError::InvalidConfig {
            field: ConfigField::ProcessId,
            reason: ConfigReason::Missing
        })
    );
    assert_eq!(backend.get_state(), AgentState::Uninitialized);
}

#[test]
fn backend_lifecycle() {
    let mut backend = Pyspy::new(PyspyConfig::new(1));
    assert_eq!(backend.spy_name(), Ok("pyspy".to_string()));
    assert_eq!(backend.sample_rate(), Ok(100));
    assert_eq!(backend.start(), Err(invalid_state(AgentState::Ready, AgentState::Uninitialized)));
    assert_eq!(backend.stop(), Err(invalid_state(AgentState::Running, AgentState::Uninitialized)));
    assert!(backend.report().is_err());
    backend.initialize().unwrap();
    assert!(!backend.is_running());
    assert_eq!(backend.start(), Ok(()));
    assert!(backend.is_running());
    assert_eq!(backend.get_state(), AgentState::Running);
    assert_eq!(backend.start(), Err(invalid_state(AgentState::Ready, AgentState::Running)));
    assert_eq!(backend.stop(), Ok(()));
    assert!(!backend.is_running());
    assert_eq!(backend.get_state(), AgentState::Ready);
    assert_eq!(backend.add_rule(TagRule::Add(Tag::new("a", "b"))), Ok(()));
    assert_eq!(backend.remove_rule(TagRule::Remove(Tag::new("a", "b"))), Ok(()));
    assert_eq!(backend.shutdown(), Ok(()));
    assert_eq!(backend.get_state(), AgentState::Stopped);
    assert_eq!(backend.shutdown(), Err(invalid_state(AgentState::Ready, AgentState::Stopped)));
    assert_eq!(
        backend.add_rule(TagRule::Add(Tag::new("a", "b"))),
        Err(invalid_state(AgentState::Running, AgentState::Stopped))
    );
    assert!(backend.report().is_err());
}

#[test]
fn shutdown_of_a_running_backend_halts_the_sampler() {
    let mut backend = Pyspy::new(PyspyConfig::new(1));
    backend.initialize().unwrap();
    backend.start().unwrap();
    assert_eq!(backend.shutdown(), Ok(()));
    assert!(!backend.is_running());
    assert_eq!(backend.get_state(), AgentState::Stopped);
}

#[test]
fn samples_are_filtered_folded_and_counted() {
    let mut backend = Pyspy::new(PyspyConfig::new(1));
    backend.initialize().unwrap();
    let sample = vec![
        raw_trace(&["c", "b", "a"], true, true),
        raw_trace(&["idle"], false, false),
        raw_trace(&["c", "b", "a"], true, false),
        raw_trace(&["d", "a"], true, true),
    ];
    assert_eq!(
        backend.record_sample(&sample),
        Err(invalid_state(AgentState::Running, AgentState::Ready))
    );
    backend.start().unwrap();
    assert_eq!(backend.record_sample(&sample), Ok(()));
    assert_eq!(backend.record_sample(&sample), Ok(()));
    let reports = backend.report().unwrap();
    assert_eq!(reports.len(), 1);
    assert_eq!(reports[0].to_folded(), b"a;b;c 4\na;d 2\n".to_vec());
    assert_eq!(reports[0].metadata().spy_name, "pyspy");
    assert_eq!(reports[0].metadata().sample_rate, 100);
    assert!(backend.report().unwrap().is_empty());
}

#[test]
fn stop_leaves_the_samples_for_the_final_drain() {
    let mut backend = Pyspy::new(PyspyConfig::new(1));
    backend.initialize().unwrap();
    backend.start().unwrap();
    backend.record_sample(&vec![raw_trace(&["a"], true, true)]).unwrap();
    backend.stop().unwrap();
    let reports = backend.report().unwrap();
    assert_eq!(reports.len(), 1);
    assert_eq!(reports[0].to_folded(), b"a 1\n".to_vec());
}

#[test]
fn idle_and_lock_filters() {
    let sample = vec![
        raw_trace(&["running_with_lock"], true, true),
        raw_trace(&["running_without_lock"], true, false),
        raw_trace(&["idle_with_lock"], false, true),
        raw_trace(&["idle_without_lock"], false, false),
    ];
    let run = |config: PyspyConfig| -> Vec<u8> {
        let mut backend = Pyspy::new(config);
        backend.initialize().unwrap();
        backend.start().unwrap();
        backend.record_sample(&sample).unwrap();
        let reports = backend.report().unwrap();
        if reports.is_empty() { Vec::new() } else { reports[0].to_folded() }
    };
    assert_eq!(
        run(PyspyConfig::new(1)),
        b"running_with_lock 1\nrunning_without_lock 1\n".to_vec()
    );
    assert_eq!(
        run(PyspyConfig::new(1).include_idle(true)),
        b"running_with_lock 1\nrunning_without_lock 1\nidle_with_lock 1\nidle_without_lock 1\n"
            .to_vec()
    );
    assert_eq!(run(PyspyConfig::new(1).gil_only(true)), b"running_with_lock 1\n".to_vec());
    assert_eq!(
        run(PyspyConfig::new(1).gil_only(true).include_idle(true)),
        b"running_with_lock 1\nidle_with_lock 1\n".to_vec()
    );
}

#[test]
fn frames_and_traces_are_converted_field_by_field() {
    let frame = convert_frame(&raw_frame("handler"));
    assert_eq!(frame.function_name, Some("handler".to_string()));
    assert_eq!(frame.module, Some("mod".to_string()));
    assert_eq!(frame.short_filename, Some("handler.py".to_string()));
    assert_eq!(frame.absolute_path, Some("/srv/handler.py".to_string()));
    assert_eq!(frame.relative_path, None);
    assert_eq!(frame.line, Some(7));
    let metadata = ReportMetadata {
        tags: vec![],
        sample_rate: 100,
        spy_name: "pyspy".to_string(),
        application_name: String::new(),
    };
    let trace = convert_trace(&raw_trace(&["inner", "outer"], true, true), metadata);
    assert_eq!(trace.pid, Some(42));
    assert_eq!(trace.thread_id, Some(9));
    assert_eq!(trace.thread_name, Some("worker".to_string()));
    assert_eq!(trace.order, FrameOrder::InnermostFirst);
    assert_eq!(trace.frames.len(), 2);
    assert_eq!(trace.fold(), "outer;inner");
}

fn run_through<B: Backend>(backend: &mut B) -> Vec<AgentState> {
    let mut seen = vec![Backend::get_state(backend)];
    Backend::initialize(backend).unwrap();
    seen.push(Backend::get_state(backend));
    Backend::start(backend).unwrap();
    seen.push(Backend::get_state(backend));
    assert!(Backend::report(backend).unwrap().is_empty());
    assert_eq!(Backend::add_rule(backend, TagRule::Add(Tag::new("a", "b"))), Ok(()));
    assert_eq!(Backend::remove_rule(backend, TagRule::Remove(Tag::new("a", "b"))), Ok(()));
    Backend::stop(backend).unwrap();
    seen.push(Backend::get_state(backend));
    Backend::shutdown(backend).unwrap();
    seen.push(Backend::get_state(backend));
    assert!(Backend::report(backend).is_err());
    assert!(Backend::start(backend).is_err());
    seen
}

#[test]
fn the_backend_contract_holds_through_the_trait() {
    let mut backend = Pyspy::new(PyspyConfig::new(1));
    assert_eq!(
        run_through(&mut backend),
        vec![
            AgentState::Uninitialized,
            AgentState::Ready,
            AgentState::Running,
            AgentState::Ready,
            AgentState::Stopped
        ]
    );
    assert_eq!(Backend::spy_name(&backend), Ok("pyspy".to_string()));
    assert_eq!(Backend::sample_rate(&backend), Ok(100));
}
