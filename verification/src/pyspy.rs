//! The backend that samples another Python process. The sampler itself runs
//! outside this library and hands over what it saw; the configuration, the
//! lifecycle, the admission of traces and their aggregation are decided
//! here.

use crate::buffer::{
    all_fit, buffer_after, buffer_wf, first_overflow, overflows_at, report_views, ReportBuffer,
    Sample,
};
use crate::config::duplicate_opt;
use crate::error::{ConfigField, ConfigReason, PyroscopeError, SerializationReason};
use crate::report::{Report, ReportView};
use crate::stack::{
    folded, FrameOrder, MetadataView, ReportMetadata, StackFrame, StackTrace,
};
use crate::state::{backend_next, backend_transition, AgentState, BackendOp};
use crate::tags::{Tag, TagView};
use vstd::prelude::*;
use vstd::string::*;

verus! {

/// How the sampler treats the process while it reads a sample.
#[derive(Clone, Copy, Debug, PartialEq, Eq, Structural)]
pub enum LockingStrategy {
    /// Read without pausing the process.
    NonBlocking,
    /// Pause the process for the read.
    Lock,
}

/// How long the sampler records.
#[derive(Clone, Copy, Debug, PartialEq, Eq, Structural)]
pub enum RecordDuration {
    Unlimited,
    Seconds(u64),
}

/// Configuration of the backend.
#[derive(Clone, Copy, Debug)]
pub struct PyspyConfig {
    /// Process to monitor.
    pub pid: Option<i32>,
    /// Samples per second.
    pub sample_rate: u32,
    /// Whether the process is paused while a sample is read.
    pub lock_process: LockingStrategy,
    /// Profiling duration in seconds; `None` for no limit.
    pub time_limit: Option<u64>,
    /// Whether subprocesses are sampled too.
    pub with_subprocesses: bool,
    /// Whether traces of idle threads are kept.
    pub include_idle: bool,
    /// Whether only traces of threads that hold the interpreter lock are kept.
    pub gil_only: bool,
    /// Whether native frames are collected.
    pub native: bool,
}

impl Default for PyspyConfig {
    fn default() -> (c: PyspyConfig)
        ensures
            c == (PyspyConfig {
                pid: Some(0i32),
                sample_rate: 100,
                lock_process: LockingStrategy::NonBlocking,
                time_limit: None,
                with_subprocesses: false,
                include_idle: false,
                gil_only: false,
                native: false,
            }),
    {
        PyspyConfig {
            pid: Some(0),
            sample_rate: 100,
            lock_process: LockingStrategy::NonBlocking,
            time_limit: None,
            with_subprocesses: false,
            include_idle: false,
            gil_only: false,
            native: false,
        }
    }
}

impl PyspyConfig {
    /// The default configuration for the process `pid`.
    pub fn new(pid: i32) -> (c: PyspyConfig)
        ensures
            c == (PyspyConfig {
                pid: Some(pid),
                sample_rate: 100,
                lock_process: LockingStrategy::NonBlocking,
                time_limit: None,
                with_subprocesses: false,
                include_idle: false,
                gil_only: false,
                native: false,
            }),
    {
        PyspyConfig {
            pid: Some(pid),
            sample_rate: 100,
            lock_process: LockingStrategy::NonBlocking,
            time_limit: None,
            with_subprocesses: false,
            include_idle: false,
            gil_only: false,
            native: false,
        }
    }

    /// Sets the sampling rate.
    pub fn sample_rate(self, sample_rate: u32) -> (c: PyspyConfig)
        ensures
            c == (PyspyConfig { sample_rate, ..self }),
    {
        PyspyConfig { sample_rate, ..self }
    }

    /// Chooses whether the process is paused while a sample is read.
    pub fn lock_process(self, lock_process: bool) -> (c: PyspyConfig)
        ensures
            c == (PyspyConfig {
                lock_process: if lock_process {
                    LockingStrategy::Lock
                } else {
                    LockingStrategy::NonBlocking
                },
                ..self
            }),
    {
        PyspyConfig {
            lock_process: if lock_process {
                LockingStrategy::Lock
            } else {
                LockingStrategy::NonBlocking
            },
            ..self
        }
    }

    /// Sets the profiling duration in seconds; `None` for no limit.
    pub fn time_limit(self, time_limit: Option<u64>) -> (c: PyspyConfig)
        ensures
            c == (PyspyConfig { time_limit, ..self }),
    {
        PyspyConfig { time_limit, ..self }
    }

    /// Chooses whether subprocesses are sampled too.
    pub fn with_subprocesses(self, with_subprocesses: bool) -> (c: PyspyConfig)
        ensures
            c == (PyspyConfig { with_subprocesses, ..self }),
    {
        PyspyConfig { with_subprocesses, ..self }
    }

    /// Chooses whether traces of idle threads are kept.
    pub fn include_idle(self, include_idle: bool) -> (c: PyspyConfig)
        ensures
            c == (PyspyConfig { include_idle, ..self }),
    {
        PyspyConfig { include_idle, ..self }
    }

    /// Chooses whether only traces of threads that hold the interpreter lock
    /// are kept.
    pub fn gil_only(self, gil_only: bool) -> (c: PyspyConfig)
        ensures
            c == (PyspyConfig { gil_only, ..self }),
    {
        PyspyConfig { gil_only, ..self }
    }

    /// Chooses whether native frames are collected.
    pub fn native(self, native: bool) -> (c: PyspyConfig)
        ensures
            c == (PyspyConfig { native, ..self }),
    {
        PyspyConfig { native, ..self }
    }
}

/// What the sampler is started with.
#[derive(Clone, Copy, Debug)]
pub struct SamplerConfig {
    pub blocking: LockingStrategy,
    pub native: bool,
    pub pid: Option<i32>,
    pub sampling_rate: u64,
    pub include_idle: bool,
    pub include_thread_ids: bool,
    pub subprocesses: bool,
    pub gil_only: bool,
    pub duration: RecordDuration,
}

/// The sampler configuration that a backend configuration asks for.
pub open spec fn sampler_config_of(c: PyspyConfig) -> SamplerConfig {
    SamplerConfig {
        blocking: c.lock_process,
        native: c.native,
        pid: c.pid,
        sampling_rate: c.sample_rate as u64,
        include_idle: c.include_idle,
        include_thread_ids: true,
        subprocesses: c.with_subprocesses,
        gil_only: c.gil_only,
        duration: match c.time_limit {
            Some(seconds) => RecordDuration::Seconds(seconds),
            None => RecordDuration::Unlimited,
        },
    }
}

/// A frame as the sampler reports it.
#[derive(Debug)]
pub struct RawFrame {
    /// The function name.
    pub name: String,
    /// The full name of the file.
    pub filename: String,
    /// The module or shared library of the function.
    pub module: Option<String>,
    /// A shorter form of the file name.
    pub short_filename: Option<String>,
    /// The line in the file; zero for native frames without line information.
    pub line: i32,
}

/// A trace as the sampler reports it: the innermost frame first.
#[derive(Debug)]
pub struct RawTrace {
    pub pid: i32,
    pub thread_id: u64,
    pub thread_name: Option<String>,
    /// Whether the thread was running.
    pub active: bool,
    /// Whether the thread held the interpreter lock.
    pub owns_gil: bool,
    pub frames: Vec<RawFrame>,
}

/// The stack frame that stands for a frame of the sampler.
pub open spec fn frame_of(raw: RawFrame) -> StackFrame {
    StackFrame {
        module: raw.module,
        function_name: Some(raw.name),
        short_filename: raw.short_filename,
        absolute_path: Some(raw.filename),
        relative_path: None,
        line: Some(raw.line as u32),
    }
}

/// The stack frames that stand for the frames of the sampler.
pub open spec fn frames_of(raw: Seq<RawFrame>) -> Seq<StackFrame> {
    Seq::new(raw.len(), |i: int| frame_of(raw[i]))
}

/// Whether a trace is kept: its thread was running, unless idle threads are
/// asked for, and it held the interpreter lock where only such are asked for.
pub open spec fn admits(config: SamplerConfig, trace: RawTrace) -> bool {
    (config.include_idle || trace.active) && (!config.gil_only || trace.owns_gil)
}

/// The samples, as metadata and folded stack, of the traces that are kept.
pub open spec fn admitted_samples(config: SamplerConfig, traces: Seq<RawTrace>, m: MetadataView) -> Seq<
    Sample,
>
    decreases traces.len(),
{
    if traces.len() == 0 {
        Seq::empty()
    } else if admits(config, traces.last()) {
        admitted_samples(config, traces.drop_last(), m).push(
            (m, folded(frames_of(traces.last().frames@), FrameOrder::InnermostFirst)),
        )
    } else {
        admitted_samples(config, traces.drop_last(), m)
    }
}

/// The samples of the first traces of a sample are the first samples of all
/// of its traces.
pub proof fn lemma_admitted_prefix(
    config: SamplerConfig,
    traces: Seq<RawTrace>,
    m: MetadataView,
    i: int,
)
    requires
        0 <= i <= traces.len(),
    ensures
        admitted_samples(config, traces.take(i), m).len() <= admitted_samples(
            config,
            traces,
            m,
        ).len(),
        admitted_samples(config, traces.take(i), m) == admitted_samples(config, traces, m).take(
            admitted_samples(config, traces.take(i), m).len() as int,
        ),
    decreases traces.len(),
{
    let all = admitted_samples(config, traces, m);
    let some = admitted_samples(config, traces.take(i), m);
    if i == traces.len() {
        assert(traces.take(i) =~= traces);
        assert(all.take(all.len() as int) =~= all);
    } else {
        let front = traces.drop_last();
        assert(traces.take(i) =~= front.take(i));
        lemma_admitted_prefix(config, front, m, i);
        let before = admitted_samples(config, front, m);
        assert(all.take(some.len() as int) =~= before.take(some.len() as int));
    }
}

/// The stack frame for a frame of the sampler.
pub fn convert_frame(raw: &RawFrame) -> (frame: StackFrame)
    ensures
        frame == frame_of(*raw),
{
    StackFrame {
        module: duplicate_opt(&raw.module),
        function_name: Some(raw.name.clone()),
        short_filename: duplicate_opt(&raw.short_filename),
        absolute_path: Some(raw.filename.clone()),
        relative_path: None,
        line: Some(raw.line as u32),
    }
}

/// The stack trace for a trace of the sampler, under the given metadata.
pub fn convert_trace(raw: &RawTrace, metadata: ReportMetadata) -> (trace: StackTrace)
    ensures
        trace.pid == Some(raw.pid as u32),
        trace.thread_id == Some(raw.thread_id),
        trace.thread_name == raw.thread_name,
        trace.frames@ == frames_of(raw.frames@),
        trace.order == FrameOrder::InnermostFirst,
        trace.metadata == metadata,
{
    let mut frames: Vec<StackFrame> = Vec::new();
    let mut i: usize = 0;
    while i < raw.frames.len()
        invariant
            i <= raw.frames.len(),
            frames@ == frames_of(raw.frames@).take(i as int),
        decreases raw.frames.len() - i,
    {
        frames.push(convert_frame(&raw.frames[i]));
        assert(frames@ =~= frames_of(raw.frames@).take(i + 1));
        i = i + 1;
    }
    assert(frames@ =~= frames_of(raw.frames@));
    StackTrace {
        pid: Some(raw.pid as u32),
        thread_id: Some(raw.thread_id),
        thread_name: duplicate_opt(&raw.thread_name),
        frames,
        order: FrameOrder::InnermostFirst,
        metadata,
    }
}

/// A change to the tags that samples of the calling thread are labeled with.
#[derive(Debug)]
pub enum TagRule {
    Add(Tag),
    Remove(Tag),
}

/// The backend for Python processes.
#[derive(Debug)]
pub struct Pyspy {
    state: AgentState,
    buffer: ReportBuffer,
    config: PyspyConfig,
    sampler_config: Option<SamplerConfig>,
    running: bool,
    metadata: ReportMetadata,
}

impl Pyspy {
    /// The lifecycle state.
    pub closed spec fn state(&self) -> AgentState {
        self.state
    }

    /// The configuration the backend was made with.
    pub closed spec fn config(&self) -> PyspyConfig {
        self.config
    }

    /// What has been recorded since the last drain.
    pub closed spec fn buffered(&self) -> Seq<ReportView> {
        self.buffer@
    }

    /// The configuration of the sampler, once the backend is initialized.
    pub closed spec fn sampler(&self) -> Option<SamplerConfig> {
        self.sampler_config
    }

    /// The flag the sampler polls between samples.
    pub closed spec fn running(&self) -> bool {
        self.running
    }

    /// The metadata every sample of this backend is recorded under.
    pub closed spec fn metadata(&self) -> MetadataView {
        self.metadata@
    }

    /// The invariant of the backend: a well-formed buffer, the sampler
    /// running exactly in state `Running`, and its configuration set once
    /// the backend is ready.
    pub closed spec fn wf(&self) -> bool {
        &&& buffer_wf(self.buffer@)
        &&& self.running == (self.state == AgentState::Running)
        &&& (self.state == AgentState::Ready || self.state == AgentState::Running)
            ==> self.sampler_config == Some(sampler_config_of(self.config))
        &&& self.state == AgentState::Uninitialized ==> self.sampler_config is None
    }

    /// A backend in state `Uninitialized`.
    pub fn new(config: PyspyConfig) -> (backend: Pyspy)
        ensures
            backend.wf(),
            backend.state() == AgentState::Uninitialized,
            backend.config() == config,
            backend.buffered() == Seq::<ReportView>::empty(),
            backend.sampler() is None,
            !backend.running(),
            backend.metadata() == (MetadataView {
                tags: Seq::<TagView>::empty(),
                sample_rate: config.sample_rate,
                spy_name: "pyspy"@,
                application_name: Seq::<char>::empty(),
            }),
    {
        let metadata = ReportMetadata {
            tags: Vec::new(),
            sample_rate: config.sample_rate,
            spy_name: "pyspy".to_owned(),
            application_name: String::new(),
        };
        assert(metadata@.tags =~= Seq::<TagView>::empty());
        Pyspy {
            state: AgentState::Uninitialized,
            buffer: ReportBuffer::new(),
            config,
            sampler_config: None,
            running: false,
            metadata,
        }
    }

    /// The lifecycle state.
    pub fn get_state(&self) -> (s: AgentState)
        ensures
            s == self.state(),
    {
        self.state
    }

    /// The name of this backend: `pyspy`.
    pub fn spy_name(&self) -> (r: Result<String, PyroscopeError>)
        ensures
            r matches Ok(name) && name@ == "pyspy"@,
    {
        Ok("pyspy".to_owned())
    }

    /// The configured sampling rate.
    pub fn sample_rate(&self) -> (r: Result<u32, PyroscopeError>)
        ensures
            r == Ok::<u32, PyroscopeError>(self.config().sample_rate),
    {
        Ok(self.config.sample_rate)
    }

    /// Whether the sampler is to go on: the flag it polls between samples.
    pub fn is_running(&self) -> (b: bool)
        ensures
            b == self.running(),
    {
        self.running
    }

    /// The configuration to start the sampler with, once initialized.
    pub fn sampler_config(&self) -> (c: Option<SamplerConfig>)
        ensures
            c == self.sampler(),
    {
        self.sampler_config
    }

    /// Prepares the sampler configuration and moves to `Ready`. Legal only
    /// in state `Uninitialized`; fails with `Missing` where no process is
    /// configured. A failure changes nothing.
    pub fn initialize(&mut self) -> (r: Result<(), PyroscopeError>)
        requires
            old(self).wf(),
        ensures
            final(self).wf(),
            final(self).config() == old(self).config(),
            final(self).buffered() == old(self).buffered(),
            final(self).metadata() == old(self).metadata(),
            final(self).running() == old(self).running(),
            old(self).state() != AgentState::Uninitialized ==> r == Err::<(), PyroscopeError>(
                PyroscopeError::InvalidState {
                    expected: AgentState::Uninitialized,
                    actual: old(self).state(),
                },
            ) && final(self).state() == old(self).state() && final(self).sampler() == old(
                self,
            ).sampler(),
            old(self).state() == AgentState::Uninitialized && old(self).config().pid is None ==> r
                == Err::<(), PyroscopeError>(
                PyroscopeError::InvalidConfig {
                    field: ConfigField::ProcessId,
                    reason: ConfigReason::Missing,
                },
            ) && final(self).state() == AgentState::Uninitialized && final(self).sampler() is None,
            old(self).state() == AgentState::Uninitialized && old(self).config().pid is Some ==> r
                is Ok && final(self).state() == AgentState::Ready && final(self).sampler() == Some(
                sampler_config_of(old(self).config()),
            ),
    {
        match backend_transition(self.state, BackendOp::Initialize) {
            Err(e) => Err(e),
            Ok(next) => {
                if self.config.pid.is_none() {
                    return Err(
                        PyroscopeError::InvalidConfig {
                            field: ConfigField::ProcessId,
                            reason: ConfigReason::Missing,
                        },
                    );
                }
                let duration = match self.config.time_limit {
                    Some(seconds) => RecordDuration::Seconds(seconds),
                    None => RecordDuration::Unlimited,
                };
                self.sampler_config = Some(
                    SamplerConfig {
                        blocking: self.config.lock_process,
                        native: self.config.native,
                        pid: self.config.pid,
                        sampling_rate: self.config.sample_rate as u64,
                        include_idle: self.config.include_idle,
                        include_thread_ids: true,
                        subprocesses: self.config.with_subprocesses,
                        gil_only: self.config.gil_only,
                        duration,
                    },
                );
                self.state = next;
                Ok(())
            },
        }
    }

    /// Arms the sampler and moves to `Running`. Legal only in state `Ready`.
    pub fn start(&mut self) -> (r: Result<(), PyroscopeError>)
        requires
            old(self).wf(),
        ensures
            final(self).wf(),
            final(self).config() == old(self).config(),
            final(self).buffered() == old(self).buffered(),
            final(self).sampler() == old(self).sampler(),
            final(self).metadata() == old(self).metadata(),
            old(self).state() == AgentState::Ready ==> r is Ok && final(self).state()
                == AgentState::Running && final(self).running(),
            old(self).state() != AgentState::Ready ==> r == Err::<(), PyroscopeError>(
                PyroscopeError::InvalidState {
                    expected: AgentState::Ready,
                    actual: old(self).state(),
                },
            ) && final(self).state() == old(self).state() && final(self).running() == old(
                self,
            ).running(),
    {
        match backend_transition(self.state, BackendOp::Start) {
            Err(e) => Err(e),
            Ok(next) => {
                self.running = true;
                self.state = next;
                Ok(())
            },
        }
    }

    /// Tells the sampler to halt and moves to `Ready`; what has been
    /// recorded stays. Legal only in state `Running`.
    pub fn stop(&mut self) -> (r: Result<(), PyroscopeError>)
        requires
            old(self).wf(),
        ensures
            final(self).wf(),
            final(self).config() == old(self).config(),
            final(self).buffered() == old(self).buffered(),
            final(self).sampler() == old(self).sampler(),
            final(self).metadata() == old(self).metadata(),
            old(self).state() == AgentState::Running ==> r is Ok && final(self).state()
                == AgentState::Ready && !final(self).running(),
            old(self).state() != AgentState::Running ==> r == Err::<(), PyroscopeError>(
                PyroscopeError::InvalidState {
                    expected: AgentState::Running,
                    actual: old(self).state(),
                },
            ) && final(self).state() == old(self).state() && final(self).running() == old(
                self,
            ).running(),
    {
        match backend_transition(self.state, BackendOp::Stop) {
            Err(e) => Err(e),
            Ok(next) => {
                self.running = false;
                self.state = next;
                Ok(())
            },
        }
    }

    /// Halts the sampler if it runs and moves to `Stopped`. Legal in every
    /// state but `Stopped`.
    pub fn shutdown(&mut self) -> (r: Result<(), PyroscopeError>)
        requires
            old(self).wf(),
        ensures
            final(self).wf(),
            final(self).config() == old(self).config(),
            final(self).buffered() == old(self).buffered(),
            final(self).metadata() == old(self).metadata(),
            old(self).state() != AgentState::Stopped ==> r is Ok && final(self).state()
                == AgentState::Stopped && !final(self).running(),
            final(self).sampler() == old(self).sampler(),
            old(self).state() == AgentState::Stopped ==> r == Err::<(), PyroscopeError>(
                PyroscopeError::InvalidState {
                    expected: AgentState::Ready,
                    actual: AgentState::Stopped,
                },
            ) && final(self).state() == AgentState::Stopped && final(self).running() == old(
                self,
            ).running(),
    {
        match backend_transition(self.state, BackendOp::Shutdown) {
            Err(e) => Err(e),
            Ok(next) => {
                self.running = false;
                self.state = next;
                Ok(())
            },
        }
    }

    /// Drains the buffer: hands out everything recorded since the last
    /// drain, one report per metadata, and leaves the buffer empty. Legal in
    /// states `Running` and `Ready`.
    pub fn report(&mut self) -> (r: Result<Vec<Report>, PyroscopeError>)
        requires
            old(self).wf(),
        ensures
            final(self).wf(),
            final(self).state() == old(self).state(),
            final(self).config() == old(self).config(),
            final(self).sampler() == old(self).sampler(),
            final(self).running() == old(self).running(),
            final(self).metadata() == old(self).metadata(),
            backend_next(old(self).state(), BackendOp::Report) is Some ==> (r matches Ok(reports)
                && report_views(reports@) == old(self).buffered()) && final(self).buffered()
                == Seq::<ReportView>::empty(),
            backend_next(old(self).state(), BackendOp::Report) is None ==> r == Err::<
                Vec<Report>,
                PyroscopeError,
            >(
                PyroscopeError::InvalidState {
                    expected: AgentState::Running,
                    actual: old(self).state(),
                },
            ) && final(self).buffered() == old(self).buffered(),
    {
        match backend_transition(self.state, BackendOp::Report) {
            Err(e) => Err(e),
            Ok(_) => Ok(self.buffer.drain()),
        }
    }

    /// Takes a tag rule. This backend cannot tell the samples of one thread
    /// from those of another, so the rule changes nothing; it is refused
    /// only in state `Stopped`.
    pub fn add_rule(&self, rule: TagRule) -> (r: Result<(), PyroscopeError>)
        ensures
            self.state() != AgentState::Stopped ==> r is Ok,
            self.state() == AgentState::Stopped ==> r == Err::<(), PyroscopeError>(
                PyroscopeError::InvalidState {
                    expected: AgentState::Running,
                    actual: AgentState::Stopped,
                },
            ),
    {
        match backend_transition(self.state, BackendOp::AddRule) {
            Err(e) => Err(e),
            Ok(_) => Ok(()),
        }
    }

    /// Withdraws a tag rule; like `add_rule`, it changes nothing here.
    pub fn remove_rule(&self, rule: TagRule) -> (r: Result<(), PyroscopeError>)
        ensures
            self.state() != AgentState::Stopped ==> r is Ok,
            self.state() == AgentState::Stopped ==> r == Err::<(), PyroscopeError>(
                PyroscopeError::InvalidState {
                    expected: AgentState::Running,
                    actual: AgentState::Stopped,
                },
            ),
    {
        match backend_transition(self.state, BackendOp::RemoveRule) {
            Err(e) => Err(e),
            Ok(_) => Ok(()),
        }
    }

    /// Records what the sampler saw in one sample: every trace that is kept
    /// adds one to the counter of its folded stack, in order, under the
    /// metadata of the backend; a trace that is not kept changes nothing.
    /// Legal only in state `Running`. It succeeds exactly where no kept
    /// trace finds its counter at `u64::MAX`; else it fails with
    /// `CountOverflow` at the first that does, and the traces before that
    /// one stay recorded.
    pub fn record_sample(&mut self, traces: &Vec<RawTrace>) -> (r: Result<(), PyroscopeError>)
        requires
            old(self).wf(),
        ensures
            final(self).wf(),
            final(self).state() == old(self).state(),
            final(self).config() == old(self).config(),
            final(self).sampler() == old(self).sampler(),
            final(self).running() == old(self).running(),
            final(self).metadata() == old(self).metadata(),
            old(self).state() != AgentState::Running ==> r == Err::<(), PyroscopeError>(
                PyroscopeError::InvalidState {
                    expected: AgentState::Running,
                    actual: old(self).state(),
                },
            ) && final(self).buffered() == old(self).buffered(),
            old(self).state() == AgentState::Running ==> ({
                let samples = admitted_samples(
                    sampler_config_of(old(self).config()),
                    traces@,
                    old(self).metadata(),
                );
                match r {
                    Ok(()) => all_fit(old(self).buffered(), samples) && final(self).buffered()
                        == buffer_after(old(self).buffered(), samples),
                    Err(e) => e == (PyroscopeError::Serialization {
                        cause: SerializationReason::CountOverflow,
                    }) && exists|k: int|
                        #![trigger overflows_at(old(self).buffered(), samples, k)]
                        first_overflow(old(self).buffered(), samples, k) && final(self).buffered()
                            == buffer_after(old(self).buffered(), samples.take(k)),
                }
            }),
    {
        if self.state != AgentState::Running {
            return Err(
                PyroscopeError::InvalidState {
                    expected: AgentState::Running,
                    actual: self.state,
                },
            );
        }
        let config = match self.sampler_config {
            Some(config) => config,
            None => {
                return Err(
                    PyroscopeError::InvalidState {
                        expected: AgentState::Running,
                        actual: self.state,
                    },
                );
            },
        };
        let ghost m = self.metadata@;
        let ghost start = self.buffer@;
        let ghost all = admitted_samples(config, traces@, m);
        let mut i: usize = 0;
        proof {
            assert(traces@.take(0).len() == 0);
        }
        while i < traces.len()
            invariant
                i <= traces.len(),
                self.wf(),
                all == admitted_samples(config, traces@, m),
                forall|j: int|
                    0 <= j < admitted_samples(config, traces@.take(i as int), m).len()
                        ==> !#[trigger] overflows_at(start, all, j),
                self.state == old(self).state,
                self.state == AgentState::Running,
                self.config == old(self).config,
                self.sampler_config == old(self).sampler_config,
                self.running == old(self).running,
                self.metadata@ == m,
                m == old(self).metadata@,
                start == old(self).buffer@,
                config == sampler_config_of(self.config),
                self.buffer@ == buffer_after(
                    start,
                    admitted_samples(config, traces@.take(i as int), m),
                ),
            decreases traces.len() - i,
        {
            proof {
                let next = traces@.take(i + 1);
                assert(next.drop_last() =~= traces@.take(i as int));
                assert(next.last() == traces@[i as int]);
            }
            let raw = &traces[i];
            if (config.include_idle || raw.active) && (!config.gil_only || raw.owns_gil) {
                let trace = convert_trace(raw, self.metadata.duplicate());
                let ghost done = admitted_samples(config, traces@.take(i as int), m);
                let ghost samples = admitted_samples(config, traces@.take(i + 1), m);
                proof {
                    assert(samples.drop_last() =~= done);
                    lemma_admitted_prefix(config, traces@, m, i as int);
                    lemma_admitted_prefix(config, traces@, m, i + 1);
                    assert(all.take(done.len() as int) == done);
                    assert(all[done.len() as int] == samples[done.len() as int]);
                    assert(samples.last() == (
                        m,
                        folded(frames_of(raw.frames@), FrameOrder::InnermostFirst),
                    ));
                }
                match self.buffer.record(&trace) {
                    Ok(()) => {},
                    Err(e) => {
                        proof {
                            let k = done.len() as int;
                            assert(first_overflow(start, all, k));
                            assert(self.buffer@ == buffer_after(start, all.take(k)));
                            assert(all == admitted_samples(
                                sampler_config_of(old(self).config()),
                                traces@,
                                old(self).metadata(),
                            ));
                            assert(overflows_at(old(self).buffered(), all, k));
                        }
                        return Err(e);
                    },
                }
            }
            i = i + 1;
        }
        proof {
            assert(traces@.take(traces.len() as int) =~= traces@);
        }
        Ok(())
    }
}

} // verus!
