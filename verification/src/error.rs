//! Error kinds shared by every component of the agent.

use crate::state::AgentState;
use vstd::prelude::*;

verus! {

/// A background worker of the agent.
#[derive(Clone, Copy, Debug, PartialEq, Eq, Structural)]
pub enum Component {
    Sampler,
    SessionManager,
    Timer,
}

/// The part of the configuration an `InvalidConfig` error is about.
#[derive(Clone, Copy, Debug, PartialEq, Eq, Structural)]
pub enum ConfigField {
    ServerUrl,
    ApplicationName,
    SampleRate,
    Tags,
    Cycle,
    Timestamp,
    ProcessId,
    Metadata,
}

/// Why a configuration value was rejected.
#[derive(Clone, Copy, Debug, PartialEq, Eq, Structural)]
pub enum ConfigReason {
    /// A mandatory value is absent or empty.
    Missing,
    /// The value does not parse.
    Malformed,
    /// The value is zero where a positive number is needed.
    Zero,
    /// A tag key is reserved: it starts and ends with two underscores.
    ReservedTagKey,
    /// The cycle length does not divide a minute.
    NotADivisorOfMinute,
    /// The value leaves the range of unix seconds the agent can schedule.
    OutOfRange,
    /// The value differs from the one it has to agree with.
    Mismatch,
}

/// Why a report could not be encoded.
#[derive(Clone, Copy, Debug, PartialEq, Eq, Structural)]
pub enum SerializationReason {
    /// A sample counter would exceed `u64::MAX`.
    CountOverflow,
    /// The compressor reported a failure.
    Compression,
}

/// Everything that can go wrong inside the agent.
#[derive(Clone, Copy, Debug, PartialEq, Eq, Structural)]
pub enum PyroscopeError {
    /// The operation is illegal in the current state.
    InvalidState { expected: AgentState, actual: AgentState },
    /// A configuration value was rejected.
    InvalidConfig { field: ConfigField, reason: ConfigReason },
    /// A listener was attached to a timer whose subscribers have been dropped.
    TimerTerminated,
    /// A background worker panicked.
    WorkerFailed { component: Component },
    /// The session queue is full; the session was dropped.
    QueueFull,
    /// HTTP or operating system I/O failed.
    Io,
    /// A report failed to encode.
    Serialization { cause: SerializationReason },
}

} // verus!
