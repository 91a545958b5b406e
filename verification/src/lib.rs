//! Core of a continuous profiling agent: the lifecycle state machines, the
//! wall-clock aligned tick schedule, folded-stack report aggregation and the
//! construction of ingest requests.

pub mod agent;
pub mod backend;
pub mod buffer;
pub mod clock;
pub mod config;
pub mod error;
pub mod folded;
pub mod manager;
pub mod outside;
pub mod pyspy;
pub mod report;
pub mod session;
pub mod stack;
pub mod state;
pub mod tags;
pub mod text;
pub mod timer;
