//! Aether: the rules by which a small cluster runs commands.
//!
//! A master keeps a queue of tasks and a list of workers. Workers report to it,
//! and it gives each task to the best worker that has a free slot and carries
//! the tags that the task asks for. Master and workers hold every command to a
//! policy before anything runs.
//!
//! The rules are stated over plain values and proved of the code. Scores and
//! measurements, which are floating-point numbers, come in by their bits.

pub mod cli;
pub mod config;
pub mod diagnostics;
pub mod dispatch;
pub mod ids;
pub mod master;
pub mod network;
pub mod order;
pub mod platform;
pub mod queue;
pub mod runtime;
pub mod security;
pub mod sequences;
pub mod splitting;
pub mod tags;
pub mod tasks;
pub mod telemetry;
pub mod text;
pub mod workers;
