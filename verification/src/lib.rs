//! Causal attribution of kernel events to the logical requests that caused them.
//!
//! An application that serves many requests at once over a few threads knows which request each
//! of its operations belongs to; the kernel sees only processes, threads, times and syscalls.
//! This library holds what is needed to measure how well the one can be recovered from the other:
//! the ground truth that a workload writes, the kernel events that a trace shows, the matching of
//! the two, the strategies that attribute kernel events, and the scores of those strategies.
//!
//! * [`event`], [`identity`], [`error`]: the data.
//! * [`workload`]: the operations of a workload and the ground truth it records.
//! * [`strace`], [`collection`]: from trace files to kernel events.
//! * [`matcher`], [`strategies`], [`metrics`], [`evaluation`]: from both to scores.
//! * [`experiment`], [`progress`], [`report`]: repeated runs and their tables.
//! * [`grouping`], [`timeline`], [`sorting`], [`number`], [`text`]: what these are built from.
//! * [`laws`]: what holds of matching and attribution as a whole.
//! * [`meaning`]: what the operations mean, in terms of their inputs and results.

pub mod collection;
pub mod error;
pub mod evaluation;
pub mod event;
pub mod experiment;
pub mod grouping;
pub mod identity;
pub mod laws;
pub mod matcher;
pub mod meaning;
pub mod metrics;
pub mod number;
pub mod progress;
pub mod report;
pub mod sorting;
pub mod strace;
pub mod strategies;
pub mod text;
pub mod timeline;
pub mod workload;
