//! What the operations mean: laws that say what a result must satisfy in terms of the fields of
//! the inputs, or how the results of two calls relate.

pub mod experiments;
pub mod matching;
pub mod messages;
pub mod numbers;
pub mod scores;
pub mod strategies;
pub mod tables;
pub mod texts;
pub mod traces;
pub mod workloads;
