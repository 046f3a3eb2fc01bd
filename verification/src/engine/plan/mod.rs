//! Execution plans: the steps that carry out resolved targets, with the
//! conditions under which each may run.
pub mod step;
pub mod simple;
pub mod activation;
