//! The engine: turns requests into resolved targets, targets into plans, and
//! drives the execution of plans.
pub mod target;
pub mod resolve;
pub mod plan;
pub mod execute;
pub mod stage;
pub mod report;
pub mod cleanup;
