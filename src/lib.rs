//! A dependency-driven step scheduler: steps form a directed acyclic graph,
//! a step runs once all of its dependencies have passed, and a failed
//! dependency fails its dependents without running them.
pub mod format;
pub mod graph;
pub mod result;
pub mod runner;
pub mod status;
