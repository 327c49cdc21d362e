//! Frame-execution core of a real-time renderer: a dependency-ordered render
//! graph with a deterministic schedule, lazily filled pipeline caches, a graph
//! executor and the fixed sequence of per-frame phases.

pub mod count;
pub mod names;
pub mod table;
pub mod topology;
pub mod schedule;
pub mod reach;
pub mod graph;
pub mod shader;
pub mod specialization;
pub mod layout;
pub mod backend;
pub mod cache;
pub mod compiler;
pub mod bindings;
pub mod runner;
pub mod executor;
pub mod camera;
pub mod stage;
pub mod draw;
pub mod dispatch;
pub mod base;
pub mod plugin;
pub mod frame;
pub mod prelude;
