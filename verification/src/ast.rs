//! The three representations of a statechart, and the passes between them.

pub mod conversion_error;
pub mod core_graph;
pub mod location;
pub mod microstep;
pub mod statechart;
