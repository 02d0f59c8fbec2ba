//! Structural core of a macroscopic evacuation model: element kinds, model
//! construction, the adjacency graph, scenario overrides and the traversal
//! order of one simulation step.
pub mod sign;
pub mod graph;
pub mod step;
pub mod model;
pub mod width;
pub mod scenario;
pub mod output;
pub mod records;
