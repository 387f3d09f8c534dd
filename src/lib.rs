//! Match graphs for pairwise-outcome skill rating: a generic arena graph,
//! the game graph built on it, and the validated loading of a match list.
pub mod game_graph;
pub mod graph;
pub mod json_data;

pub use game_graph::{GameEdge, GameGraph, GameNode, GraphParseError, MatchResult};
pub use graph::{Graph, GraphEdge, GraphNode};
pub use json_data::{JsonEdge, JsonGraph, JsonPlayer};
