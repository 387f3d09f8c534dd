use vstd::prelude::*;

verus! {

/// A player as listed in a match file.
#[derive(Debug)]
pub struct JsonPlayer {
    pub name: String,
    pub id: u8,
}

/// A match as listed in a match file: the ids of its winner and its loser.
#[derive(Debug)]
pub struct JsonEdge {
    pub winner_id: u8,
    pub loser_id: u8,
}

/// The contents of a match file: its players and its matches.
#[derive(Debug)]
pub struct JsonGraph {
    pub players: Vec<JsonPlayer>,
    pub edges: Vec<JsonEdge>,
}

} // verus!
