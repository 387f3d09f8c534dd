use lsre::game_graph::GraphParseError;
use lsre::{GameGraph, Graph, GraphEdge, GraphNode, JsonEdge, JsonGraph, JsonPlayer, MatchResult};

fn player(name: &str, id: u8) -> JsonPlayer {
    JsonPlayer { name: name.to_string(), id }
}

fn edge(winner_id: u8, loser_id: u8) -> JsonEdge {
    JsonEdge { winner_id, loser_id }
}

fn edge_list(graph: &GameGraph, handle: usize) -> Vec<(MatchResult, usize)> {
    graph.node(handle).iter_edges().iter().map(|e| (e.data, e.pointer)).collect()
}

#[test]
fn new_graph_has_no_nodes() {
    let graph: Graph<u32, u32> = Graph::new();
    assert_eq!(graph.node_count(), 0);
    assert!(graph.iter_nodes().is_empty());
}

#[test]
fn add_node_returns_handles_in_insertion_order() {
    let mut graph: Graph<&str, u32> = Graph::new();
    assert_eq!(graph.add_node("a"), 0);
    assert_eq!(graph.add_node("b"), 1);
    assert_eq!(graph.add_node("c"), 2);
    assert_eq!(graph.iter_nodes(), vec![0, 1, 2]);
    assert_eq!(*graph.node(1).data(), "b");
    assert_eq!(graph.node(2).edges_count(), 0);
}

#[test]
fn add_edge_appends_to_the_source_node_only() {
    let mut graph: Graph<&str, char> = Graph::new();
    let a = graph.add_node("a");
    let b = graph.add_node("b");
    graph.add_edge(a, GraphEdge::new('x', b));
    graph.add_edge(a, GraphEdge::new('y', a));
    assert_eq!(graph.node(a).edges_count(), 2);
    assert_eq!(graph.node(b).edges_count(), 0);
    let edges = graph.node(a).iter_edges();
    assert_eq!((edges[0].data, edges[0].pointer), ('x', b));
    assert_eq!((edges[1].data, edges[1].pointer), ('y', a));
}

#[test]
fn node_payload_can_be_replaced() {
    let mut node: GraphNode<u32, ()> = GraphNode::new(3);
    node.add_edge(GraphEdge::new((), 0));
    *node.data_mut() = 7;
    assert_eq!(*node.data(), 7);
    assert_eq!(node.edges_count(), 1);
}

#[test]
fn add_match_creates_mirrored_edges() {
    let mut graph = GameGraph::new();
    let w = graph.add_node("w".to_string());
    let l = graph.add_node("l".to_string());
    let other = graph.add_node("o".to_string());
    graph.add_match(w, l);
    assert_eq!(edge_list(&graph, w), vec![(MatchResult::Victory, l)]);
    assert_eq!(edge_list(&graph, l), vec![(MatchResult::Defeat, w)]);
    assert!(edge_list(&graph, other).is_empty());
    assert_eq!(graph.node(w).wins(), 1);
    assert_eq!(graph.node(w).defeats(), 0);
    assert_eq!(graph.node(l).wins(), 0);
    assert_eq!(graph.node(l).defeats(), 1);
}

#[test]
fn add_match_against_oneself_adds_both_edges_to_one_node() {
    let mut graph = GameGraph::new();
    let p = graph.add_node("p".to_string());
    graph.add_match(p, p);
    assert_eq!(edge_list(&graph, p), vec![(MatchResult::Victory, p), (MatchResult::Defeat, p)]);
    assert_eq!(graph.node(p).wins(), 1);
    assert_eq!(graph.node(p).defeats(), 1);
}

#[test]
fn wins_and_defeats_count_by_outcome() {
    let mut graph = GameGraph::new();
    let a = graph.add_node("a".to_string());
    let b = graph.add_node("b".to_string());
    let c = graph.add_node("c".to_string());
    graph.add_match(a, b);
    graph.add_match(a, c);
    graph.add_match(b, a);
    graph.add_match(c, b);
    assert_eq!((graph.node(a).wins(), graph.node(a).defeats()), (2, 1));
    assert_eq!((graph.node(b).wins(), graph.node(b).defeats()), (1, 2));
    assert_eq!((graph.node(c).wins(), graph.node(c).defeats()), (1, 1));
}

#[test]
fn loading_builds_players_and_matches_in_file_order() {
    let json = JsonGraph {
        players: vec![player("ann", 7), player("bob", 3), player("cid", 200)],
        edges: vec![edge(7, 3), edge(200, 7)],
    };
    let graph = GameGraph::from_json_graph(json).unwrap();
    assert_eq!(graph.node_count(), 3);
    assert_eq!(graph.node(0).data(), "ann");
    assert_eq!(graph.node(1).data(), "bob");
    assert_eq!(graph.node(2).data(), "cid");
    assert_eq!(edge_list(&graph, 0), vec![(MatchResult::Victory, 1), (MatchResult::Defeat, 2)]);
    assert_eq!(edge_list(&graph, 1), vec![(MatchResult::Defeat, 0)]);
    assert_eq!(edge_list(&graph, 2), vec![(MatchResult::Victory, 0)]);
}

#[test]
fn loading_an_empty_file_gives_an_empty_graph() {
    let json = JsonGraph { players: vec![], edges: vec![] };
    let graph = GameGraph::from_json_graph(json).unwrap();
    assert_eq!(graph.node_count(), 0);
}

#[test]
fn loading_rejects_a_shared_id() {
    let json = JsonGraph {
        players: vec![player("ann", 1), player("bob", 2), player("cid", 1)],
        edges: vec![],
    };
    assert_eq!(GameGraph::from_json_graph(json).unwrap_err(), GraphParseError::RedundantId(1));
}

#[test]
fn loading_reports_the_first_shared_id() {
    let json = JsonGraph {
        players: vec![player("a", 4), player("b", 5), player("c", 5), player("d", 4)],
        edges: vec![edge(9, 4)],
    };
    assert_eq!(GameGraph::from_json_graph(json).unwrap_err(), GraphParseError::RedundantId(5));
}

#[test]
fn loading_rejects_an_unknown_winner() {
    let json = JsonGraph {
        players: vec![player("ann", 1), player("bob", 2)],
        edges: vec![edge(1, 2), edge(9, 8)],
    };
    assert_eq!(GameGraph::from_json_graph(json).unwrap_err(), GraphParseError::InvalidId(9));
}

#[test]
fn loading_rejects_an_unknown_loser() {
    let json = JsonGraph {
        players: vec![player("ann", 1), player("bob", 2)],
        edges: vec![edge(2, 1), edge(1, 6)],
    };
    assert_eq!(GameGraph::from_json_graph(json).unwrap_err(), GraphParseError::InvalidId(6));
}

#[test]
fn loading_accepts_a_match_against_oneself() {
    let json = JsonGraph { players: vec![player("solo", 0)], edges: vec![edge(0, 0)] };
    let graph = GameGraph::from_json_graph(json).unwrap();
    assert_eq!(graph.node(0).wins(), 1);
    assert_eq!(graph.node(0).defeats(), 1);
}
