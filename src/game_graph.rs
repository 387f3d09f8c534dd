use vstd::prelude::*;

use std::collections::HashMap;

use crate::graph::{Graph, GraphEdge, GraphNode};
use crate::json_data::{JsonEdge, JsonGraph, JsonPlayer};

verus! {

/// The outcome of a match, from the point of view of the node that holds the edge.
#[derive(Debug, Clone, Copy, PartialEq, Eq, Structural)]
pub enum MatchResult {
    Victory,
    Defeat,
}

/// A player: the node payload is the player's name.
pub type GameNode = GraphNode<String, MatchResult>;

/// A match seen from one player: the outcome and the opponent's handle.
pub type GameEdge = GraphEdge<MatchResult>;

/// Players and the matches between them.
pub type GameGraph = Graph<String, MatchResult>;

/// How many edges of `edges` carry `outcome`.
pub open spec fn count_outcome(edges: Seq<GameEdge>, outcome: MatchResult) -> nat
    decreases edges.len(),
{
    if edges.len() == 0 {
        0
    } else {
        count_outcome(edges.drop_last(), outcome) + if edges.last().data == outcome {
            1nat
        } else {
            0nat
        }
    }
}

/// The edges of node `node` after recording that `winner` beat `loser`:
/// the winner gains a victory over the loser, then the loser a defeat by the winner.
pub open spec fn record_edges(edges: Seq<GameEdge>, winner: usize, loser: usize, node: int) -> Seq<
    GameEdge,
> {
    let with_victory = if node == winner as int {
        edges.push(GraphEdge { data: MatchResult::Victory, pointer: loser })
    } else {
        edges
    };
    if node == loser as int {
        with_victory.push(GraphEdge { data: MatchResult::Defeat, pointer: winner })
    } else {
        with_victory
    }
}

/// The edges of node `node` after recording `matches` (winner, loser) in order on a node without edges.
pub open spec fn edges_after(matches: Seq<(usize, usize)>, node: int) -> Seq<GameEdge>
    decreases matches.len(),
{
    if matches.len() == 0 {
        Seq::empty()
    } else {
        record_edges(
            edges_after(matches.drop_last(), node),
            matches.last().0,
            matches.last().1,
            node,
        )
    }
}

/// How many edges of `edges` carry `outcome` and point at node `target`.
pub open spec fn count_edges(edges: Seq<GameEdge>, outcome: MatchResult, target: int) -> nat
    decreases edges.len(),
{
    if edges.len() == 0 {
        0
    } else {
        count_edges(edges.drop_last(), outcome, target) + if edges.last().data == outcome
            && edges.last().pointer == target {
            1nat
        } else {
            0nat
        }
    }
}

/// Matches are stored as mirrored pairs: for any two players `u` and `v`, the victories
/// of `u` over `v` are exactly as many as the defeats of `v` by `u`.
pub open spec fn mirrored(g: GameGraph) -> bool {
    forall|u: int, v: int|
        0 <= u < g@.len() && 0 <= v < g@.len() ==> #[trigger] count_edges(
            g.edges_of(u),
            MatchResult::Victory,
            v,
        ) == #[trigger] count_edges(g.edges_of(v), MatchResult::Defeat, u)
}

proof fn lemma_count_edges_push(edges: Seq<GameEdge>, edge: GameEdge, outcome: MatchResult, target: int)
    ensures
        count_edges(edges.push(edge), outcome, target) == count_edges(edges, outcome, target) + if edge.data
            == outcome && edge.pointer == target {
            1nat
        } else {
            0nat
        },
{
    assert(edges.push(edge).drop_last() =~= edges);
}

proof fn lemma_count_edges_record(edges: Seq<GameEdge>, winner: usize, loser: usize, node: int, outcome: MatchResult, target: int)
    ensures
        count_edges(record_edges(edges, winner, loser, node), outcome, target) == count_edges(edges, outcome, target)
            + (if node == winner && outcome == MatchResult::Victory && target == loser {
            1nat
        } else {
            0nat
        }) + (if node == loser && outcome == MatchResult::Defeat && target == winner {
            1nat
        } else {
            0nat
        }),
{
    let victory = GraphEdge { data: MatchResult::Victory, pointer: loser };
    let defeat = GraphEdge { data: MatchResult::Defeat, pointer: winner };
    lemma_count_edges_push(edges, victory, outcome, target);
    lemma_count_edges_push(edges, defeat, outcome, target);
    lemma_count_edges_push(edges.push(victory), defeat, outcome, target);
}

/// Recording a match keeps the victories and defeats mirrored.
proof fn lemma_record_keeps_mirrored(before: GameGraph, after: GameGraph, winner: usize, loser: usize)
    requires
        mirrored(before),
        match_recorded(before, after, winner, loser),
    ensures
        mirrored(after),
{
    assert forall|u: int, v: int| 0 <= u < after@.len() && 0 <= v < after@.len() implies #[trigger] count_edges(
        after.edges_of(u),
        MatchResult::Victory,
        v,
    ) == #[trigger] count_edges(after.edges_of(v), MatchResult::Defeat, u) by {
        assert(after.edges_of(u) == record_edges(before.edges_of(u), winner, loser, u));
        assert(after.edges_of(v) == record_edges(before.edges_of(v), winner, loser, v));
        lemma_count_edges_record(before.edges_of(u), winner, loser, u, MatchResult::Victory, v);
        lemma_count_edges_record(before.edges_of(v), winner, loser, v, MatchResult::Defeat, u);
        assert(count_edges(before.edges_of(u), MatchResult::Victory, v) == count_edges(
            before.edges_of(v),
            MatchResult::Defeat,
            u,
        ));
    }
}

/// `after` is `before` with the match `winner` beat `loser` recorded.
pub open spec fn match_recorded(before: GameGraph, after: GameGraph, winner: usize, loser: usize) -> bool {
    &&& after@.len() == before@.len()
    &&& forall|i: int| 0 <= i < before@.len() ==> #[trigger] after@[i].spec_data() == before@[i].spec_data()
    &&& forall|i: int|
        0 <= i < before@.len() ==> #[trigger] after.edges_of(i) == record_edges(
            before.edges_of(i),
            winner,
            loser,
            i,
        )
}

/// Why a match file could not be turned into a game graph.
#[derive(Debug, Clone, Copy, PartialEq, Eq, Structural)]
pub enum GraphParseError {
    /// Two players share this id.
    RedundantId(u8),
    /// A match names this id, which no player has.
    InvalidId(u8),
}

/// The ids of the players, in file order.
pub open spec fn player_ids(players: Seq<JsonPlayer>) -> Seq<u8> {
    players.map_values(|p: JsonPlayer| p.id)
}

/// The first id, scanning in order, that repeats an earlier one.
pub open spec fn redundant_id(ids: Seq<u8>) -> Option<u8>
    decreases ids.len(),
{
    if ids.len() == 0 {
        None
    } else {
        match redundant_id(ids.drop_last()) {
            Some(id) => Some(id),
            None => if ids.drop_last().contains(ids.last()) {
                Some(ids.last())
            } else {
                None
            },
        }
    }
}

/// The first id that no player has, scanning the matches in order and each winner before its loser.
pub open spec fn invalid_id(ids: Seq<u8>, matches: Seq<JsonEdge>) -> Option<u8>
    decreases matches.len(),
{
    if matches.len() == 0 {
        None
    } else {
        match invalid_id(ids, matches.drop_last()) {
            Some(id) => Some(id),
            None => if !ids.contains(matches.last().winner_id) {
                Some(matches.last().winner_id)
            } else if !ids.contains(matches.last().loser_id) {
                Some(matches.last().loser_id)
            } else {
                None
            },
        }
    }
}

/// The handle of the player with id `id` (its position in `ids`).
pub open spec fn handle_of(ids: Seq<u8>, id: u8) -> int {
    choose|j: int| 0 <= j < ids.len() && ids[j] == id
}

/// The matches as (winner handle, loser handle) pairs.
pub open spec fn resolve_matches(ids: Seq<u8>, matches: Seq<JsonEdge>) -> Seq<(usize, usize)> {
    matches.map_values(|m: JsonEdge| (handle_of(ids, m.winner_id) as usize, handle_of(ids, m.loser_id) as usize))
}

/// What loading `json` yields: the error of the first duplicate id, else the error
/// of the first unknown id, else a graph with one node per player, in file order,
/// named after it, and the matches recorded in file order.
pub open spec fn loaded_as(json: JsonGraph, r: Result<GameGraph, GraphParseError>) -> bool {
    let ids = player_ids(json.players@);
    match r {
        Ok(g) => {
            &&& redundant_id(ids) is None
            &&& invalid_id(ids, json.edges@) is None
            &&& g.wf()
            &&& mirrored(g)
            &&& g@.len() == json.players@.len()
            &&& forall|i: int| 0 <= i < g@.len() ==> #[trigger] g@[i].spec_data() == json.players@[i].name
            &&& forall|i: int|
                0 <= i < g@.len() ==> #[trigger] g.edges_of(i) == edges_after(
                    resolve_matches(ids, json.edges@),
                    i,
                )
        },
        Err(GraphParseError::RedundantId(id)) => redundant_id(ids) == Some(id),
        Err(GraphParseError::InvalidId(id)) => {
            &&& redundant_id(ids) is None
            &&& invalid_id(ids, json.edges@) == Some(id)
        },
    }
}

proof fn lemma_redundant_id_prefix(ids: Seq<u8>, k: int)
    requires
        0 <= k <= ids.len(),
        redundant_id(ids.take(k)) is Some,
    ensures
        redundant_id(ids) == redundant_id(ids.take(k)),
    decreases ids.len(),
{
    if k == ids.len() {
        assert(ids.take(k) =~= ids);
    } else {
        assert(ids.drop_last().take(k) =~= ids.take(k));
        lemma_redundant_id_prefix(ids.drop_last(), k);
    }
}

proof fn lemma_invalid_id_prefix(ids: Seq<u8>, matches: Seq<JsonEdge>, k: int)
    requires
        0 <= k <= matches.len(),
        invalid_id(ids, matches.take(k)) is Some,
    ensures
        invalid_id(ids, matches) == invalid_id(ids, matches.take(k)),
    decreases matches.len(),
{
    if k == matches.len() {
        assert(matches.take(k) =~= matches);
    } else {
        assert(matches.drop_last().take(k) =~= matches.take(k));
        lemma_invalid_id_prefix(ids, matches.drop_last(), k);
    }
}

proof fn lemma_no_redundant_id_distinct(ids: Seq<u8>)
    requires
        redundant_id(ids) is None,
    ensures
        forall|a: int, b: int| 0 <= a < b < ids.len() ==> ids[a] != ids[b],
    decreases ids.len(),
{
    if ids.len() > 0 {
        let prefix = ids.drop_last();
        lemma_no_redundant_id_distinct(prefix);
        assert forall|a: int, b: int| 0 <= a < b < ids.len() implies ids[a] != ids[b] by {
            if b == ids.len() - 1 {
                assert(prefix[a] == ids[a]);
                if ids[a] == ids[b] {
                    assert(prefix.contains(ids.last()));
                }
            } else {
                assert(prefix[a] == ids[a] && prefix[b] == ids[b]);
            }
        }
    }
}

proof fn lemma_shared_id_redundant(ids: Seq<u8>, a: int, b: int)
    requires
        0 <= a < b < ids.len(),
        ids[a] == ids[b],
    ensures
        redundant_id(ids) is Some,
{
    if redundant_id(ids) is None {
        lemma_no_redundant_id_distinct(ids);
    }
}

proof fn lemma_unknown_id_invalid(ids: Seq<u8>, matches: Seq<JsonEdge>, k: int)
    requires
        0 <= k < matches.len(),
        !ids.contains(matches[k].winner_id) || !ids.contains(matches[k].loser_id),
    ensures
        invalid_id(ids, matches) is Some,
    decreases matches.len(),
{
    if k < matches.len() - 1 {
        assert(matches.drop_last()[k] == matches[k]);
        lemma_unknown_id_invalid(ids, matches.drop_last(), k);
    }
}

/// Loading fails with a duplicate-id error whenever two players share an id.
pub proof fn shared_id_is_rejected(json: JsonGraph, a: int, b: int, r: Result<GameGraph, GraphParseError>)
    requires
        0 <= a < b < json.players@.len(),
        json.players@[a].id == json.players@[b].id,
        loaded_as(json, r),
    ensures
        r matches Err(GraphParseError::RedundantId(_)),
{
    let ids = player_ids(json.players@);
    lemma_shared_id_redundant(ids, a, b);
}

/// Loading fails, with a structural error, whenever a match names an id that no player has.
pub proof fn unknown_id_is_rejected(json: JsonGraph, k: int, r: Result<GameGraph, GraphParseError>)
    requires
        0 <= k < json.edges@.len(),
        !player_ids(json.players@).contains(json.edges@[k].winner_id) || !player_ids(
            json.players@,
        ).contains(json.edges@[k].loser_id),
        loaded_as(json, r),
    ensures
        r is Err,
{
    lemma_unknown_id_invalid(player_ids(json.players@), json.edges@, k);
}

proof fn lemma_count_push(edges: Seq<GameEdge>, edge: GameEdge, outcome: MatchResult)
    ensures
        count_outcome(edges.push(edge), outcome) == count_outcome(edges, outcome) + if edge.data
            == outcome {
            1nat
        } else {
            0nat
        },
{
    assert(edges.push(edge).drop_last() =~= edges);
}

/// Recording that `winner` beat `loser` adds exactly one victory to the winner, pointing
/// at the loser, and exactly one defeat to the loser, pointing at the winner; the other
/// outcome counts of both players and every other player's edges stay as they were.
pub proof fn record_match_mirrors(before: GameGraph, after: GameGraph, winner: usize, loser: usize)
    requires
        winner < before@.len(),
        loser < before@.len(),
        match_recorded(before, after, winner, loser),
    ensures
        after.edges_of(winner as int)[before.edges_of(winner as int).len() as int] == (GraphEdge {
            data: MatchResult::Victory,
            pointer: loser,
        }),
        after.edges_of(loser as int).last() == (GraphEdge { data: MatchResult::Defeat, pointer: winner }),
        count_outcome(after.edges_of(winner as int), MatchResult::Victory) == count_outcome(
            before.edges_of(winner as int),
            MatchResult::Victory,
        ) + 1,
        count_outcome(after.edges_of(loser as int), MatchResult::Defeat) == count_outcome(
            before.edges_of(loser as int),
            MatchResult::Defeat,
        ) + 1,
        winner != loser ==> count_outcome(after.edges_of(winner as int), MatchResult::Defeat)
            == count_outcome(before.edges_of(winner as int), MatchResult::Defeat),
        winner != loser ==> count_outcome(after.edges_of(loser as int), MatchResult::Victory)
            == count_outcome(before.edges_of(loser as int), MatchResult::Victory),
        forall|i: int|
            0 <= i < before@.len() && i != winner && i != loser ==> #[trigger] after.edges_of(i)
                == before.edges_of(i),
{
    let w = winner as int;
    let l = loser as int;
    let victory = GraphEdge { data: MatchResult::Victory, pointer: loser };
    let defeat = GraphEdge { data: MatchResult::Defeat, pointer: winner };
    assert(after.edges_of(w) == record_edges(before.edges_of(w), winner, loser, w));
    assert(after.edges_of(l) == record_edges(before.edges_of(l), winner, loser, l));
    lemma_count_push(before.edges_of(w), victory, MatchResult::Victory);
    lemma_count_push(before.edges_of(l), defeat, MatchResult::Defeat);
    lemma_count_push(before.edges_of(w), victory, MatchResult::Defeat);
    lemma_count_push(before.edges_of(l), defeat, MatchResult::Victory);
    if winner == loser {
        lemma_count_push(before.edges_of(w).push(victory), defeat, MatchResult::Victory);
        lemma_count_push(before.edges_of(w).push(victory), defeat, MatchResult::Defeat);
    }
    assert forall|i: int| 0 <= i < before@.len() && i != winner && i != loser implies #[trigger] after.edges_of(i)
        == before.edges_of(i) by {
        assert(after.edges_of(i) == record_edges(before.edges_of(i), winner, loser, i));
    }
}

impl GraphNode<String, MatchResult> {
    /// Gets how many games the player won.
    pub fn wins(&self) -> (r: usize)
        ensures
            r == count_outcome(self.spec_edges(), MatchResult::Victory),
    {
        self.count(MatchResult::Victory)
    }

    /// Gets how many games the player lost.
    pub fn defeats(&self) -> (r: usize)
        ensures
            r == count_outcome(self.spec_edges(), MatchResult::Defeat),
    {
        self.count(MatchResult::Defeat)
    }

    fn count(&self, outcome: MatchResult) -> (r: usize)
        ensures
            r == count_outcome(self.spec_edges(), outcome),
    {
        let edges = self.iter_edges();
        let mut count: usize = 0;
        let mut i: usize = 0;
        while i < edges.len()
            invariant
                edges@ == self.spec_edges(),
                i <= edges@.len(),
                count <= i,
                count == count_outcome(edges@.take(i as int), outcome),
            decreases edges@.len() - i,
        {
            proof {
                assert(edges@.take(i + 1).drop_last() =~= edges@.take(i as int));
            }
            if edges[i].data == outcome {
                count = count + 1;
            }
            i = i + 1;
        }
        proof {
            assert(edges@.take(i as int) =~= edges@);
        }
        count
    }
}

impl Graph<String, MatchResult> {
    /// Builds the game graph of a match file: one node per player, in file order,
    /// then the matches in file order. Fails on the first player whose id repeats an
    /// earlier one, and else on the first match id that names no player.
    pub fn from_json_graph(json_graph: JsonGraph) -> (r: Result<GameGraph, GraphParseError>)
        ensures
            loaded_as(json_graph, r),
    {
        broadcast use vstd::std_specs::hash::group_hash_axioms;

        let ghost json = json_graph;
        let ghost ids = player_ids(json.players@);
        let JsonGraph { players, edges } = json_graph;
        let n = players.len();
        let mut game_graph = GameGraph::new();
        let mut player_map: HashMap<u8, usize> = HashMap::new();
        let mut i: usize = 0;
        while i < n
            invariant
                n == players@.len(),
                json == json_graph,
                players == json.players,
                ids == player_ids(players@),
                i <= n,
                game_graph.wf(),
                game_graph@.len() == i,
                forall|k: int| 0 <= k < i ==> #[trigger] game_graph@[k].spec_data() == players@[k].name,
                forall|k: int| 0 <= k < i ==> #[trigger] game_graph.edges_of(k) == Seq::<GameEdge>::empty(),
                redundant_id(ids.take(i as int)) is None,
                forall|id: u8| #[trigger] player_map@.contains_key(id) <==> ids.take(i as int).contains(id),
                forall|id: u8|
                    #[trigger] player_map@.contains_key(id) ==> player_map@[id] < i && ids[player_map@[id] as int] == id,
            decreases n - i,
        {
            let id = players[i].id;
            let ghost before = game_graph;
            let handle = game_graph.add_node(players[i].name.clone());
            let previous = player_map.insert(id, handle);
            proof {
                assert(ids.take(i + 1).drop_last() =~= ids.take(i as int));
                assert(ids.take(i + 1).last() == id);
            }
            if previous.is_some() {
                proof {
                    assert(ids.take(i as int).contains(id));
                    assert(redundant_id(ids.take(i + 1)) == Some(id));
                    lemma_redundant_id_prefix(ids, i + 1);
                    assert(redundant_id(ids) == Some(id));
                }
                return Err(GraphParseError::RedundantId(id));
            }
            proof {
                assert forall|k: int|
                    #![trigger game_graph@[k].spec_data()]
                    #![trigger game_graph.edges_of(k)]
                    0 <= k <= i implies game_graph@[k].spec_data() == players@[k].name
                    && game_graph.edges_of(k) == Seq::<GameEdge>::empty() by {
                    if k < i {
                        assert(game_graph@.take(i as int)[k] == game_graph@[k]);
                        assert(before@[k] == game_graph@[k]);
                        assert(before.edges_of(k) == Seq::<GameEdge>::empty());
                        assert(before@[k].spec_data() == players@[k].name);
                    } else {
                        assert(handle == i);
                        assert(game_graph@[k].spec_data() == players@[k].name);
                        assert(game_graph.edges_of(k) == Seq::<GameEdge>::empty());
                    }
                }
                let ghost pre = ids.take(i as int);
                let ghost post = ids.take(i + 1);
                assert forall|x: u8| #[trigger] player_map@.contains_key(x) <==> post.contains(x) by {
                    if post.contains(x) && x != id {
                        let w = choose|w: int| 0 <= w < post.len() && #[trigger] post[w] == x;
                        assert(pre[w] == x);
                    }
                    if x != id && pre.contains(x) {
                        let w = choose|w: int| 0 <= w < pre.len() && #[trigger] pre[w] == x;
                        assert(post[w] == x);
                    }
                    if x == id {
                        assert(post[i as int] == x);
                    }
                }
            }
            i = i + 1;
        }
        proof {
            assert(ids.take(n as int) =~= ids);
            lemma_no_redundant_id_distinct(ids);
            assert forall|u: int, v: int| 0 <= u < n && 0 <= v < n implies #[trigger] count_edges(
                game_graph.edges_of(u),
                MatchResult::Victory,
                v,
            ) == #[trigger] count_edges(game_graph.edges_of(v), MatchResult::Defeat, u) by {
                assert(game_graph.edges_of(u) == Seq::<GameEdge>::empty());
                assert(game_graph.edges_of(v) == Seq::<GameEdge>::empty());
            }
        }
        let mut k: usize = 0;
        while k < edges.len()
            invariant
                n == players@.len(),
                n == ids.len(),
                json == json_graph,
                ids == player_ids(json.players@),
                edges == json.edges,
                k <= edges@.len(),
                game_graph.wf(),
                mirrored(game_graph),
                game_graph@.len() == n,
                forall|v: int| 0 <= v < n ==> #[trigger] game_graph@[v].spec_data() == players@[v].name,
                forall|v: int|
                    0 <= v < n ==> #[trigger] game_graph.edges_of(v) == edges_after(
                        resolve_matches(ids, edges@.take(k as int)),
                        v,
                    ),
                redundant_id(ids) is None,
                invalid_id(ids, edges@.take(k as int)) is None,
                forall|a: int, b: int| 0 <= a < b < ids.len() ==> ids[a] != ids[b],
                forall|id: u8| #[trigger] player_map@.contains_key(id) <==> ids.contains(id),
                forall|id: u8|
                    #[trigger] player_map@.contains_key(id) ==> player_map@[id] < n && ids[player_map@[id] as int] == id,
            decreases edges@.len() - k,
        {
            let winner_id = edges[k].winner_id;
            let loser_id = edges[k].loser_id;
            proof {
                assert(edges@.take(k + 1).drop_last() =~= edges@.take(k as int));
                assert(edges@.take(k + 1).last() == edges@[k as int]);
            }
            let winner = match player_map.get(&winner_id) {
                Some(h) => *h,
                None => {
                    proof {
                        assert(!ids.contains(winner_id));
                        assert(invalid_id(ids, edges@.take(k + 1)) == Some(winner_id));
                        lemma_invalid_id_prefix(ids, edges@, k + 1);
                    }
                    return Err(GraphParseError::InvalidId(winner_id));
                },
            };
            let loser = match player_map.get(&loser_id) {
                Some(h) => *h,
                None => {
                    proof {
                        lemma_invalid_id_prefix(ids, edges@, k + 1);
                    }
                    return Err(GraphParseError::InvalidId(loser_id));
                },
            };
            let ghost before = game_graph;
            game_graph.add_match(winner, loser);
            proof {
                assert(handle_of(ids, winner_id) == winner as int);
                assert(handle_of(ids, loser_id) == loser as int);
                let ghost done = resolve_matches(ids, edges@.take(k as int));
                let ghost next = resolve_matches(ids, edges@.take(k + 1));
                assert(next =~= done.push((winner, loser)));
                assert(next.drop_last() =~= done);
                assert(next.last() == (winner, loser));
                assert forall|v: int| 0 <= v < n implies #[trigger] game_graph.edges_of(v) == edges_after(
                    next,
                    v,
                ) by {
                    assert(game_graph.edges_of(v) == record_edges(before.edges_of(v), winner, loser, v));
                    assert(before.edges_of(v) == edges_after(done, v));
                }
            }
            k = k + 1;
        }
        proof {
            assert(edges@.take(k as int) =~= edges@);
        }
        Ok(game_graph)
    }

    /// Records a match: the winner gains a `Victory` edge pointing at the loser,
    /// and the loser a `Defeat` edge pointing at the winner.
    pub fn add_match(&mut self, winner: usize, loser: usize)
        requires
            winner < old(self)@.len(),
            loser < old(self)@.len(),
        ensures
            match_recorded(*old(self), *final(self), winner, loser),
            old(self).wf() ==> final(self).wf(),
            mirrored(*old(self)) ==> mirrored(*final(self)),
    {
        let ghost start = *self;
        self.add_edge(winner, GraphEdge::new(MatchResult::Victory, loser));
        let ghost middle = *self;
        self.add_edge(loser, GraphEdge::new(MatchResult::Defeat, winner));
        proof {
            assert forall|i: int| 0 <= i < start@.len() implies #[trigger] self.edges_of(i)
                == record_edges(start.edges_of(i), winner, loser, i) by {
                if i != winner {
                    assert(middle@[i] == start@[i]);
                }
                if i != loser {
                    assert(self@[i] == middle@[i]);
                }
            }
            assert forall|i: int| 0 <= i < start@.len() implies #[trigger] self@[i].spec_data()
                == start@[i].spec_data() by {
                if i != winner {
                    assert(middle@[i] == start@[i]);
                }
                if i != loser {
                    assert(self@[i] == middle@[i]);
                }
            }
            if mirrored(start) {
                lemma_record_keeps_mirrored(start, *self, winner, loser);
            }
        }
    }
}

} // verus!
