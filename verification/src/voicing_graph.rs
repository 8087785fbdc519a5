//! Voice leading: a graph of the voicings of a chord sequence, whose edges
//! are weighted by the distances between voicings of consecutive chords.

use vstd::prelude::*;

use petgraph::graph::{EdgeIndex, Graph, NodeIndex};
use petgraph::Directed;

use crate::chord::{law_voicings_fit, Chord};
use crate::fingering::positions_of;
use crate::chord_sequence::ChordSequence;
use crate::distance::Distance;
use crate::voicing::Voicing;
use crate::{Semitones, VoicingConfig};

verus! {

/// The graph type of the `petgraph` crate.
#[verifier::external_type_specification]
#[verifier::external_body]
#[verifier::reject_recursive_types(N)]
#[verifier::reject_recursive_types(E)]
#[verifier::reject_recursive_types(Ty)]
#[verifier::reject_recursive_types(Ix)]
pub struct ExternalGraph<N, E, Ty, Ix>(Graph<N, E, Ty, Ix>);

/// The marker type of directed `petgraph` graphs.
#[verifier::external_type_specification]
#[verifier::external_body]
pub struct ExternalDirected(Directed);

/// The graph of voicings: a node's weight is the position of its voicing in
/// the list of voicings, an edge's weight is a pair of semitone and
/// fingering distance.
pub type WeightGraph = Graph<usize, (u8, u8)>;

/// An edge: source node, target node, weight.
pub type Edge = (usize, usize, (u8, u8));

/// The node weights of a graph, by node index.
pub uninterp spec fn graph_nodes(g: Graph<usize, (u8, u8)>) -> Seq<usize>;

/// The edges of a graph, by edge index.
pub uninterp spec fn graph_edges(g: Graph<usize, (u8, u8)>) -> Seq<Edge>;

/// The simple paths from one node to another, in the order in which
/// `petgraph::algo::all_simple_paths` produces them.
pub uninterp spec fn simple_paths_of(g: Graph<usize, (u8, u8)>, from: usize, to: usize) -> Seq<Seq<usize>>;

/// There is an edge from `a` to `b`.
pub open spec fn has_edge(edges: Seq<Edge>, a: usize, b: usize) -> bool {
    exists|e: int| 0 <= e < edges.len() && (#[trigger] edges[e]).0 == a && edges[e].1 == b
}

/// `p` is a path from `from` to `to` along the edges, with no node twice,
/// over nodes below `n`.
pub open spec fn is_simple_path(n: nat, edges: Seq<Edge>, from: usize, to: usize, p: Seq<usize>) -> bool {
    &&& p.len() >= 2
    &&& p[0] == from
    &&& p.last() == to
    &&& forall|k: int| 0 <= k < p.len() ==> (#[trigger] p[k]) < n
    &&& forall|k: int, l: int| 0 <= k < l < p.len() ==> p[k] != p[l]
    &&& forall|k: int| 0 <= k < p.len() - 1 ==> has_edge(edges, #[trigger] p[k], p[k + 1])
}

/// An edge that does not touch node `a`.
pub open spec fn kept_edge(e: Edge, a: usize) -> bool {
    e.0 != a && e.1 != a
}

/// The number of node `x` once node `a` is removed and the last node `last`
/// takes over its number.
pub open spec fn renamed(x: usize, a: usize, last: usize) -> usize {
    if x == last {
        a
    } else {
        x
    }
}

/// An edge with its nodes renumbered once node `a` is removed.
pub open spec fn renamed_edge(e: Edge, a: usize, last: usize) -> Edge {
    (renamed(e.0, a, last), renamed(e.1, a, last), e.2)
}

/// `Graph::new`: an empty directed graph.
#[verifier::external_body]
fn graph_new() -> (g: WeightGraph)
    ensures
        graph_nodes(g) == Seq::<usize>::empty(),
        graph_edges(g) == Seq::<Edge>::empty(),
{
    Graph::new()
}

/// `Graph::add_node`: appends a node with the given weight and returns its
/// index, the number of nodes before the call. It panics when the node count
/// reaches the largest `u32`.
#[verifier::external_body]
fn graph_add_node(g: &mut WeightGraph, weight: usize) -> (i: usize)
    requires
        graph_nodes(*old(g)).len() < u32::MAX,
    ensures
        i == graph_nodes(*old(g)).len(),
        graph_nodes(*final(g)) == graph_nodes(*old(g)).push(weight),
        graph_edges(*final(g)) == graph_edges(*old(g)),
{
    g.add_node(weight).index()
}

/// `Graph::add_edge`: appends an edge from `a` to `b`; it panics when a node
/// does not exist or when the edge count reaches the largest `u32`.
#[verifier::external_body]
fn graph_add_edge(g: &mut WeightGraph, a: usize, b: usize, weight: (u8, u8))
    requires
        a < graph_nodes(*old(g)).len(),
        b < graph_nodes(*old(g)).len(),
        a < u32::MAX,
        b < u32::MAX,
        graph_edges(*old(g)).len() < u32::MAX,
    ensures
        graph_nodes(*final(g)) == graph_nodes(*old(g)),
        graph_edges(*final(g)) == graph_edges(*old(g)).push((a, b, weight)),
{
    g.add_edge(NodeIndex::new(a), NodeIndex::new(b), weight);
}

/// Indexing a graph by a node: the node's weight. It panics when the node
/// does not exist.
#[verifier::external_body]
fn graph_node_weight(g: &WeightGraph, a: usize) -> (w: usize)
    requires
        a < graph_nodes(*g).len(),
        a < u32::MAX,
    ensures
        w == graph_nodes(*g)[a as int],
{
    g[NodeIndex::new(a)]
}

/// `Graph::find_edge` on a directed graph: the index of an edge from `a` to
/// `b`, if there is one. (It is the first one in the list of edges leaving
/// `a`; which of several such edges that is, is left unsaid.)
#[verifier::external_body]
fn graph_find_edge(g: &WeightGraph, a: usize, b: usize) -> (r: Option<usize>)
    requires
        a < u32::MAX,
        b < u32::MAX,
    ensures
        match r {
            Some(e) => {
                &&& e < graph_edges(*g).len()
                &&& graph_edges(*g)[e as int].0 == a
                &&& graph_edges(*g)[e as int].1 == b
            },
            None => !has_edge(graph_edges(*g), a, b),
        },
{
    g.find_edge(NodeIndex::new(a), NodeIndex::new(b)).map(|e| e.index())
}

/// `Graph::node_count`: the number of nodes.
#[verifier::external_body]
fn graph_node_count(g: &WeightGraph) -> (r: usize)
    ensures
        r == graph_nodes(*g).len(),
{
    g.node_count()
}

/// `Graph::neighbors` on a directed graph, counted: the number of edges
/// leaving node `a`.
#[verifier::external_body]
fn graph_out_degree(g: &WeightGraph, a: usize) -> (r: usize)
    requires
        a < u32::MAX,
    ensures
        r == graph_edges(*g).filter(|e: Edge| e.0 == a).len(),
{
    g.neighbors(NodeIndex::new(a)).count()
}

/// `Graph::remove_node`: removes node `a` and every edge from or to it; the
/// last node takes over the index `a`, and the edges from and to it follow
/// it. The edges that stay are the others, renumbered; the order in which
/// they are kept is left unsaid.
#[verifier::external_body]
fn graph_remove_node(g: &mut WeightGraph, a: usize)
    requires
        a < graph_nodes(*old(g)).len(),
        graph_nodes(*old(g)).len() <= u32::MAX,
    ensures
        graph_nodes(*final(g)) == graph_nodes(*old(g)).update(a as int, graph_nodes(*old(g)).last()).drop_last(),
        graph_edges(*final(g)).len() <= graph_edges(*old(g)).len(),
        forall|x: Edge|
            graph_edges(*final(g)).contains(x) <==> exists|e: int|
                0 <= e < graph_edges(*old(g)).len() && kept_edge(#[trigger] graph_edges(*old(g))[e], a)
                    && x == renamed_edge(graph_edges(*old(g))[e], a, (graph_nodes(*old(g)).len() - 1) as usize),
{
    g.remove_node(NodeIndex::new(a));
}

/// `Graph::edge_weight`: the weight of an edge, if the edge exists.
#[verifier::external_body]
fn graph_edge_weight(g: &WeightGraph, e: usize) -> (r: Option<(u8, u8)>)
    requires
        e < u32::MAX,
    ensures
        r == (if e < graph_edges(*g).len() {
            Some(graph_edges(*g)[e as int].2)
        } else {
            None
        }),
{
    g.edge_weight(EdgeIndex::new(e)).copied()
}

/// `petgraph::algo::all_simple_paths` with no bound on the number of nodes,
/// collected: every simple path from `from` to `to` (a path that visits no
/// node twice), each given by its nodes.
#[verifier::external_body]
fn graph_simple_paths(g: &WeightGraph, from: usize, to: usize) -> (r: Vec<Vec<usize>>)
    requires
        from < graph_nodes(*g).len(),
        from < u32::MAX,
        to < u32::MAX,
        from != to,
    ensures
        r@.map_values(|p: Vec<usize>| p@) == simple_paths_of(*g, from, to),
        forall|i: int|
            0 <= i < r@.len() ==> is_simple_path(
                graph_nodes(*g).len(),
                graph_edges(*g),
                from,
                to,
                #[trigger] r@[i]@,
            ),
        forall|p: Seq<usize>|
            is_simple_path(graph_nodes(*g).len(), graph_edges(*g), from, to, p) ==> exists|i: int|
                0 <= i < r@.len() && (#[trigger] r@[i])@ == p,
{
    petgraph::algo::all_simple_paths::<Vec<NodeIndex>, _>(g, NodeIndex::new(from), NodeIndex::new(to), 0, None)
        .map(|p| p.into_iter().map(|n| n.index()).collect())
        .collect()
}

/// Voicings of consecutive chords whose semitone distance is greater than
/// this are not connected.
pub const MAX_DIST: Semitones = 10;

/// The voicings in reversed order.
pub open spec fn reversed(s: Seq<Voicing>) -> Seq<Voicing> {
    Seq::new(s.len(), |t: int| s[s.len() - 1 - t])
}

/// The node indices `first`, `first + 1`, ..., `first + n - 1`.
pub open spec fn node_range(first: nat, n: nat) -> Seq<usize> {
    Seq::new(n, |t: int| (first + t) as usize)
}

/// The weight of the edge from node `l` to node `r`: nothing from the start
/// node (node 0), else the distances between the two voicings.
pub open spec fn edge_weight_of(vs: Seq<Voicing>, l: usize, r: usize) -> (u8, u8) {
    if l == 0 {
        (0u8, 0u8)
    } else {
        (vs[l as int].semitone_dist(vs[r as int]) as u8, vs[l as int].fingering_dist(vs[r as int]) as u8)
    }
}

/// The edges from node `l` to the nodes of `right`, in order, leaving out
/// those whose semitone distance is greater than `MAX_DIST`.
pub open spec fn row_edges(vs: Seq<Voicing>, l: usize, right: Seq<usize>) -> Seq<Edge>
    decreases right.len(),
{
    if right.len() == 0 {
        Seq::empty()
    } else {
        let before = row_edges(vs, l, right.drop_last());
        let w = edge_weight_of(vs, l, right.last());
        if w.0 <= MAX_DIST {
            before.push((l, right.last(), w))
        } else {
            before
        }
    }
}

/// The edges from each node of `left` to the nodes of `right`.
pub open spec fn pair_edges(vs: Seq<Voicing>, left: Seq<usize>, right: Seq<usize>) -> Seq<Edge>
    decreases left.len(),
{
    if left.len() == 0 {
        Seq::empty()
    } else {
        pair_edges(vs, left.drop_last(), right) + row_edges(vs, left.last(), right)
    }
}

/// Adding the chords one after another: the voicings of each chord become new
/// nodes (in reversed order), connected to the nodes of the previous chord
/// (at first, the start node). The result holds the voicings of all nodes,
/// the edges and the nodes of the last chord.
pub open spec fn grow(
    vs: Seq<Voicing>,
    edges: Seq<Edge>,
    prev: Seq<usize>,
    chords: Seq<Chord>,
    config: VoicingConfig,
) -> (Seq<Voicing>, Seq<Edge>, Seq<usize>)
    decreases chords.len(),
{
    if chords.len() == 0 {
        (vs, edges, prev)
    } else {
        let layer = reversed(chords[0].voicing_seq(config));
        let ids = node_range(vs.len(), layer.len());
        let vs2 = vs + layer;
        grow(vs2, edges + pair_edges(vs2, prev, ids), ids, chords.drop_first(), config)
    }
}

/// The edges from the nodes of the last chord to the end node (node 1).
pub open spec fn end_edges(prev: Seq<usize>) -> Seq<Edge> {
    Seq::new(prev.len(), |j: int| (prev[j], 1usize, (0u8, 0u8)))
}

/// The distance between two voicings can be computed: it fits in a byte.
pub open spec fn distance_fits(v: Voicing, w: Voicing) -> bool {
    &&& v.semitone_dist(w) <= u8::MAX
    &&& v.fingering_dist(w) <= u8::MAX
    &&& v.min_pressed() + 3 <= u8::MAX
    &&& v.max_fret() < u8::MAX
    &&& w.min_pressed() + 3 <= u8::MAX
    &&& w.max_fret() < u8::MAX
}

/// The distances between the voicings of any two consecutive chords fit in
/// a byte.
pub open spec fn distances_fit(config: VoicingConfig, chords: Seq<Chord>) -> bool {
    forall|i: int, a: int, b: int|
        0 <= i < chords.len() - 1 && 0 <= a < chords[i].voicing_seq(config).len() && 0 <= b
            < chords[i + 1].voicing_seq(config).len() ==> distance_fits(
            #[trigger] chords[i].voicing_seq(config)[a],
            #[trigger] chords[i + 1].voicing_seq(config)[b],
        )
}

/// The weight of an edge from `a` to `b`, if there is one.
pub open spec fn edge_weight_between(edges: Seq<Edge>, a: usize, b: usize) -> Option<(u8, u8)> {
    if has_edge(edges, a, b) {
        Some(edges[choose|e: int| 0 <= e < edges.len() && (#[trigger] edges[e]).0 == a && edges[e].1 == b].2)
    } else {
        None
    }
}

/// All edges between the same two nodes weigh the same.
pub open spec fn consistent(edges: Seq<Edge>) -> bool {
    forall|e: int, f: int|
        0 <= e < edges.len() && 0 <= f < edges.len() && (#[trigger] edges[e]).0 == (#[trigger] edges[f]).0
            && edges[e].1 == edges[f].1 ==> edges[e].2 == edges[f].2
}

/// The sum of the weights along a path, each pair of consecutive nodes
/// counted with the weight of an edge between them.
pub open spec fn path_weight(edges: Seq<Edge>, p: Seq<usize>) -> (int, int)
    decreases p.len(),
{
    if p.len() < 2 {
        (0, 0)
    } else {
        let w = path_weight(edges, p.drop_last());
        match edge_weight_between(edges, p[p.len() - 2], p.last()) {
            Some(x) => (w.0 + x.0, w.1 + x.1),
            None => w,
        }
    }
}

/// Both parts of a weight fit in a byte.
pub open spec fn weight_fits(w: (int, int)) -> bool {
    w.0 <= u8::MAX && w.1 <= u8::MAX
}

/// Weights are compared by semitone distance first, fingering distance second.
pub open spec fn weight_le(a: (u8, u8), b: (u8, u8)) -> bool {
    a.0 < b.0 || (a.0 == b.0 && a.1 <= b.1)
}

/// Insert an indexed weight behind all entries whose weight is not greater.
pub open spec fn insert_weighted(s: Seq<(usize, (u8, u8))>, x: (usize, (u8, u8))) -> Seq<(usize, (u8, u8))>
    decreases s.len(),
{
    if s.len() == 0 {
        seq![x]
    } else if !weight_le(s[0].1, x.1) {
        seq![x] + s
    } else {
        seq![s[0]] + insert_weighted(s.drop_first(), x)
    }
}

/// Indexed weights sorted by weight; entries of equal weight keep their order.
pub open spec fn sort_weighted(s: Seq<(usize, (u8, u8))>) -> Seq<(usize, (u8, u8))>
    decreases s.len(),
{
    if s.len() == 0 {
        s
    } else {
        insert_weighted(sort_weighted(s.drop_last()), s.last())
    }
}

/// Each path's index with its weight.
pub open spec fn indexed_weights(edges: Seq<Edge>, paths: Seq<Seq<usize>>) -> Seq<(usize, (u8, u8))> {
    Seq::new(
        paths.len(),
        |i: int| (i as usize, (path_weight(edges, paths[i]).0 as u8, path_weight(edges, paths[i]).1 as u8)),
    )
}

/// The voicings of the inner nodes of a path (without its first and last node).
pub open spec fn voicing_path(vs: Seq<Voicing>, p: Seq<usize>) -> Seq<Voicing> {
    if p.len() < 2 {
        Seq::empty()
    } else {
        p.subrange(1, p.len() - 1).map_values(|n: usize| vs[n as int])
    }
}

/// The paths ranked by weight, lightest first, at most `max` of them, each
/// with the voicings along it and its weight; nothing if the weight of some
/// path does not fit in a byte.
pub open spec fn ranked_paths(
    edges: Seq<Edge>,
    vs: Seq<Voicing>,
    paths: Seq<Seq<usize>>,
    max: usize,
) -> Option<Seq<(Seq<Voicing>, Distance)>> {
    if exists|i: int| 0 <= i < paths.len() && !weight_fits(#[trigger] path_weight(edges, paths[i])) {
        None
    } else {
        let sorted = sort_weighted(indexed_weights(edges, paths));
        let n = if max < sorted.len() {
            max as int
        } else {
            sorted.len() as int
        };
        Some(
            sorted.take(n).map_values(
                |x: (usize, (u8, u8))| (voicing_path(vs, paths[x.0 as int]), Distance(x.1.0, x.1.1)),
            ),
        )
    }
}

/// Edges from a node to a prefix of the nodes are no more than to a longer prefix.
proof fn lemma_row_edges_len(vs: Seq<Voicing>, l: usize, right: Seq<usize>, b: int, c: int)
    requires
        0 <= b <= c <= right.len(),
    ensures
        row_edges(vs, l, right.take(b)).len() <= row_edges(vs, l, right.take(c)).len(),
        row_edges(vs, l, right.take(c)).len() <= c,
    decreases c,
{
    if c > 0 {
        assert(right.take(c).drop_last() =~= right.take(c - 1));
        if b < c {
            lemma_row_edges_len(vs, l, right, b, c - 1);
        } else {
            lemma_row_edges_len(vs, l, right, c - 1, c - 1);
        }
    }
}

/// Every edge of a row starts at its node and ends at one of the nodes.
proof fn lemma_row_edges_ends(vs: Seq<Voicing>, l: usize, right: Seq<usize>)
    ensures
        forall|e: int|
            0 <= e < row_edges(vs, l, right).len() ==> (#[trigger] row_edges(vs, l, right)[e]).0 == l
                && right.contains(row_edges(vs, l, right)[e].1) && row_edges(vs, l, right)[e].2
                == edge_weight_of(vs, l, row_edges(vs, l, right)[e].1),
    decreases right.len(),
{
    if right.len() > 0 {
        lemma_row_edges_ends(vs, l, right.drop_last());
        let before = row_edges(vs, l, right.drop_last());
        assert forall|e: int| 0 <= e < row_edges(vs, l, right).len() implies (#[trigger] row_edges(
            vs,
            l,
            right,
        )[e]).0 == l && right.contains(row_edges(vs, l, right)[e].1) && row_edges(vs, l, right)[e].2
            == edge_weight_of(vs, l, row_edges(vs, l, right)[e].1) by {
            if e < before.len() {
                let t = choose|t: int| 0 <= t < right.drop_last().len() && right.drop_last()[t] == before[e].1;
                assert(right[t] == before[e].1);
            } else {
                assert(right[right.len() - 1] == right.last());
            }
        }
    }
}

/// The edges from a prefix of the left nodes are no more than from all of them.
proof fn lemma_pair_edges_len(vs: Seq<Voicing>, left: Seq<usize>, right: Seq<usize>, a: int)
    requires
        0 <= a <= left.len(),
    ensures
        pair_edges(vs, left.take(a), right).len() <= pair_edges(vs, left, right).len(),
    decreases left.len(),
{
    if a < left.len() {
        assert(left.drop_last().take(a) =~= left.take(a));
        lemma_pair_edges_len(vs, left.drop_last(), right, a);
    } else {
        assert(left.take(a) =~= left);
    }
}

/// Every edge between the two node lists starts at a left node and ends at a
/// right node.
proof fn lemma_pair_edges_ends(vs: Seq<Voicing>, left: Seq<usize>, right: Seq<usize>)
    ensures
        forall|e: int|
            0 <= e < pair_edges(vs, left, right).len() ==> left.contains(
                (#[trigger] pair_edges(vs, left, right)[e]).0,
            ) && right.contains(pair_edges(vs, left, right)[e].1) && pair_edges(vs, left, right)[e].2
                == edge_weight_of(vs, pair_edges(vs, left, right)[e].0, pair_edges(vs, left, right)[e].1),
    decreases left.len(),
{
    if left.len() > 0 {
        lemma_pair_edges_ends(vs, left.drop_last(), right);
        lemma_row_edges_ends(vs, left.last(), right);
        let before = pair_edges(vs, left.drop_last(), right);
        assert forall|e: int| 0 <= e < pair_edges(vs, left, right).len() implies left.contains(
            (#[trigger] pair_edges(vs, left, right)[e]).0,
        ) && right.contains(pair_edges(vs, left, right)[e].1) && pair_edges(vs, left, right)[e].2
            == edge_weight_of(vs, pair_edges(vs, left, right)[e].0, pair_edges(vs, left, right)[e].1) by {
            if e < before.len() {
                let t = choose|t: int| 0 <= t < left.drop_last().len() && left.drop_last()[t] == before[e].0;
                assert(left[t] == before[e].0);
            } else {
                assert(row_edges(vs, left.last(), right)[e - before.len()] == pair_edges(vs, left, right)[e]);
                assert(left[left.len() - 1] == left.last());
            }
        }
    }
}

/// Adding chords only adds voicings and edges.
proof fn lemma_grow_len(vs: Seq<Voicing>, edges: Seq<Edge>, prev: Seq<usize>, chords: Seq<Chord>, config: VoicingConfig)
    ensures
        grow(vs, edges, prev, chords, config).0.len() >= vs.len(),
        grow(vs, edges, prev, chords, config).1.len() >= edges.len(),
    decreases chords.len(),
{
    if chords.len() > 0 {
        let layer = reversed(chords[0].voicing_seq(config));
        let ids = node_range(vs.len(), layer.len());
        let vs2 = vs + layer;
        lemma_grow_len(vs2, edges + pair_edges(vs2, prev, ids), ids, chords.drop_first(), config);
    }
}

/// When all edges between two nodes weigh the same, any edge the lookup
/// finds has the weight of the edges between them.
proof fn lemma_edge_found(edges: Seq<Edge>, a: usize, b: usize, r: Option<usize>)
    requires
        consistent(edges),
        match r {
            Some(e) => e < edges.len() && edges[e as int].0 == a && edges[e as int].1 == b,
            None => !has_edge(edges, a, b),
        },
    ensures
        match r {
            Some(e) => edge_weight_between(edges, a, b) == Some(edges[e as int].2),
            None => edge_weight_between(edges, a, b) is None,
        },
{
    if let Some(e) = r {
        assert(has_edge(edges, a, b)) by {
            assert(edges[e as int].0 == a && edges[e as int].1 == b);
        }
        let c = choose|c: int| 0 <= c < edges.len() && (#[trigger] edges[c]).0 == a && edges[c].1 == b;
        assert(edges[c].2 == edges[e as int].2);
    }
}

/// The weight of a path's prefix is no more than that of the whole path.
proof fn lemma_path_weight_prefix(edges: Seq<Edge>, p: Seq<usize>, k: int)
    requires
        0 <= k <= p.len(),
    ensures
        path_weight(edges, p.take(k)).0 <= path_weight(edges, p).0,
        path_weight(edges, p.take(k)).1 <= path_weight(edges, p).1,
        path_weight(edges, p).0 >= 0,
        path_weight(edges, p).1 >= 0,
    decreases p.len(),
{
    if k == p.len() {
        assert(p.take(k) =~= p);
    }
    if p.len() >= 2 {
        if k < p.len() {
            assert(p.drop_last().take(k) =~= p.take(k));
            lemma_path_weight_prefix(edges, p.drop_last(), k);
        } else {
            lemma_path_weight_prefix(edges, p.drop_last(), 0);
        }
    } else if p.len() == 1 && k == 0 {
        assert(p.take(k).len() == 0);
    }
}

/// Inserting keeps the entries and adds the new one.
proof fn lemma_insert_weighted(s: Seq<(usize, (u8, u8))>, x: (usize, (u8, u8)))
    ensures
        insert_weighted(s, x).len() == s.len() + 1,
        insert_weighted(s, x).contains(x),
        forall|k: int| 0 <= k < s.len() ==> insert_weighted(s, x).contains(#[trigger] s[k]),
        forall|k: int|
            0 <= k < insert_weighted(s, x).len() ==> #[trigger] insert_weighted(s, x)[k] == x || s.contains(
                insert_weighted(s, x)[k],
            ),
        (forall|i: int, j: int| 0 <= i < j < s.len() ==> weight_le(s[i].1, s[j].1)) ==> (forall|i: int, j: int|
            0 <= i < j < insert_weighted(s, x).len() ==> weight_le(
                insert_weighted(s, x)[i].1,
                insert_weighted(s, x)[j].1,
            )),
    decreases s.len(),
{
    let r = insert_weighted(s, x);
    if s.len() == 0 {
        assert(r[0] == x);
    } else if !weight_le(s[0].1, x.1) {
        assert(r[0] == x);
        assert forall|k: int| 0 <= k < s.len() implies r.contains(#[trigger] s[k]) by {
            assert(r[k + 1] == s[k]);
        }
        assert forall|k: int| 0 <= k < r.len() implies #[trigger] r[k] == x || s.contains(r[k]) by {
            if k > 0 {
                assert(r[k] == s[k - 1]);
            }
        }
        if forall|i: int, j: int| 0 <= i < j < s.len() ==> weight_le(s[i].1, s[j].1) {
            assert forall|i: int, j: int| 0 <= i < j < r.len() implies weight_le(r[i].1, r[j].1) by {
                assert(r[j] == s[j - 1]);
                if i > 0 {
                    assert(r[i] == s[i - 1]);
                } else if j > 1 {
                    assert(weight_le(s[0].1, s[j - 1].1));
                }
            }
        }
    } else {
        let t = s.drop_first();
        lemma_insert_weighted(t, x);
        let rt = insert_weighted(t, x);
        assert(r == seq![s[0]] + rt);
        assert(r[0] == s[0]);
        let jx = choose|j: int| 0 <= j < rt.len() && rt[j] == x;
        assert(r[jx + 1] == x);
        assert forall|k: int| 0 <= k < s.len() implies r.contains(#[trigger] s[k]) by {
            if k > 0 {
                assert(t[k - 1] == s[k]);
                let j = choose|j: int| 0 <= j < rt.len() && rt[j] == t[k - 1];
                assert(r[j + 1] == s[k]);
            }
        }
        assert forall|k: int| 0 <= k < r.len() implies #[trigger] r[k] == x || s.contains(r[k]) by {
            if k > 0 {
                assert(r[k] == rt[k - 1]);
                if rt[k - 1] != x {
                    let j = choose|j: int| 0 <= j < t.len() && t[j] == rt[k - 1];
                    assert(s[j + 1] == r[k]);
                }
            } else {
                assert(s[0] == r[0]);
            }
        }
        if forall|i: int, j: int| 0 <= i < j < s.len() ==> weight_le(s[i].1, s[j].1) {
            assert forall|i: int, j: int| 0 <= i < j < r.len() implies weight_le(r[i].1, r[j].1) by {
                if i > 0 {
                    assert(r[i] == rt[i - 1]);
                    assert(r[j] == rt[j - 1]);
                    assert forall|a: int, b: int| 0 <= a < b < t.len() implies weight_le(t[a].1, t[b].1) by {
                        assert(t[a] == s[a + 1]);
                        assert(t[b] == s[b + 1]);
                    }
                } else {
                    assert(r[j] == rt[j - 1]);
                    if rt[j - 1] == x {
                    } else {
                        let m = choose|m: int| 0 <= m < s.len() && s[m] == rt[j - 1];
                        if m > 0 {
                            assert(weight_le(s[0].1, s[m].1));
                        }
                    }
                }
            }
        }
    }
}

/// Sorting keeps the entries, and sorts them by weight.
proof fn lemma_sort_weighted(s: Seq<(usize, (u8, u8))>)
    ensures
        sort_weighted(s).len() == s.len(),
        forall|k: int| 0 <= k < s.len() ==> sort_weighted(s).contains(#[trigger] s[k]),
        forall|k: int| 0 <= k < s.len() ==> s.contains(#[trigger] sort_weighted(s)[k]),
        forall|i: int, j: int|
            0 <= i < j < s.len() ==> weight_le(sort_weighted(s)[i].1, sort_weighted(s)[j].1),
    decreases s.len(),
{
    if s.len() > 0 {
        let t = s.drop_last();
        lemma_sort_weighted(t);
        let st = sort_weighted(t);
        lemma_insert_weighted(st, s.last());
        let r = sort_weighted(s);
        assert forall|k: int| 0 <= k < s.len() implies r.contains(#[trigger] s[k]) by {
            if k < s.len() - 1 {
                assert(t[k] == s[k]);
                let j = choose|j: int| 0 <= j < st.len() && st[j] == t[k];
                assert(r.contains(st[j]));
            }
        }
        assert forall|k: int| 0 <= k < s.len() implies s.contains(#[trigger] r[k]) by {
            if r[k] == s.last() {
                assert(s[s.len() - 1] == r[k]);
            } else {
                let j = choose|j: int| 0 <= j < st.len() && st[j] == r[k];
                let m = choose|m: int| 0 <= m < t.len() && t[m] == st[j];
                assert(s[m] == r[k]);
            }
        }
    }
}

/// Insert an indexed weight into a sorted list, behind all entries whose
/// weight is not greater.
fn insert_by_weight(v: &mut Vec<(usize, (u8, u8))>, x: (usize, (u8, u8)))
    ensures
        final(v)@ == insert_weighted(old(v)@, x),
{
    let mut j: usize = 0;
    while j < v.len()
        invariant
            j <= v@.len(),
            v@ == old(v)@,
            forall|k: int| 0 <= k < j ==> weight_le((#[trigger] v@[k]).1, x.1),
        ensures
            j <= v@.len(),
            v@ == old(v)@,
            forall|k: int| 0 <= k < j ==> weight_le((#[trigger] v@[k]).1, x.1),
            j < v@.len() ==> !weight_le(v@[j as int].1, x.1),
        decreases v@.len() - j,
    {
        let w = v[j].1;
        if !(w.0 < x.1.0 || (w.0 == x.1.0 && w.1 <= x.1.1)) {
            break;
        }
        j = j + 1;
    }
    proof {
        lemma_insert_weighted_at(v@, x, j as int);
    }
    v.insert(j, x);
}

proof fn lemma_insert_weighted_at(s: Seq<(usize, (u8, u8))>, x: (usize, (u8, u8)), j: int)
    requires
        0 <= j <= s.len(),
        forall|k: int| 0 <= k < j ==> weight_le((#[trigger] s[k]).1, x.1),
        j < s.len() ==> !weight_le(s[j].1, x.1),
    ensures
        insert_weighted(s, x) == s.insert(j, x),
    decreases s.len(),
{
    if s.len() == 0 {
        assert(s.insert(j, x) =~= seq![x]);
    } else if j == 0 {
        assert(seq![x] + s =~= s.insert(0, x));
    } else {
        assert(weight_le(s[0].1, x.1));
        let t = s.drop_first();
        assert forall|k: int| 0 <= k < j - 1 implies weight_le((#[trigger] t[k]).1, x.1) by {
            assert(t[k] == s[k + 1]);
        }
        lemma_insert_weighted_at(t, x, j - 1);
        assert(seq![s[0]] + t.insert(j - 1, x) =~= s.insert(j, x));
    }
}

/// What the ranking gives back: each suggestion follows a simple path and
/// carries its weight, and, given all simple paths, the first suggestion
/// weighs no more than any simple path.
proof fn lemma_ranked_paths(n_nodes: nat, edges: Seq<Edge>, vs: Seq<Voicing>, paths: Seq<Seq<usize>>, max: usize)
    requires
        paths.len() <= usize::MAX,
        forall|i: int| 0 <= i < paths.len() ==> is_simple_path(n_nodes, edges, 0, 1, #[trigger] paths[i]),
        forall|p: Seq<usize>| is_simple_path(n_nodes, edges, 0, 1, p) ==> paths.contains(p),
    ensures
        ranked_paths(edges, vs, paths, max) matches Some(v) ==> forall|t: int|
            0 <= t < v.len() ==> exists|p: Seq<usize>|
                is_simple_path(n_nodes, edges, 0, 1, p) && (#[trigger] v[t]).0 == voicing_path(vs, p) && v[t].1
                    == Distance(path_weight(edges, p).0 as u8, path_weight(edges, p).1 as u8),
        ranked_paths(edges, vs, paths, max) matches Some(v) ==> forall|p: Seq<usize>|
            max > 0 && is_simple_path(n_nodes, edges, 0, 1, p) ==> v.len() > 0 && v[0].1.at_most(
                Distance(path_weight(edges, p).0 as u8, path_weight(edges, p).1 as u8),
            ),
{
    let iw = indexed_weights(edges, paths);
    lemma_sort_weighted(iw);
    let sorted = sort_weighted(iw);
    if ranked_paths(edges, vs, paths, max) is Some {
        let v = ranked_paths(edges, vs, paths, max)->0;
        let n = if max < sorted.len() {
            max as int
        } else {
            sorted.len() as int
        };
        assert forall|t: int| 0 <= t < v.len() implies exists|p: Seq<usize>|
            is_simple_path(n_nodes, edges, 0, 1, p) && (#[trigger] v[t]).0 == voicing_path(vs, p) && v[t].1
                == Distance(path_weight(edges, p).0 as u8, path_weight(edges, p).1 as u8) by {
            assert(iw.contains(sorted[t]));
            let m = choose|m: int| 0 <= m < iw.len() && iw[m] == sorted[t];
            assert(iw[m].0 == m as usize);
            assert(is_simple_path(n_nodes, edges, 0, 1, paths[m]));
            assert(t < n);
            assert(v[t] == (voicing_path(vs, paths[sorted[t].0 as int]), Distance(sorted[t].1.0, sorted[t].1.1)));
            assert(v[t].0 == voicing_path(vs, paths[m]));
        }
        assert forall|p: Seq<usize>| max > 0 && is_simple_path(n_nodes, edges, 0, 1, p) implies v.len() > 0
            && v[0].1.at_most(Distance(path_weight(edges, p).0 as u8, path_weight(edges, p).1 as u8)) by {
            assert(paths.contains(p));
            let i = choose|i: int| 0 <= i < paths.len() && paths[i] == p;
            assert(0 <= i < iw.len());
            assert(iw[i] == (i as usize, (path_weight(edges, p).0 as u8, path_weight(edges, p).1 as u8)));
            assert(sorted.contains(iw[i]));
            let j = choose|j: int| 0 <= j < sorted.len() && sorted[j] == iw[i];
            if j > 0 {
                assert(weight_le(sorted[0].1, sorted[j].1));
            }
            assert(v[0].1 == Distance(sorted[0].1.0, sorted[0].1.1));
        }
    }
}

/// The nodes of the graph are in layers: the start node in layer 0, the
/// voicings of the `k`-th chord (counting from 1) in layer `k`, the end node
/// apart; every edge leads from one layer to the next, and the last nodes
/// added are those of layer `d`.
pub open spec fn layered(
    vs: Seq<Voicing>,
    edges: Seq<Edge>,
    prev: Seq<usize>,
    lay: Seq<int>,
    d: int,
    chords: Seq<Chord>,
    config: VoicingConfig,
) -> bool {
    &&& 2 <= vs.len()
    &&& lay.len() == vs.len()
    &&& lay[0] == 0
    &&& lay[1] == -1
    &&& 0 <= d <= chords.len()
    &&& forall|x: int|
        2 <= x < vs.len() ==> 1 <= #[trigger] lay[x] <= d && chords[lay[x] - 1].voicing_seq(config).contains(
            vs[x],
        )
    &&& forall|e: int|
        0 <= e < edges.len() ==> (#[trigger] edges[e]).0 < vs.len() && 2 <= edges[e].1 < vs.len() && 0
            <= lay[edges[e].0 as int] && lay[edges[e].1 as int] == lay[edges[e].0 as int] + 1
    &&& forall|j: int| 0 <= j < prev.len() ==> (#[trigger] prev[j]) < vs.len() && lay[prev[j] as int] == d
}

/// Adding the remaining chords keeps the graph in layers.
proof fn lemma_grow_layers(
    vs: Seq<Voicing>,
    edges: Seq<Edge>,
    prev: Seq<usize>,
    lay: Seq<int>,
    d: int,
    chords: Seq<Chord>,
    config: VoicingConfig,
) -> (lay2: Seq<int>)
    requires
        layered(vs, edges, prev, lay, d, chords, config),
        grow(vs, edges, prev, chords.skip(d), config).0.len() <= u32::MAX,
    ensures
        layered(
            grow(vs, edges, prev, chords.skip(d), config).0,
            grow(vs, edges, prev, chords.skip(d), config).1,
            grow(vs, edges, prev, chords.skip(d), config).2,
            lay2,
            chords.len() as int,
            chords,
            config,
        ),
    decreases chords.len() - d,
{
    if d == chords.len() {
        assert(chords.skip(d).len() == 0);
        lay
    } else {
        let rest = chords.skip(d);
        assert(rest[0] == chords[d]);
        assert(rest.drop_first() =~= chords.skip(d + 1));
        let cur = chords[d].voicing_seq(config);
        let layer = reversed(cur);
        let ids = node_range(vs.len(), layer.len());
        let vs2 = vs + layer;
        let lay1 = lay + Seq::new(layer.len(), |t: int| d + 1);
        let edges2 = edges + pair_edges(vs2, prev, ids);
        lemma_pair_edges_ends(vs2, prev, ids);
        lemma_grow_len(vs2, edges2, ids, chords.skip(d + 1), config);
        assert forall|x: int| 2 <= x < vs2.len() implies 1 <= #[trigger] lay1[x] <= d + 1 && chords[lay1[x]
            - 1].voicing_seq(config).contains(vs2[x]) by {
            if x >= vs.len() {
                let t = x - vs.len();
                assert(vs2[x] == layer[t]);
                assert(layer[t] == cur[cur.len() - 1 - t]);
                assert(lay1[x] == d + 1);
            } else {
                assert(lay1[x] == lay[x]);
                assert(vs2[x] == vs[x]);
            }
        }
        assert forall|e: int| 0 <= e < edges2.len() implies (#[trigger] edges2[e]).0 < vs2.len() && 2 <= edges2[e].1
            < vs2.len() && 0 <= lay1[edges2[e].0 as int] && lay1[edges2[e].1 as int] == lay1[edges2[e].0 as int]
            + 1 by {
            if e >= edges.len() {
                let pe = pair_edges(vs2, prev, ids);
                assert(edges2[e] == pe[e - edges.len()]);
                let a = choose|j: int| 0 <= j < prev.len() && prev[j] == pe[e - edges.len()].0;
                let b = choose|j: int| 0 <= j < ids.len() && ids[j] == pe[e - edges.len()].1;
                assert(lay1[prev[a] as int] == lay[prev[a] as int]);
                assert(ids[b] == vs.len() + b);
            } else {
                assert(edges2[e] == edges[e]);
            }
        }
        assert forall|j: int| 0 <= j < ids.len() implies (#[trigger] ids[j]) < vs2.len() && lay1[ids[j] as int]
            == d + 1 by {
            assert(ids[j] == vs.len() + j);
        }
        assert(layered(vs2, edges2, ids, lay1, d + 1, chords, config));
        lemma_grow_layers(vs2, edges2, ids, lay1, d + 1, chords, config)
    }
}

/// Along a path from the start node that has not reached the end node, the
/// `k`-th node lies in layer `k`.
proof fn lemma_path_layers(
    vs: Seq<Voicing>,
    edges: Seq<Edge>,
    prev: Seq<usize>,
    lay: Seq<int>,
    n: int,
    chords: Seq<Chord>,
    config: VoicingConfig,
    p: Seq<usize>,
    k: int,
)
    requires
        0 <= k <= p.len() - 2,
        is_simple_path(vs.len(), edges + end_edges(prev), 0, 1, p),
        layered(vs, edges, prev, lay, n, chords, config),
    ensures
        forall|m: int| 0 <= m <= k ==> lay[#[trigger] p[m] as int] == m,
    decreases k,
{
    let all = edges + end_edges(prev);
    if k > 0 {
        lemma_path_layers(vs, edges, prev, lay, n, chords, config, p, k - 1);
        assert(has_edge(all, p[k - 1], p[k]));
        let e = choose|e: int| 0 <= e < all.len() && (#[trigger] all[e]).0 == p[k - 1] && all[e].1 == p[k];
        assert(p[k] != p[p.len() - 1]);
        if e >= edges.len() {
            assert(all[e] == end_edges(prev)[e - edges.len()]);
        } else {
            assert(all[e] == edges[e]);
        }
    }
}

/// A row has the edge to a node of `right` whose semitone distance is at
/// most `MAX_DIST`.
proof fn lemma_row_edges_has(vs: Seq<Voicing>, l: usize, right: Seq<usize>, b: int)
    requires
        0 <= b < right.len(),
        edge_weight_of(vs, l, right[b]).0 <= MAX_DIST,
    ensures
        has_edge(row_edges(vs, l, right), l, right[b]),
    decreases right.len(),
{
    let before = row_edges(vs, l, right.drop_last());
    let row = row_edges(vs, l, right);
    if b < right.len() - 1 {
        assert(right.drop_last()[b] == right[b]);
        lemma_row_edges_has(vs, l, right.drop_last(), b);
        let e = choose|e: int| 0 <= e < before.len() && (#[trigger] before[e]).0 == l && before[e].1 == right[b];
        if edge_weight_of(vs, l, right.last()).0 <= MAX_DIST {
            assert(row[e] == before[e]);
        }
    } else {
        assert(right.last() == right[b]);
        assert(row[before.len() as int].0 == l && row[before.len() as int].1 == right[b]);
    }
}

/// The edges between two layers include every edge whose semitone distance
/// is at most `MAX_DIST`.
proof fn lemma_pair_edges_has(vs: Seq<Voicing>, left: Seq<usize>, right: Seq<usize>, a: int, b: int)
    requires
        0 <= a < left.len(),
        0 <= b < right.len(),
        edge_weight_of(vs, left[a], right[b]).0 <= MAX_DIST,
    ensures
        has_edge(pair_edges(vs, left, right), left[a], right[b]),
    decreases left.len(),
{
    let before = pair_edges(vs, left.drop_last(), right);
    let row = row_edges(vs, left.last(), right);
    assert(pair_edges(vs, left, right) == before + row);
    if a < left.len() - 1 {
        assert(left.drop_last()[a] == left[a]);
        lemma_pair_edges_has(vs, left.drop_last(), right, a, b);
        let e = choose|e: int| 0 <= e < before.len() && (#[trigger] before[e]).0 == left[a] && before[e].1 == right[b];
        assert((before + row)[e] == before[e]);
    } else {
        assert(left.last() == left[a]);
        lemma_row_edges_has(vs, left.last(), right, b);
        let e = choose|e: int| 0 <= e < row.len() && (#[trigger] row[e]).0 == left[a] && row[e].1 == right[b];
        assert((before + row)[before.len() + e] == row[e]);
    }
}

/// Adding edges keeps the edges there were.
proof fn lemma_has_edge_grows(edges: Seq<Edge>, more: Seq<Edge>, a: usize, b: usize)
    ensures
        has_edge(edges, a, b) ==> has_edge(edges + more, a, b),
        has_edge(more, a, b) ==> has_edge(edges + more, a, b),
{
    if has_edge(edges, a, b) {
        let e = choose|e: int| 0 <= e < edges.len() && (#[trigger] edges[e]).0 == a && edges[e].1 == b;
        assert((edges + more)[e] == edges[e]);
    }
    if has_edge(more, a, b) {
        let e = choose|e: int| 0 <= e < more.len() && (#[trigger] more[e]).0 == a && more[e].1 == b;
        assert((edges + more)[edges.len() + e] == more[e]);
    }
}

/// Adding chords keeps the edges there were.
proof fn lemma_grow_keeps_edges(
    vs: Seq<Voicing>,
    edges: Seq<Edge>,
    prev: Seq<usize>,
    chords: Seq<Chord>,
    config: VoicingConfig,
    a: usize,
    b: usize,
)
    requires
        has_edge(edges, a, b),
    ensures
        has_edge(grow(vs, edges, prev, chords, config).1, a, b),
    decreases chords.len(),
{
    if chords.len() > 0 {
        let layer = reversed(chords[0].voicing_seq(config));
        let ids = node_range(vs.len(), layer.len());
        let vs2 = vs + layer;
        lemma_has_edge_grows(edges, pair_edges(vs2, prev, ids), a, b);
        lemma_grow_keeps_edges(vs2, edges + pair_edges(vs2, prev, ids), ids, chords.drop_first(), config, a, b);
    }
}

/// A chain of voicings, one of each chord, each within `MAX_DIST` semitones
/// of the one before (and of the voicing of node `c`, unless that is the
/// start node), runs through the graph from node `c` along new nodes with
/// increasing numbers to a node of the last chord.
proof fn lemma_chain_grows(
    vs: Seq<Voicing>,
    edges: Seq<Edge>,
    prev: Seq<usize>,
    chords: Seq<Chord>,
    config: VoicingConfig,
    c: usize,
    chain: Seq<Voicing>,
) -> (r: Seq<usize>)
    requires
        prev.contains(c),
        c < vs.len(),
        chain.len() == chords.len(),
        forall|k: int| 0 <= k < chords.len() ==> chords[k].voicing_seq(config).contains(#[trigger] chain[k]),
        chords.len() > 0 ==> c == 0 || vs[c as int].semitone_dist(chain[0]) <= MAX_DIST,
        forall|k: int| 0 <= k < chain.len() - 1 ==> (#[trigger] chain[k]).semitone_dist(chain[k + 1]) <= MAX_DIST,
        grow(vs, edges, prev, chords, config).0.len() <= u32::MAX,
    ensures
        r.len() == chords.len() + 1,
        r[0] == c,
        grow(vs, edges, prev, chords, config).2.contains(r.last()),
        forall|k: int| 0 <= k < chords.len() ==> has_edge(grow(vs, edges, prev, chords, config).1, #[trigger] r[k], r[k + 1]),
        forall|k: int| 0 <= k < chords.len() ==> grow(vs, edges, prev, chords, config).0[#[trigger] r[k + 1] as int] == chain[k],
        forall|k: int, l: int| 0 <= k < l < r.len() ==> #[trigger] r[k] < #[trigger] r[l],
        forall|k: int| 0 < k < r.len() ==> vs.len() <= #[trigger] r[k] < grow(vs, edges, prev, chords, config).0.len(),
    decreases chords.len(),
{
    if chords.len() == 0 {
        seq![c]
    } else {
        let cur = chords[0].voicing_seq(config);
        let layer = reversed(cur);
        let ids = node_range(vs.len(), layer.len());
        let vs2 = vs + layer;
        let edges2 = edges + pair_edges(vs2, prev, ids);
        let idx = choose|idx: int| 0 <= idx < cur.len() && cur[idx] == chain[0];
        let t = cur.len() - 1 - idx;
        let c2 = (vs.len() + t) as usize;
        lemma_grow_len(vs2, edges2, ids, chords.drop_first(), config);
        assert(ids[t] == c2);
        assert(vs2[c2 as int] == layer[t]);
        assert(layer[t] == chain[0]);
        assert(vs2[c as int] == vs[c as int]);
        let a = choose|a: int| 0 <= a < prev.len() && prev[a] == c;
        lemma_pair_edges_has(vs2, prev, ids, a, t);
        lemma_has_edge_grows(edges, pair_edges(vs2, prev, ids), c, c2);
        let rest = chords.drop_first();
        let chain2 = chain.drop_first();
        assert forall|k: int| 0 <= k < rest.len() implies rest[k].voicing_seq(config).contains(#[trigger] chain2[k]) by {
            assert(rest[k] == chords[k + 1] && chain2[k] == chain[k + 1]);
        }
        assert forall|k: int| 0 <= k < chain2.len() - 1 implies (#[trigger] chain2[k]).semitone_dist(chain2[k + 1])
            <= MAX_DIST by {
            assert(chain2[k] == chain[k + 1] && chain2[k + 1] == chain[k + 2]);
        }
        if rest.len() > 0 {
            assert(chain2[0] == chain[1]);
        }
        assert(ids.contains(c2));
        let r2 = lemma_chain_grows(vs2, edges2, ids, rest, config, c2, chain2);
        lemma_grow_keeps_edges(vs2, edges2, ids, rest, config, c, c2);
        lemma_grow_keeps_prefix(vs2, edges2, ids, rest, config);
        let g = grow(vs2, edges2, ids, rest, config);
        assert(grow(vs, edges, prev, chords, config) == g);
        assert(g.0.take(vs2.len() as int)[c2 as int] == vs2[c2 as int]);
        let r = seq![c] + r2;
        assert forall|k: int| 0 <= k < chords.len() implies has_edge(g.1, #[trigger] r[k], r[k + 1]) by {
            if k > 0 {
                assert(r[k] == r2[k - 1] && r[k + 1] == r2[k]);
            }
        }
        assert forall|k: int| 0 <= k < chords.len() implies g.0[#[trigger] r[k + 1] as int] == chain[k] by {
            if k > 0 {
                assert(r[k + 1] == r2[k]);
                assert(chain2[k - 1] == chain[k]);
            }
        }
        assert forall|k: int, l: int| 0 <= k < l < r.len() implies #[trigger] r[k] < #[trigger] r[l] by {
            if k > 0 {
                assert(r[k] == r2[k - 1] && r[l] == r2[l - 1]);
            } else {
                assert(r[l] == r2[l - 1]);
                if l > 1 {
                    assert(r2[0] < r2[l - 1]);
                }
            }
        }
        assert forall|k: int| 0 < k < r.len() implies vs.len() <= #[trigger] r[k] < g.0.len() by {
            assert(r[k] == r2[k - 1]);
        }
        assert(r.last() == r2.last());
        r
    }
}

/// Every path from the start node to the end node of a graph to which a
/// chord sequence was added, right after the graph was made, goes through
/// one voicing of each chord, in the order of the chords (before pruning).
proof fn lemma_paths_follow_chords(init: Seq<Voicing>, chords: Seq<Chord>, config: VoicingConfig, p: Seq<usize>)
    requires
        init.len() == 2,
        grow(init, Seq::empty(), seq![0usize], chords, config).0.len() <= u32::MAX,
        is_simple_path(
            grow(init, Seq::empty(), seq![0usize], chords, config).0.len(),
            grow(init, Seq::empty(), seq![0usize], chords, config).1 + end_edges(
                grow(init, Seq::empty(), seq![0usize], chords, config).2,
            ),
            0,
            1,
            p,
        ),
    ensures
        voicing_path(grow(init, Seq::empty(), seq![0usize], chords, config).0, p).len() == chords.len(),
        forall|k: int|
            0 <= k < chords.len() ==> chords[k].voicing_seq(config).contains(
                #[trigger] voicing_path(grow(init, Seq::empty(), seq![0usize], chords, config).0, p)[k],
            ),
{
    let t = grow(init, Seq::empty(), seq![0usize], chords, config);
    let lay0 = seq![0int, -1int];
    assert(layered(init, Seq::empty(), seq![0usize], lay0, 0, chords, config));
    assert(chords.skip(0) =~= chords);
    let lay = lemma_grow_layers(init, Seq::empty(), seq![0usize], lay0, 0, chords, config);
    let all = t.1 + end_edges(t.2);
    let n = chords.len() as int;
    if p.len() >= 2 {
        lemma_path_layers(t.0, t.1, t.2, lay, n, chords, config, p, p.len() - 2);
    }
    let m = p.len() - 2;
    assert(has_edge(all, p[m], p[m + 1]));
    let e = choose|e: int| 0 <= e < all.len() && (#[trigger] all[e]).0 == p[m] && all[e].1 == p[m + 1];
    if e < t.1.len() {
        assert(all[e] == t.1[e]);
        assert(false);
    }
    assert(all[e] == end_edges(t.2)[e - t.1.len()]);
    let j = e - t.1.len();
    assert(lay[t.2[j] as int] == n);
    assert(m == n);
    let vp = voicing_path(t.0, p);
    assert forall|i: int| 0 <= i < n implies chords[i].voicing_seq(config).contains(#[trigger] vp[i]) by {
        assert(vp[i] == t.0[p[i + 1] as int]);
        assert(lay[p[i + 1] as int] == i + 1);
        assert(p[i + 1] != 0);
        if p[i + 1] == 1 {
            assert(p[i + 1] != p[p.len() - 1]);
        }
    }
}

/// Finger positions lie on strings 0 to `k` and on frets that the strings use
/// (or fret 0).
proof fn lemma_positions_bound(frets: Seq<u8>, fingers: Seq<u8>, k: nat, m: u8)
    requires
        k <= frets.len(),
        forall|i: int| 0 <= i < frets.len() ==> #[trigger] frets[i] <= m,
    ensures
        positions_of(frets, fingers, k).len() == 4,
        forall|j: int|
            0 <= j < 4 ==> (#[trigger] positions_of(frets, fingers, k)[j]).0 <= k && positions_of(
                frets,
                fingers,
                k,
            )[j].1 <= m,
    decreases k,
{
    if k > 0 {
        lemma_positions_bound(frets, fingers, (k - 1) as nat, m);
    }
}

/// Moving four fingers placed on strings 0 to 4 and frets up to `m` costs at
/// most `4 * (4 + m)`.
proof fn lemma_positions_dist_bound(a: Seq<crate::FingerPosition>, b: Seq<crate::FingerPosition>, m: u8)
    requires
        a.len() == 4,
        b.len() == 4,
        forall|j: int| 0 <= j < 4 ==> (#[trigger] a[j]).0 <= 4 && a[j].1 <= m,
        forall|j: int| 0 <= j < 4 ==> (#[trigger] b[j]).0 <= 4 && b[j].1 <= m,
    ensures
        crate::fingering::positions_dist(a, b) <= 4 * (4 + m),
{
    assert(a[0].0 <= 4 && a[1].0 <= 4 && a[2].0 <= 4 && a[3].0 <= 4);
    assert(b[0].0 <= 4 && b[1].0 <= 4 && b[2].0 <= 4 && b[3].0 <= 4);
    assert(a[0].1 <= m && a[1].1 <= m && a[2].1 <= m && a[3].1 <= m);
    assert(b[0].1 <= m && b[1].1 <= m && b[2].1 <= m && b[3].1 <= m);
}

/// The fingering distance between voicings at frets up to 50 fits in a byte.
proof fn lemma_fingering_fits(v: Voicing, w: Voicing)
    requires
        forall|i: int| 0 <= i < 4 ==> #[trigger] v.fret(i) <= 50,
        forall|i: int| 0 <= i < 4 ==> #[trigger] w.fret(i) <= 50,
    ensures
        v.fingering_dist(w) <= u8::MAX,
{
    crate::voicing::lemma_voicing_len(v);
    crate::voicing::lemma_voicing_len(w);
    let fv = v.fret_seq();
    let fw = w.fret_seq();
    assert forall|i: int| 0 <= i < fv.len() implies #[trigger] fv[i] <= 50 by {
        assert(fv[i] == v.fret(i));
    }
    assert forall|i: int| 0 <= i < fw.len() implies #[trigger] fw[i] <= 50 by {
        assert(fw[i] == w.fret(i));
    }
    lemma_positions_bound(fv, v.finger_seq(), 4, 50);
    lemma_positions_bound(fw, w.finger_seq(), 4, 50);
    lemma_positions_dist_bound(
        positions_of(fv, v.finger_seq(), 4),
        positions_of(fw, w.finger_seq(), 4),
        50,
    );
}

/// Two voicings with no fret above 50 can be compared: their semitone and
/// fingering distances fit in a byte, so `Voicing::distance` takes them.
pub proof fn law_distance_fits(v: Voicing, w: Voicing)
    requires
        forall|i: int| 0 <= i < 4 ==> #[trigger] v.fret(i) <= 50,
        forall|i: int| 0 <= i < 4 ==> #[trigger] w.fret(i) <= 50,
    ensures
        distance_fits(v, w),
{
    assert(v.fret(0) <= 50 && v.fret(1) <= 50 && v.fret(2) <= 50 && v.fret(3) <= 50);
    assert(w.fret(0) <= 50 && w.fret(1) <= 50 && w.fret(2) <= 50 && w.fret(3) <= 50);
    lemma_fingering_fits(v, w);
}

/// When the configuration allows no fret above 50, the distances between the
/// voicings of consecutive chords of any chord sequence fit in a byte, so
/// `add` takes every chord sequence on that count.
pub proof fn law_low_frets_fit(config: VoicingConfig, chords: Seq<Chord>)
    requires
        config.max_fret <= 50,
    ensures
        distances_fit(config, chords),
{
    assert forall|i: int, a: int, b: int|
        0 <= i < chords.len() - 1 && 0 <= a < chords[i].voicing_seq(config).len() && 0 <= b
            < chords[i + 1].voicing_seq(config).len() implies distance_fits(
        #[trigger] chords[i].voicing_seq(config)[a],
        #[trigger] chords[i + 1].voicing_seq(config)[b],
    ) by {
        law_voicings_fit(chords[i], config, a);
        law_voicings_fit(chords[i + 1], config, b);
        law_distance_fits(chords[i].voicing_seq(config)[a], chords[i + 1].voicing_seq(config)[b]);
    }
}

/// There is an edge leaving node `k`.
pub open spec fn has_out_edge(es: Set<Edge>, k: usize) -> bool {
    exists|e: Edge| es.contains(e) && e.0 == k
}

/// The edges once node `a` is removed and the last node `last` takes over
/// its number.
pub open spec fn edges_without(es: Set<Edge>, a: usize, last: usize) -> Set<Edge> {
    Set::new(|x: Edge| exists|e: Edge| es.contains(e) && kept_edge(e, a) && x == renamed_edge(e, a, last))
}

/// Removing, from node `i - 1` down to node 0, every node that no edge
/// leaves, except the end node (node 1): the node weights and the set of
/// edges that stay.
pub open spec fn prune(ws: Seq<usize>, es: Set<Edge>, i: nat) -> (Seq<usize>, Set<Edge>)
    decreases i,
{
    if i == 0 {
        (ws, es)
    } else {
        let k = (i - 1) as usize;
        if has_out_edge(es, k) || k == 1 {
            prune(ws, es, (i - 1) as nat)
        } else {
            prune(
                ws.update(k as int, ws.last()).drop_last(),
                edges_without(es, k, (ws.len() - 1) as usize),
                (i - 1) as nat,
            )
        }
    }
}

/// The voicing of each node, by the node's weight.
pub open spec fn voicings_by_weight(vs: Seq<Voicing>, ws: Seq<usize>) -> Seq<Voicing> {
    Seq::new(ws.len(), |n: int| vs[ws[n] as int])
}

/// The weights are distinct.
pub open spec fn distinct_weights(ws: Seq<usize>) -> bool {
    forall|j: int, k: int| 0 <= j < ws.len() && 0 <= k < ws.len() && j != k ==> ws[j] != ws[k]
}

/// While pruning: the weights are distinct numbers of the unpruned nodes,
/// the first `i` nodes are still the unpruned ones, and every edge that
/// stays stands for an edge of the unpruned graph between the nodes its
/// weights name.
pub open spec fn pruned_from(ws: Seq<usize>, es: Set<Edge>, i: nat, n0: nat, e0: Seq<Edge>) -> bool {
    &&& i <= ws.len() <= n0
    &&& n0 <= u32::MAX
    &&& distinct_weights(ws)
    &&& forall|k: int| 0 <= k < ws.len() ==> (#[trigger] ws[k]) < n0
    &&& forall|k: int| 0 <= k < i ==> (#[trigger] ws[k]) == k
    &&& forall|x: Edge|
        es.contains(x) ==> x.0 < ws.len() && x.1 < ws.len() && e0.contains(
            (ws[x.0 as int], ws[x.1 as int], x.2),
        )
}

/// Removing node `i - 1` when no edge leaves it keeps the relation to the
/// unpruned graph.
proof fn lemma_prune_step(ws: Seq<usize>, es: Set<Edge>, i: nat, n0: nat, e0: Seq<Edge>)
    requires
        pruned_from(ws, es, i, n0, e0),
        i > 0,
    ensures
        pruned_from(
            ws.update((i - 1) as int, ws.last()).drop_last(),
            edges_without(es, (i - 1) as usize, (ws.len() - 1) as usize),
            (i - 1) as nat,
            n0,
            e0,
        ),
{
    let k = (i - 1) as usize;
    let last = (ws.len() - 1) as usize;
    let ws2 = ws.update(k as int, ws.last()).drop_last();
    let es2 = edges_without(es, k, last);
    lemma_renamed_nodes(ws, k);
    assert forall|x: Edge| es2.contains(x) implies x.0 < ws2.len() && x.1 < ws2.len() && e0.contains(
        (ws2[x.0 as int], ws2[x.1 as int], x.2),
    ) by {
        let e = choose|e: Edge| es.contains(e) && kept_edge(e, k) && x == renamed_edge(e, k, last);
        assert(ws2[renamed(e.0, k, last) as int] == ws[e.0 as int]);
        assert(ws2[renamed(e.1, k, last) as int] == ws[e.1 as int]);
    }
    assert forall|j: int| 0 <= j < (i - 1) implies (#[trigger] ws2[j]) == j by {
        assert(ws2[j] == ws[j]);
    }
}

/// There is an edge from `a` to `b` in the set.
pub open spec fn set_has_edge(es: Set<Edge>, a: usize, b: usize) -> bool {
    exists|x: Edge| es.contains(x) && x.0 == a && x.1 == b
}

/// A route through the graph, from node 0 to node 1 with no node twice,
/// survives pruning: every node on it but the last has an edge leaving it,
/// so none is removed, and the route keeps its edges under the new numbers.
proof fn lemma_route_survives(ws: Seq<usize>, es: Set<Edge>, i: nat, n0: nat, e0: Seq<Edge>, r: Seq<usize>) -> (r2: Seq<usize>)
    requires
        pruned_from(ws, es, i, n0, e0),
        r.len() >= 2,
        r[0] == 0,
        r.last() == 1,
        forall|j: int| 0 <= j < r.len() ==> (#[trigger] r[j]) < ws.len(),
        forall|j: int, l: int| 0 <= j < l < r.len() ==> #[trigger] r[j] != #[trigger] r[l],
        forall|j: int| 0 <= j < r.len() - 1 ==> set_has_edge(es, #[trigger] r[j], r[j + 1]),
    ensures
        r2.len() == r.len(),
        r2[0] == 0,
        r2.last() == 1,
        forall|j: int| 0 <= j < r2.len() ==> (#[trigger] r2[j]) < prune(ws, es, i).0.len() && prune(ws, es, i).0[r2[j] as int] == ws[r[j] as int],
        forall|j: int, l: int| 0 <= j < l < r2.len() ==> #[trigger] r2[j] != #[trigger] r2[l],
        forall|j: int| 0 <= j < r2.len() - 1 ==> set_has_edge(prune(ws, es, i).1, #[trigger] r2[j], r2[j + 1]),
    decreases i,
{
    if i == 0 {
        r
    } else {
        let k = (i - 1) as usize;
        let last = (ws.len() - 1) as usize;
        if has_out_edge(es, k) || k == 1 {
            lemma_route_survives(ws, es, (i - 1) as nat, n0, e0, r)
        } else {
            let ws2 = ws.update(k as int, ws.last()).drop_last();
            let es2 = edges_without(es, k, last);
            // No node of the route is removed.
            assert forall|j: int| 0 <= j < r.len() implies #[trigger] r[j] != k by {
                if j < r.len() - 1 {
                    let x = choose|x: Edge| es.contains(x) && x.0 == r[j] && x.1 == r[j + 1];
                }
            }
            assert(last != 1) by {
                if last == 1 {
                    assert(r[0] != k && r[r.len() - 1] != k);
                    assert(r[0] != r[r.len() - 1]);
                }
            }
            assert(last != 0) by {
                assert(r[r.len() - 1] < ws.len());
            }
            lemma_renamed_nodes(ws, k);
            lemma_prune_step(ws, es, i, n0, e0);
            let rn = r.map_values(|x: usize| renamed(x, k, last));
            assert forall|j: int| 0 <= j < rn.len() implies (#[trigger] rn[j]) < ws2.len() && ws2[rn[j] as int] == ws[r[j] as int] by {
                assert(r[j] != k);
            }
            assert forall|j: int, l: int| 0 <= j < l < rn.len() implies #[trigger] rn[j] != #[trigger] rn[l] by {
                assert(r[j] != k && r[l] != k && r[j] != r[l]);
            }
            assert forall|j: int| 0 <= j < rn.len() - 1 implies set_has_edge(es2, #[trigger] rn[j], rn[j + 1]) by {
                let x = choose|x: Edge| es.contains(x) && x.0 == r[j] && x.1 == r[j + 1];
                assert(r[j] != k && r[j + 1] != k);
                assert(kept_edge(x, k));
                assert(es2.contains(renamed_edge(x, k, last)));
            }
            assert(rn[0] == 0);
            assert(rn.last() == renamed(1, k, last));
            let r2 = lemma_route_survives(ws2, es2, (i - 1) as nat, n0, e0, rn);
            assert(prune(ws, es, i) == prune(ws2, es2, (i - 1) as nat));
            r2
        }
    }
}

/// Pruning keeps the relation to the unpruned graph; and when the start
/// node (node 0) survives, so does the end node, under its own number.
proof fn lemma_prune(ws: Seq<usize>, es: Set<Edge>, i: nat, n0: nat, e0: Seq<Edge>)
    requires
        pruned_from(ws, es, i, n0, e0),
    ensures
        pruned_from(prune(ws, es, i).0, prune(ws, es, i).1, 0, n0, e0),
        i >= 2 && prune(ws, es, i).0.len() >= 1 && prune(ws, es, i).0[0] == 0 ==> prune(ws, es, i).0.len() >= 2
            && prune(ws, es, i).0[1] == 1,
    decreases i,
{
    if i > 0 {
        let k = (i - 1) as usize;
        let last = (ws.len() - 1) as usize;
        let ws2 = ws.update(k as int, ws.last()).drop_last();
        let es2 = edges_without(es, k, last);
        if !(has_out_edge(es, k) || k == 1) {
            assert forall|j: int, l: int| 0 <= j < ws2.len() && 0 <= l < ws2.len() && j != l implies ws2[j]
                != ws2[l] by {
                assert(ws.last() == ws[last as int]);
                assert(ws2[j] == ws.update(k as int, ws.last())[j]);
                assert(ws2[l] == ws.update(k as int, ws.last())[l]);
                if j == k {
                    assert(ws2[j] == ws[last as int]);
                    assert(ws2[l] == ws[l]);
                } else if l == k {
                    assert(ws2[l] == ws[last as int]);
                    assert(ws2[j] == ws[j]);
                } else {
                    assert(ws2[j] == ws[j] && ws2[l] == ws[l]);
                }
            }
            lemma_renamed_nodes(ws, k);
            assert forall|x: Edge| es2.contains(x) implies x.0 < ws2.len() && x.1 < ws2.len() && e0.contains(
                (ws2[x.0 as int], ws2[x.1 as int], x.2),
            ) by {
                let e = choose|e: Edge| es.contains(e) && kept_edge(e, k) && x == renamed_edge(e, k, last);
                assert(ws2[renamed(e.0, k, last) as int] == ws[e.0 as int]);
                assert(ws2[renamed(e.1, k, last) as int] == ws[e.1 as int]);
            }
            assert(pruned_from(ws2, es2, (i - 1) as nat, n0, e0));
            lemma_prune(ws2, es2, (i - 1) as nat, n0, e0);
        } else {
            lemma_prune(ws, es, (i - 1) as nat, n0, e0);
        }
        if i == 2 {
            // Node 1 is kept; then node 0 is either kept, or replaced by the
            // last node, whose weight is not 0.
            let ws3 = ws.update(0, ws.last()).drop_last();
            let es3 = edges_without(es, 0, last);
            assert(prune(ws, es, 1) == if has_out_edge(es, 0) {
                prune(ws, es, 0)
            } else {
                prune(ws3, es3, 0)
            });
            if !has_out_edge(es, 0) && ws3.len() >= 1 {
                assert(ws3[0] == ws[last as int]);
                assert(ws[0] == 0);
            }
        }
    }
}

/// The graph made for a chord sequence, before pruning: voicings of the
/// nodes, edges (without those to the end node) and the nodes of the last
/// chord, starting from the start node and the end node with voicings `init`.
pub open spec fn fresh_grown(init: Seq<Voicing>, chords: Seq<Chord>, config: VoicingConfig) -> (
    Seq<Voicing>,
    Seq<Edge>,
    Seq<usize>,
) {
    grow(init, Seq::empty(), seq![0usize], chords, config)
}

/// The node weights and edges of the graph made for a chord sequence, once pruned.
pub open spec fn fresh_pruned(init: Seq<Voicing>, chords: Seq<Chord>, config: VoicingConfig) -> (Seq<usize>, Set<Edge>) {
    let g = fresh_grown(init, chords, config);
    prune(node_range(0, g.0.len()), (g.1 + end_edges(g.2)).to_set(), g.0.len())
}

/// Adding chords keeps the voicings of the nodes there were.
pub proof fn lemma_grow_keeps_prefix(
    vs: Seq<Voicing>,
    edges: Seq<Edge>,
    prev: Seq<usize>,
    chords: Seq<Chord>,
    config: VoicingConfig,
)
    ensures
        grow(vs, edges, prev, chords, config).0.len() >= vs.len(),
        grow(vs, edges, prev, chords, config).0.take(vs.len() as int) == vs,
    decreases chords.len(),
{
    if chords.len() > 0 {
        let layer = reversed(chords[0].voicing_seq(config));
        let ids = node_range(vs.len(), layer.len());
        let vs2 = vs + layer;
        lemma_grow_keeps_prefix(vs2, edges + pair_edges(vs2, prev, ids), ids, chords.drop_first(), config);
        let r = grow(vs2, edges + pair_edges(vs2, prev, ids), ids, chords.drop_first(), config).0;
        assert(r.take(vs.len() as int) =~= r.take(vs2.len() as int).take(vs.len() as int));
        assert(vs2.take(vs.len() as int) =~= vs);
    } else {
        assert(vs.take(vs.len() as int) =~= vs);
    }
}

/// Every voice leading through a graph to which a chord sequence was added,
/// right after the graph was made, plays one voicing of each chord, in the
/// order of the chords: every path from the start node to the end node goes
/// through such voicings. This holds when the start node kept its number
/// through pruning, as it does whenever some path leads from it to the end
/// node.
pub proof fn law_paths_follow_chords(g: VoicingGraph, init: Seq<Voicing>, chords: Seq<Chord>, p: Seq<usize>)
    requires
        init.len() == 2,
        fresh_grown(init, chords, g.config()).0.len() <= u32::MAX,
        g.voicing_list() == fresh_grown(init, chords, g.config()).0,
        g.node_list() == fresh_pruned(init, chords, g.config()).0,
        g.edge_list().to_set() == fresh_pruned(init, chords, g.config()).1,
        g.node_list().len() >= 1,
        g.node_list()[0] == 0,
        is_simple_path(g.node_list().len(), g.edge_list(), 0, 1, p),
    ensures
        voicing_path(g.node_voicings(), p).len() == chords.len(),
        forall|k: int|
            0 <= k < chords.len() ==> chords[k].voicing_seq(g.config()).contains(
                #[trigger] voicing_path(g.node_voicings(), p)[k],
            ),
{
    let config = g.config();
    let t = fresh_grown(init, chords, config);
    let n0 = t.0.len();
    let pre_w = node_range(0, n0);
    let e0 = t.1 + end_edges(t.2);
    let fin = fresh_pruned(init, chords, config);
    // The graph before pruning is in layers; its edges connect its nodes.
    let lay0 = seq![0int, -1int];
    assert(layered(init, Seq::empty(), seq![0usize], lay0, 0, chords, config));
    assert(chords.skip(0) =~= chords);
    let lay = lemma_grow_layers(init, Seq::empty(), seq![0usize], lay0, 0, chords, config);
    assert forall|x: Edge| e0.to_set().contains(x) implies x.0 < pre_w.len() && x.1 < pre_w.len() && e0.contains(
        (pre_w[x.0 as int], pre_w[x.1 as int], x.2),
    ) by {
        let e = choose|e: int| 0 <= e < e0.len() && e0[e] == x;
        if e < t.1.len() {
            assert(e0[e] == t.1[e]);
        } else {
            assert(e0[e] == end_edges(t.2)[e - t.1.len()]);
        }
        assert(pre_w[x.0 as int] == x.0);
        assert(pre_w[x.1 as int] == x.1);
    }
    assert(pruned_from(pre_w, e0.to_set(), n0, n0, e0));
    lemma_prune(pre_w, e0.to_set(), n0, n0, e0);
    let ws = fin.0;
    // The path through the pruned graph stands for a path through the
    // graph before pruning.
    let q = p.map_values(|x: usize| ws[x as int]);
    assert forall|k: int| 0 <= k < q.len() - 1 implies has_edge(e0, #[trigger] q[k], q[k + 1]) by {
        assert(has_edge(g.edge_list(), p[k], p[k + 1]));
        let e = choose|e: int|
            0 <= e < g.edge_list().len() && (#[trigger] g.edge_list()[e]).0 == p[k] && g.edge_list()[e].1 == p[k + 1];
        let x = g.edge_list()[e];
        assert(g.edge_list().to_set().contains(x));
        assert(e0.contains((ws[x.0 as int], ws[x.1 as int], x.2)));
        let f = choose|f: int| 0 <= f < e0.len() && e0[f] == (ws[x.0 as int], ws[x.1 as int], x.2);
        assert(e0[f].0 == q[k] && e0[f].1 == q[k + 1]);
    }
    assert(q[q.len() - 1] == ws[p.last() as int]);
    assert(is_simple_path(n0, e0, 0, 1, q));
    lemma_paths_follow_chords(init, chords, config, q);
    let vp = voicing_path(g.node_voicings(), p);
    assert forall|k: int| 0 <= k < chords.len() implies chords[k].voicing_seq(config).contains(#[trigger] vp[k]) by {
        assert(vp[k] == g.node_voicings()[p[k + 1] as int]);
        assert(g.node_voicings()[p[k + 1] as int] == t.0[ws[p[k + 1] as int] as int]);
        assert(voicing_path(t.0, q)[k] == t.0[q[k + 1] as int]);
    }
}

/// The graph made for a chord sequence, before pruning, is related to itself
/// as the unpruned graph.
proof fn lemma_fresh_unpruned(init: Seq<Voicing>, chords: Seq<Chord>, config: VoicingConfig)
    requires
        init.len() == 2,
        fresh_grown(init, chords, config).0.len() <= u32::MAX,
    ensures
        ({
            let t = fresh_grown(init, chords, config);
            pruned_from(node_range(0, t.0.len()), (t.1 + end_edges(t.2)).to_set(), t.0.len(), t.0.len(), t.1 + end_edges(t.2))
        }),
{
    let t = fresh_grown(init, chords, config);
    let n0 = t.0.len();
    let pre_w = node_range(0, n0);
    let e0 = t.1 + end_edges(t.2);
    let lay0 = seq![0int, -1int];
    assert(layered(init, Seq::empty(), seq![0usize], lay0, 0, chords, config));
    assert(chords.skip(0) =~= chords);
    let lay = lemma_grow_layers(init, Seq::empty(), seq![0usize], lay0, 0, chords, config);
    assert forall|x: Edge| e0.to_set().contains(x) implies x.0 < pre_w.len() && x.1 < pre_w.len() && e0.contains(
        (pre_w[x.0 as int], pre_w[x.1 as int], x.2),
    ) by {
        let e = choose|e: int| 0 <= e < e0.len() && e0[e] == x;
        if e < t.1.len() {
            assert(e0[e] == t.1[e]);
        } else {
            assert(e0[e] == end_edges(t.2)[e - t.1.len()]);
        }
        assert(pre_w[x.0 as int] == x.0);
        assert(pre_w[x.1 as int] == x.1);
    }
}

/// A chain of voicings within `MAX_DIST` semitones from step to step is a
/// route from the start node to the end node of the graph before pruning.
proof fn lemma_chain_route(init: Seq<Voicing>, chords: Seq<Chord>, config: VoicingConfig, chain: Seq<Voicing>) -> (q: Seq<usize>)
    requires
        init.len() == 2,
        fresh_grown(init, chords, config).0.len() <= u32::MAX,
        chain.len() == chords.len(),
        forall|k: int| 0 <= k < chords.len() ==> chords[k].voicing_seq(config).contains(#[trigger] chain[k]),
        forall|k: int| 0 <= k < chain.len() - 1 ==> (#[trigger] chain[k]).semitone_dist(chain[k + 1]) <= MAX_DIST,
    ensures
        ({
            let t = fresh_grown(init, chords, config);
            let e0 = t.1 + end_edges(t.2);
            &&& q.len() == chords.len() + 2
            &&& q[0] == 0
            &&& q.last() == 1
            &&& forall|j: int| 0 <= j < q.len() ==> (#[trigger] q[j]) < t.0.len()
            &&& forall|j: int, l: int| 0 <= j < l < q.len() ==> #[trigger] q[j] != #[trigger] q[l]
            &&& forall|j: int| 0 <= j < q.len() - 1 ==> set_has_edge(e0.to_set(), #[trigger] q[j], q[j + 1])
            &&& forall|k: int| 0 <= k < chords.len() ==> t.0[#[trigger] q[k + 1] as int] == chain[k]
        }),
{
    let t = fresh_grown(init, chords, config);
    let e0 = t.1 + end_edges(t.2);
    lemma_grow_len(init, Seq::empty(), seq![0usize], chords, config);
    assert(seq![0usize].contains(0usize)) by {
        assert(seq![0usize][0] == 0usize);
    }
    let r = lemma_chain_grows(init, Seq::empty(), seq![0usize], chords, config, 0, chain);
    let q = r.push(1usize);
    assert forall|j: int| 0 <= j < q.len() - 1 implies set_has_edge(e0.to_set(), #[trigger] q[j], q[j + 1]) by {
        if j < r.len() - 1 {
            assert(q[j] == r[j] && q[j + 1] == r[j + 1]);
            lemma_has_edge_grows(t.1, end_edges(t.2), r[j], r[j + 1]);
        } else {
            assert(q[j] == r.last() && q[j + 1] == 1);
            let m = choose|m: int| 0 <= m < t.2.len() && t.2[m] == r.last();
            assert(end_edges(t.2)[m] == (r.last(), 1usize, (0u8, 0u8)));
            assert(has_edge(end_edges(t.2), r.last(), 1));
            lemma_has_edge_grows(t.1, end_edges(t.2), r.last(), 1);
        }
        assert(has_edge(e0, q[j], q[j + 1]));
        let e = choose|e: int| 0 <= e < e0.len() && (#[trigger] e0[e]).0 == q[j] && e0[e].1 == q[j + 1];
        assert(e0.to_set().contains(e0[e]));
    }
    assert forall|j: int| 0 <= j < q.len() implies (#[trigger] q[j]) < t.0.len() by {
        if j < r.len() {
            assert(q[j] == r[j]);
        }
    }
    assert forall|j: int, l: int| 0 <= j < l < q.len() implies #[trigger] q[j] != #[trigger] q[l] by {
        if l < r.len() {
            assert(q[j] == r[j] && q[l] == r[l]);
        } else {
            assert(q[j] == r[j]);
        }
    }
    assert forall|k: int| 0 <= k < chords.len() implies t.0[#[trigger] q[k + 1] as int] == chain[k] by {
        assert(q[k + 1] == r[k + 1]);
    }
    q
}

/// Every chain of voicings, one of each chord in the order of the chords,
/// each within `MAX_DIST` semitones of the one before, is a voice leading
/// through a graph to which the chord sequence was added, right after the
/// graph was made: some simple path from the start node to the end node goes
/// through exactly these voicings. So the first suggestion of `paths`, which
/// is no heavier than any simple path, is no heavier than any such chain.
#[verifier::rlimit(50)]
#[verifier::spinoff_prover]
pub proof fn law_chains_are_paths(g: VoicingGraph, init: Seq<Voicing>, chords: Seq<Chord>, chain: Seq<Voicing>)
    requires
        init.len() == 2,
        fresh_grown(init, chords, g.config()).0.len() <= u32::MAX,
        g.voicing_list() == fresh_grown(init, chords, g.config()).0,
        g.node_list() == fresh_pruned(init, chords, g.config()).0,
        g.edge_list().to_set() == fresh_pruned(init, chords, g.config()).1,
        chain.len() == chords.len(),
        forall|k: int| 0 <= k < chords.len() ==> chords[k].voicing_seq(g.config()).contains(#[trigger] chain[k]),
        forall|k: int| 0 <= k < chain.len() - 1 ==> (#[trigger] chain[k]).semitone_dist(chain[k + 1]) <= MAX_DIST,
    ensures
        exists|p: Seq<usize>|
            is_simple_path(g.node_list().len(), g.edge_list(), 0, 1, p) && voicing_path(g.node_voicings(), p)
                == chain,
{
    let config = g.config();
    let t = fresh_grown(init, chords, config);
    let n0 = t.0.len();
    let pre_w = node_range(0, n0);
    let e0 = t.1 + end_edges(t.2);
    let fin = fresh_pruned(init, chords, config);
    let q = lemma_chain_route(init, chords, config, chain);
    lemma_fresh_unpruned(init, chords, config);
    let r2 = lemma_route_survives(pre_w, e0.to_set(), n0, n0, e0, q);
    assert forall|j: int| 0 <= j < r2.len() - 1 implies has_edge(g.edge_list(), #[trigger] r2[j], r2[j + 1]) by {
        let x = choose|x: Edge| fin.1.contains(x) && x.0 == r2[j] && x.1 == r2[j + 1];
        assert(g.edge_list().to_set().contains(x));
        let e = choose|e: int| 0 <= e < g.edge_list().len() && g.edge_list()[e] == x;
    }
    assert(is_simple_path(g.node_list().len(), g.edge_list(), 0, 1, r2));
    let vp = voicing_path(g.node_voicings(), r2);
    assert forall|k: int| 0 <= k < chain.len() implies #[trigger] vp[k] == chain[k] by {
        assert(vp[k] == g.node_voicings()[r2[k + 1] as int]);
        assert(g.node_list()[r2[k + 1] as int] == pre_w[q[k + 1] as int]);
    }
    assert(vp =~= chain);
}

/// A graph of voicings to find the optimal voice leading.
///
/// The nodes of the graph represent chord voicings and its edges are
/// weighted by the distances between the voicings. It is used to find the
/// (by some definition) optimal voice leading for a given sequence of chords.
pub struct VoicingGraph {
    graph: WeightGraph,
    voicings: Vec<Voicing>,
    start_node: usize,
    end_node: usize,
    config: VoicingConfig,
}

/// Some edge leaves node `a` exactly when the edges leaving it are not none.
proof fn lemma_out_degree(edges: Seq<Edge>, a: usize)
    ensures
        (edges.filter(|e: Edge| e.0 == a).len() > 0) == has_out_edge(edges.to_set(), a),
{
    let f = |e: Edge| e.0 == a;
    if edges.filter(f).len() > 0 {
        edges.lemma_filter_pred(f, 0);
        let x = edges.filter(f)[0];
        edges.lemma_filter_contains_rev(f, x);
        assert(edges.to_set().contains(x));
    }
    if has_out_edge(edges.to_set(), a) {
        let x = choose|x: Edge| edges.to_set().contains(x) && x.0 == a;
        let e = choose|e: int| 0 <= e < edges.len() && edges[e] == x;
        edges.lemma_filter_contains(f, e);
        assert(edges.filter(f).contains(x));
    }
}

/// The number of each node stays in range, and the weights stay distinct,
/// once node `k` is removed; an edge that stays between two renumbered nodes
/// had the same weight as before.
proof fn lemma_renamed_nodes(ws: Seq<usize>, k: usize)
    requires
        k < ws.len(),
        ws.len() <= u32::MAX,
        distinct_weights(ws),
    ensures
        distinct_weights(ws.update(k as int, ws.last()).drop_last()),
        forall|x: usize|
            x < ws.len() && x != k ==> renamed(x, k, (ws.len() - 1) as usize) < ws.len() - 1 && ws.update(
                k as int,
                ws.last(),
            ).drop_last()[renamed(x, k, (ws.len() - 1) as usize) as int] == ws[x as int],
        forall|x: usize, y: usize|
            x != k && y != k && #[trigger] renamed(x, k, (ws.len() - 1) as usize) == #[trigger] renamed(
                y,
                k,
                (ws.len() - 1) as usize,
            ) ==> x == y,
{
    let last = (ws.len() - 1) as usize;
    let ws2 = ws.update(k as int, ws.last()).drop_last();
    assert forall|x: usize| x < ws.len() && x != k implies renamed(x, k, last) < ws.len() - 1 && ws2[renamed(
        x,
        k,
        last,
    ) as int] == ws[x as int] by {
        assert(ws.last() == ws[last as int]);
        if x == last {
            assert(ws2[k as int] == ws.update(k as int, ws.last())[k as int]);
        } else {
            assert(ws2[x as int] == ws.update(k as int, ws.last())[x as int]);
        }
    }
    assert forall|j: int, l: int| 0 <= j < ws2.len() && 0 <= l < ws2.len() && j != l implies ws2[j] != ws2[l] by {
        assert(ws.last() == ws[last as int]);
        assert(ws2[j] == ws.update(k as int, ws.last())[j]);
        assert(ws2[l] == ws.update(k as int, ws.last())[l]);
        if j == k {
            assert(ws2[j] == ws[last as int]);
            assert(ws2[l] == ws[l]);
        } else if l == k {
            assert(ws2[l] == ws[last as int]);
            assert(ws2[j] == ws[j]);
        } else {
            assert(ws2[j] == ws[j] && ws2[l] == ws[l]);
        }
    }
}

impl VoicingGraph {
    /// The voicings of the graph, by node weight.
    pub closed spec fn voicing_list(self) -> Seq<Voicing> {
        self.voicings@
    }

    /// The node weights, by node.
    pub closed spec fn node_list(self) -> Seq<usize> {
        graph_nodes(self.graph)
    }

    /// The voicing of each node.
    pub open spec fn node_voicings(self) -> Seq<Voicing> {
        voicings_by_weight(self.voicing_list(), self.node_list())
    }

    /// The edges of the graph.
    pub closed spec fn edge_list(self) -> Seq<Edge> {
        graph_edges(self.graph)
    }

    /// The configuration used to find the voicings of a chord.
    pub closed spec fn config(self) -> VoicingConfig {
        self.config
    }

    /// The simple paths from the start node to the end node, in the order in
    /// which the graph library finds them.
    pub closed spec fn found_paths(self) -> Seq<Seq<usize>> {
        simple_paths_of(self.graph, self.start_node, self.end_node)
    }

    /// The graph is well formed: node 0 is the start node and node 1 the end
    /// node; each node's weight is the number of its voicing, no two nodes
    /// share one; every edge connects existing nodes; edges between the same
    /// nodes weigh the same, and edges to the end node weigh nothing; the
    /// counts stay within the graph library's limits.
    pub closed spec fn wf(self) -> bool {
        &&& self.start_node == 0
        &&& self.end_node == 1
        &&& 2 <= self.voicings@.len() <= u32::MAX
        &&& 1 <= graph_nodes(self.graph).len() <= self.voicings@.len()
        &&& distinct_weights(graph_nodes(self.graph))
        &&& forall|k: int|
            0 <= k < graph_nodes(self.graph).len() ==> (#[trigger] graph_nodes(self.graph)[k])
                < self.voicings@.len()
        &&& graph_edges(self.graph).len() <= u32::MAX
        &&& forall|e: int|
            0 <= e < graph_edges(self.graph).len() ==> (#[trigger] graph_edges(self.graph)[e]).0
                < graph_nodes(self.graph).len() && graph_edges(self.graph)[e].1 < graph_nodes(self.graph).len()
        &&& consistent(graph_edges(self.graph))
        &&& forall|e: int|
            0 <= e < graph_edges(self.graph).len() && (#[trigger] graph_edges(self.graph)[e]).1 == 1 ==> graph_edges(
                self.graph,
            )[e].2 == (0u8, 0u8)
    }

    /// A graph with only the start node and the end node.
    pub fn new(config: VoicingConfig) -> (g: VoicingGraph)
        ensures
            g.wf(),
            g.config() == config,
            g.voicing_list().len() == 2,
            g.node_list() == node_range(0, 2),
            g.edge_list() == Seq::<Edge>::empty(),
    {
        let mut graph = graph_new();
        let mut voicings: Vec<Voicing> = Vec::new();
        voicings.push(Voicing::default());
        let start_node = graph_add_node(&mut graph, 0);
        voicings.push(Voicing::default());
        let end_node = graph_add_node(&mut graph, 1);
        assert(graph_nodes(graph) =~= node_range(0, 2));
        VoicingGraph { graph, voicings, start_node, end_node, config }
    }

    /// Add the voicings of a chord as new nodes, last voicing first, and
    /// return the new nodes.
    fn add_nodes(&mut self, chord: &Chord) -> (ids: Vec<usize>)
        requires
            old(self).wf(),
            old(self).voicings@.len() + chord.voicing_seq(old(self).config).len() <= u32::MAX,
        ensures
            final(self).wf(),
            final(self).config == old(self).config,
            graph_edges(final(self).graph) == graph_edges(old(self).graph),
            final(self).voicings@ == old(self).voicings@ + reversed(chord.voicing_seq(old(self).config)),
            graph_nodes(final(self).graph) == graph_nodes(old(self).graph) + node_range(
                old(self).voicings@.len(),
                chord.voicing_seq(old(self).config).len(),
            ),
            final(self).node_voicings() == old(self).node_voicings() + reversed(chord.voicing_seq(old(self).config)),
            ids@ == node_range(graph_nodes(old(self).graph).len(), chord.voicing_seq(old(self).config).len()),
    {
        let vs = chord.voicings(self.config);
        let ghost v0 = self.voicings@.len();
        let ghost w0 = graph_nodes(self.graph);
        let ghost nv0 = self.node_voicings();
        let mut ids: Vec<usize> = Vec::new();
        let mut k: usize = vs.len();
        while k > 0
            invariant
                k <= vs@.len(),
                vs@ == chord.voicing_seq(old(self).config),
                self.wf(),
                self.config == old(self).config,
                graph_edges(self.graph) == graph_edges(old(self).graph),
                v0 == old(self).voicings@.len(),
                w0 == graph_nodes(old(self).graph),
                forall|j: int| 0 <= j < w0.len() ==> #[trigger] w0[j] < v0,
                nv0 == old(self).node_voicings(),
                v0 + vs@.len() <= u32::MAX,
                self.voicings@ == old(self).voicings@ + reversed(vs@).take(vs@.len() - k),
                graph_nodes(self.graph) == w0 + node_range(v0, (vs@.len() - k) as nat),
                ids@ == node_range(w0.len(), (vs@.len() - k) as nat),
            decreases k,
        {
            k = k - 1;
            self.voicings.push(vs[k]);
            let id = graph_add_node(&mut self.graph, self.voicings.len() - 1);
            ids.push(id);
            proof {
                assert(reversed(vs@).take(vs@.len() - k) =~= reversed(vs@).take(vs@.len() - k - 1).push(vs@[k as int]));
                assert(self.voicings@ =~= old(self).voicings@ + reversed(vs@).take(vs@.len() - k));
                assert(graph_nodes(self.graph) =~= w0 + node_range(v0, (vs@.len() - k) as nat));
                assert(ids@ =~= node_range(w0.len(), (vs@.len() - k) as nat));
                let ws = graph_nodes(self.graph);
                assert forall|j: int, l: int| 0 <= j < ws.len() && 0 <= l < ws.len() && j != l implies ws[j]
                    != ws[l] by {
                    if j >= w0.len() && l < w0.len() {
                        assert(ws[l] == w0[l]);
                        assert(w0[l] < v0);
                    } else if l >= w0.len() && j < w0.len() {
                        assert(ws[j] == w0[j]);
                        assert(w0[j] < v0);
                    } else if j < w0.len() && l < w0.len() {
                        assert(ws[j] == w0[j] && ws[l] == w0[l]);
                    }
                }
            }
        }
        proof {
            assert(reversed(vs@).take(vs@.len() as int) =~= reversed(vs@));
            let layer = reversed(vs@);
            let nv = self.node_voicings();
            assert forall|n: int| 0 <= n < nv.len() implies nv[n] == (nv0 + layer)[n] by {
                let ws = graph_nodes(self.graph);
                if n < w0.len() {
                    assert(ws[n] == w0[n]);
                    assert(self.voicings@[w0[n] as int] == old(self).voicings@[w0[n] as int]);
                } else {
                    assert(ws[n] == v0 + (n - w0.len()));
                }
            }
            assert(nv =~= nv0 + layer);
        }
        ids
    }

    /// Connect each node of `left` with each node of `right` whose voicing is
    /// close enough; edges from the start node weigh nothing.
    #[verifier::rlimit(40)]
    #[verifier::spinoff_prover]
    fn add_edges(&mut self, left: &Vec<usize>, right: &Vec<usize>)
        requires
            old(self).wf(),
            forall|a: int| 0 <= a < left@.len() ==> #[trigger] left@[a] < graph_nodes(old(self).graph).len(),
            forall|b: int| 0 <= b < right@.len() ==> #[trigger] right@[b] < graph_nodes(old(self).graph).len(),
            forall|a: int, b: int|
                0 <= a < left@.len() && 0 <= b < right@.len() && left@[a] != 0 ==> distance_fits(
                    old(self).node_voicings()[#[trigger] left@[a] as int],
                    old(self).node_voicings()[#[trigger] right@[b] as int],
                ),
            forall|e: int, b: int|
                0 <= e < graph_edges(old(self).graph).len() && 0 <= b < right@.len() ==> (#[trigger] graph_edges(
                    old(self).graph,
                )[e]).1 != #[trigger] right@[b],
            forall|a: int, b: int|
                0 <= a < left@.len() && 0 <= b < right@.len() && #[trigger] right@[b] == 1 ==> #[trigger] left@[a]
                    == 0,
            graph_edges(old(self).graph).len() + pair_edges(old(self).node_voicings(), left@, right@).len()
                <= u32::MAX,
        ensures
            final(self).wf(),
            final(self).config == old(self).config,
            final(self).voicings@ == old(self).voicings@,
            graph_nodes(final(self).graph) == graph_nodes(old(self).graph),
            graph_edges(final(self).graph) == graph_edges(old(self).graph) + pair_edges(
                old(self).node_voicings(),
                left@,
                right@,
            ),
    {
        let ghost nv = self.node_voicings();
        let ghost e0 = graph_edges(self.graph);
        let ghost w0 = graph_nodes(self.graph);
        proof {
            lemma_pair_edges_ends(nv, left@, right@);
        }
        let mut a: usize = 0;
        while a < left.len()
            invariant
                a <= left@.len(),
                self.wf(),
                self.config == old(self).config,
                self.voicings@ == old(self).voicings@,
                graph_nodes(self.graph) == w0,
                w0 == graph_nodes(old(self).graph),
                nv == old(self).node_voicings(),
                e0 == graph_edges(old(self).graph),
                forall|i: int| 0 <= i < left@.len() ==> #[trigger] left@[i] < w0.len(),
                forall|j: int| 0 <= j < right@.len() ==> #[trigger] right@[j] < w0.len(),
                forall|i: int, j: int|
                    0 <= i < left@.len() && 0 <= j < right@.len() && left@[i] != 0 ==> distance_fits(
                        nv[#[trigger] left@[i] as int],
                        nv[#[trigger] right@[j] as int],
                    ),
                forall|e: int, j: int|
                    0 <= e < e0.len() && 0 <= j < right@.len() ==> (#[trigger] e0[e]).1 != #[trigger] right@[j],
                forall|i: int, j: int|
                    0 <= i < left@.len() && 0 <= j < right@.len() && #[trigger] right@[j] == 1 ==> #[trigger] left@[i]
                        == 0,
                e0.len() + pair_edges(nv, left@, right@).len() <= u32::MAX,
                graph_edges(self.graph) == e0 + pair_edges(nv, left@.take(a as int), right@),
            decreases left@.len() - a,
        {
            let l = left[a];
            proof {
                assert(left@.take(a + 1).drop_last() =~= left@.take(a as int));
                lemma_pair_edges_len(nv, left@, right@, a + 1);
                lemma_pair_edges_ends(nv, left@.take(a as int), right@);
            }
            let mut b: usize = 0;
            while b < right.len()
                invariant
                    a < left@.len(),
                    b <= right@.len(),
                    l == left@[a as int],
                    self.wf(),
                    self.config == old(self).config,
                    self.voicings@ == old(self).voicings@,
                    graph_nodes(self.graph) == w0,
                    w0 == graph_nodes(old(self).graph),
                    nv == old(self).node_voicings(),
                    forall|j: int| 0 <= j < right@.len() ==> #[trigger] right@[j] < w0.len(),
                    l < w0.len(),
                    forall|j: int|
                        0 <= j < right@.len() && l != 0 ==> distance_fits(nv[l as int], nv[#[trigger] right@[j] as int]),
                    forall|e: int, j: int|
                        0 <= e < e0.len() && 0 <= j < right@.len() ==> (#[trigger] e0[e]).1 != #[trigger] right@[j],
                    forall|j: int| 0 <= j < right@.len() && #[trigger] right@[j] == 1 ==> l == 0,
                    forall|e: int|
                        0 <= e < pair_edges(nv, left@.take(a as int), right@).len() ==> right@.contains(
                            (#[trigger] pair_edges(nv, left@.take(a as int), right@)[e]).1,
                        ) && pair_edges(nv, left@.take(a as int), right@)[e].2 == edge_weight_of(
                            nv,
                            pair_edges(nv, left@.take(a as int), right@)[e].0,
                            pair_edges(nv, left@.take(a as int), right@)[e].1,
                        ),
                    e0.len() + pair_edges(nv, left@.take(a as int), right@).len() + row_edges(nv, l, right@).len()
                        <= u32::MAX,
                    graph_edges(self.graph) == e0 + pair_edges(nv, left@.take(a as int), right@) + row_edges(
                        nv,
                        l,
                        right@.take(b as int),
                    ),
                decreases right@.len() - b,
            {
                let r = right[b];
                proof {
                    assert(right@.take(b + 1).drop_last() =~= right@.take(b as int));
                    lemma_row_edges_len(nv, l, right@, b as int, b + 1);
                    lemma_row_edges_len(nv, l, right@, b + 1, right@.len() as int);
                    assert(right@.take(right@.len() as int) =~= right@);
                    lemma_row_edges_ends(nv, l, right@.take(b as int));
                }
                let dist = if l == self.start_node {
                    Distance::default()
                } else {
                    let wl = graph_node_weight(&self.graph, l);
                    let wr = graph_node_weight(&self.graph, r);
                    assert(nv[l as int] == old(self).voicings@[w0[l as int] as int]);
                    assert(nv[r as int] == old(self).voicings@[w0[r as int] as int]);
                    assert(self.voicings@[wl as int] == nv[l as int]);
                    assert(self.voicings@[wr as int] == nv[r as int]);
                    self.voicings[wl].distance(self.voicings[wr])
                };
                assert((dist.0, dist.1) == edge_weight_of(nv, l, r));
                if dist.semitone_distance() <= MAX_DIST {
                    let ghost before = graph_edges(self.graph);
                    graph_add_edge(&mut self.graph, l, r, (dist.0, dist.1));
                    proof {
                        let es = graph_edges(self.graph);
                        let pa = pair_edges(nv, left@.take(a as int), right@);
                        let ro = row_edges(nv, l, right@.take(b as int));
                        assert(before == e0 + pa + ro);
                        assert forall|e: int, f: int|
                            0 <= e < es.len() && 0 <= f < es.len() && (#[trigger] es[e]).0 == (#[trigger] es[f]).0
                                && es[e].1 == es[f].1 implies es[e].2 == es[f].2 by {
                            if e < before.len() && f < before.len() {
                                assert(es[e] == before[e] && es[f] == before[f]);
                            } else if e == before.len() && f == before.len() {
                            } else {
                                let o = if e == before.len() { f } else { e };
                                assert(es[o] == before[o]);
                                assert(before[o].1 == r);
                                if o < e0.len() {
                                    assert(e0[o] == before[o]);
                                    assert(e0[o].1 != right@[b as int]);
                                } else if o < e0.len() + pa.len() {
                                    assert(pa[o - e0.len()] == before[o]);
                                } else {
                                    assert(ro[o - e0.len() - pa.len()] == before[o]);
                                }
                            }
                        }
                        assert forall|e: int| 0 <= e < es.len() && (#[trigger] es[e]).1 == 1 implies es[e].2 == (
                            0u8,
                            0u8,
                        ) by {
                            if e < before.len() {
                                assert(es[e] == before[e]);
                            } else {
                                assert(r == right@[b as int]);
                            }
                        }
                    }
                }
                proof {
                    assert(graph_edges(self.graph) =~= e0 + pair_edges(nv, left@.take(a as int), right@)
                        + row_edges(nv, l, right@.take(b + 1)));
                }
                b = b + 1;
            }
            proof {
                assert(right@.take(b as int) =~= right@);
                assert(graph_edges(self.graph) =~= e0 + pair_edges(nv, left@.take(a + 1), right@));
            }
            a = a + 1;
        }
        proof {
            assert(left@.take(a as int) =~= left@);
        }
    }

    /// The graph that results from adding a chord sequence, before pruning.
    pub open spec fn grown(self, chords: Seq<Chord>) -> (Seq<Voicing>, Seq<Edge>, Seq<usize>) {
        grow(self.node_voicings(), self.edge_list(), seq![0usize], chords, self.config())
    }

    /// The node weights once a chord sequence is added, before pruning.
    pub open spec fn grown_nodes(self, chords: Seq<Chord>) -> Seq<usize> {
        self.node_list() + node_range(
            self.voicing_list().len(),
            (self.grown(chords).0.len() - self.node_list().len()) as nat,
        )
    }

    /// The voicings once a chord sequence is added.
    pub open spec fn grown_voicings(self, chords: Seq<Chord>) -> Seq<Voicing> {
        self.voicing_list() + self.grown(chords).0.subrange(self.node_list().len() as int, self.grown(chords).0.len() as int)
    }

    /// Remove, from the last node to the first one, every node that no edge
    /// leaves, except the end node.
    fn prune_nodes(&mut self)
        requires
            old(self).wf(),
            graph_nodes(old(self).graph).len() >= 2,
        ensures
            final(self).wf(),
            final(self).config == old(self).config,
            final(self).voicings@ == old(self).voicings@,
            graph_nodes(final(self).graph) == prune(
                graph_nodes(old(self).graph),
                graph_edges(old(self).graph).to_set(),
                graph_nodes(old(self).graph).len(),
            ).0,
            graph_edges(final(self).graph).to_set() == prune(
                graph_nodes(old(self).graph),
                graph_edges(old(self).graph).to_set(),
                graph_nodes(old(self).graph).len(),
            ).1,
    {
        let ghost target = prune(
            graph_nodes(self.graph),
            graph_edges(self.graph).to_set(),
            graph_nodes(self.graph).len(),
        );
        let mut i: usize = graph_node_count(&self.graph);
        while i > 0
            invariant
                self.wf(),
                self.config == old(self).config,
                self.voicings@ == old(self).voicings@,
                i <= graph_nodes(self.graph).len(),
                i >= 1 ==> graph_nodes(self.graph).len() >= 2,
                prune(graph_nodes(self.graph), graph_edges(self.graph).to_set(), i as nat) == target,
            decreases i,
        {
            i = i - 1;
            let deg = graph_out_degree(&self.graph, i);
            proof {
                lemma_out_degree(graph_edges(self.graph), i);
            }
            if !(deg > 0 || i == self.end_node) {
                let ghost ws = graph_nodes(self.graph);
                let ghost es = graph_edges(self.graph);
                let ghost last = (ws.len() - 1) as usize;
                graph_remove_node(&mut self.graph, i);
                proof {
                    lemma_renamed_nodes(ws, i);
                    let ws2 = graph_nodes(self.graph);
                    let es2 = graph_edges(self.graph);
                    assert(es2.to_set() =~= edges_without(es.to_set(), i, last)) by {
                        assert forall|x: Edge| es2.to_set().contains(x) implies edges_without(
                            es.to_set(),
                            i,
                            last,
                        ).contains(x) by {
                            assert(es2.contains(x));
                            let e = choose|e: int|
                                0 <= e < es.len() && kept_edge(#[trigger] es[e], i) && x == renamed_edge(es[e], i, last);
                            assert(es.to_set().contains(es[e]));
                        }
                        assert forall|x: Edge| edges_without(es.to_set(), i, last).contains(x) implies es2.to_set().contains(
                            x,
                        ) by {
                            let y = choose|y: Edge| es.to_set().contains(y) && kept_edge(y, i) && x == renamed_edge(y, i, last);
                            let e = choose|e: int| 0 <= e < es.len() && es[e] == y;
                            assert(kept_edge(es[e], i));
                        }
                    }
                    assert forall|e: int| 0 <= e < es2.len() implies (#[trigger] es2[e]).0 < ws2.len() && es2[e].1
                        < ws2.len() by {
                        assert(es2.contains(es2[e]));
                        let f = choose|f: int|
                            0 <= f < es.len() && kept_edge(#[trigger] es[f], i) && es2[e] == renamed_edge(es[f], i, last);
                    }
                    assert forall|e: int, f: int|
                        0 <= e < es2.len() && 0 <= f < es2.len() && (#[trigger] es2[e]).0 == (#[trigger] es2[f]).0
                            && es2[e].1 == es2[f].1 implies es2[e].2 == es2[f].2 by {
                        assert(es2.contains(es2[e]));
                        assert(es2.contains(es2[f]));
                        let g = choose|g: int|
                            0 <= g < es.len() && kept_edge(#[trigger] es[g], i) && es2[e] == renamed_edge(es[g], i, last);
                        let h = choose|h: int|
                            0 <= h < es.len() && kept_edge(#[trigger] es[h], i) && es2[f] == renamed_edge(es[h], i, last);
                        assert(es[g].0 == es[h].0 && es[g].1 == es[h].1);
                    }
                    assert forall|e: int| 0 <= e < es2.len() && (#[trigger] es2[e]).1 == 1 implies es2[e].2 == (
                        0u8,
                        0u8,
                    ) by {
                        assert(es2.contains(es2[e]));
                        let g = choose|g: int|
                            0 <= g < es.len() && kept_edge(#[trigger] es[g], i) && es2[e] == renamed_edge(es[g], i, last);
                        assert(es[g].1 == 1);
                    }
                }
            }
        }
    }

    /// Add the voicings of a chord sequence: the voicings of each chord
    /// become nodes, each connected to the voicings of the previous chord
    /// that are close enough (those of the first chord to the start node),
    /// and the voicings of the last chord are connected to the end node.
    /// Then, from the last node to the first one, every node that no edge
    /// leaves (but the end node) is removed: such nodes lie on no path from
    /// the start node to the end node.
    #[verifier::rlimit(60)]
    pub fn add(&mut self, chord_seq: &ChordSequence)
        requires
            old(self).wf(),
            distances_fit(old(self).config(), chord_seq@),
            old(self).grown(chord_seq@).0.len() >= 2,
            old(self).voicing_list().len() + (old(self).grown(chord_seq@).0.len() - old(self).node_list().len())
                <= u32::MAX,
            old(self).grown(chord_seq@).1.len() + old(self).grown(chord_seq@).2.len() <= u32::MAX,
        ensures
            final(self).wf(),
            final(self).config() == old(self).config(),
            final(self).voicing_list() == old(self).grown_voicings(chord_seq@),
            final(self).node_list() == prune(
                old(self).grown_nodes(chord_seq@),
                (old(self).grown(chord_seq@).1 + end_edges(old(self).grown(chord_seq@).2)).to_set(),
                old(self).grown_nodes(chord_seq@).len(),
            ).0,
            final(self).edge_list().to_set() == prune(
                old(self).grown_nodes(chord_seq@),
                (old(self).grown(chord_seq@).1 + end_edges(old(self).grown(chord_seq@).2)).to_set(),
                old(self).grown_nodes(chord_seq@).len(),
            ).1,
    {
        let chords = chord_seq.chords();
        let ghost total = old(self).grown(chord_seq@);
        let ghost config = self.config;
        let ghost n = chords@.len();
        let ghost w_old = graph_nodes(self.graph);
        let ghost v_old = self.voicings@;
        let mut prev: Vec<usize> = Vec::new();
        prev.push(self.start_node);
        let ghost mut off: int = 0;
        let mut i: usize = 0;
        assert(chords@.subrange(0, n as int) =~= chords@);
        assert(graph_nodes(self.graph) =~= w_old + node_range(v_old.len(), 0));
        assert(self.voicings@ =~= v_old + self.node_voicings().subrange(w_old.len() as int, self.node_voicings().len() as int));
        while i < chords.len()
            invariant
                i <= n,
                n == chords@.len(),
                chords@ == chord_seq@,
                self.wf(),
                self.config == config,
                config == old(self).config(),
                distances_fit(config, chords@),
                total == old(self).grown(chord_seq@),
                total.0.len() >= 2,
                v_old == old(self).voicings@,
                w_old == graph_nodes(old(self).graph),
                v_old.len() + (total.0.len() - w_old.len()) <= u32::MAX,
                total.1.len() + total.2.len() <= u32::MAX,
                grow(self.node_voicings(), graph_edges(self.graph), prev@, chords@.subrange(i as int, n as int), config)
                    == total,
                w_old.len() <= self.node_voicings().len(),
                graph_nodes(self.graph) == w_old + node_range(
                    v_old.len(),
                    (self.node_voicings().len() - w_old.len()) as nat,
                ),
                self.voicings@ == v_old + self.node_voicings().subrange(
                    w_old.len() as int,
                    self.node_voicings().len() as int,
                ),
                forall|j: int| 0 <= j < prev@.len() ==> #[trigger] prev@[j] < graph_nodes(self.graph).len(),
                i == 0 ==> prev@ == seq![0usize],
                i > 0 ==> {
                    &&& 1 <= off
                    &&& prev@ == node_range(off as nat, chords@[i - 1].voicing_seq(config).len())
                    &&& off + chords@[i - 1].voicing_seq(config).len() == graph_nodes(self.graph).len()
                    &&& self.node_voicings().subrange(off, graph_nodes(self.graph).len() as int) == reversed(
                        chords@[i - 1].voicing_seq(config),
                    )
                },
            decreases n - i,
        {
            let ghost nv0 = self.node_voicings();
            let ghost n_cur = graph_nodes(self.graph).len();
            let ghost vw = graph_nodes(self.graph);
            let ghost layer = reversed(chords@[i as int].voicing_seq(config));
            let ghost ids_spec = node_range(nv0.len(), layer.len());
            let ghost vs2 = nv0 + layer;
            proof {
                assert(chords@.subrange(i as int, n as int).drop_first() =~= chords@.subrange(i + 1, n as int));
                assert(chords@.subrange(i as int, n as int)[0] == chords@[i as int]);
                lemma_grow_len(
                    vs2,
                    graph_edges(self.graph) + pair_edges(vs2, prev@, ids_spec),
                    ids_spec,
                    chords@.subrange(i + 1, n as int),
                    config,
                );
            }
            let nodes = self.add_nodes(&chords[i]);
            proof {
                assert(graph_nodes(self.graph) =~= w_old + node_range(
                    v_old.len(),
                    (self.node_voicings().len() - w_old.len()) as nat,
                ));
                assert(self.voicings@ =~= v_old + self.node_voicings().subrange(
                    w_old.len() as int,
                    self.node_voicings().len() as int,
                ));
                assert forall|a: int, b: int|
                    0 <= a < prev@.len() && 0 <= b < nodes@.len() && prev@[a] != 0 implies distance_fits(
                    self.node_voicings()[#[trigger] prev@[a] as int],
                    self.node_voicings()[#[trigger] nodes@[b] as int],
                ) by {
                    let cur = chords@[i as int].voicing_seq(config);
                    let pv = chords@[i - 1].voicing_seq(config);
                    assert(i > 0);
                    assert(self.node_voicings()[nodes@[b] as int] == layer[b]);
                    assert(layer[b] == cur[cur.len() - 1 - b]);
                    assert(self.node_voicings()[prev@[a] as int] == nv0.subrange(off, n_cur as int)[a]);
                    assert(nv0.subrange(off, n_cur as int)[a] == pv[pv.len() - 1 - a]);
                    assert(distance_fits(
                        chords@[i - 1].voicing_seq(config)[pv.len() - 1 - a],
                        chords@[(i - 1) + 1].voicing_seq(config)[cur.len() - 1 - b],
                    ));
                }
                assert forall|a: int, b: int|
                    0 <= a < prev@.len() && 0 <= b < nodes@.len() && #[trigger] nodes@[b] == 1 implies #[trigger] prev@[a]
                    == 0 by {
                    assert(nodes@[b] == n_cur + b);
                    if i > 0 {
                        assert(chords@[i - 1].voicing_seq(config).len() == 0);
                    }
                }
                assert forall|e: int, b: int|
                    0 <= e < graph_edges(self.graph).len() && 0 <= b < nodes@.len() implies (#[trigger] graph_edges(
                    self.graph,
                )[e]).1 != #[trigger] nodes@[b] by {
                    assert(nodes@[b] == n_cur + b);
                }
            }
            self.add_edges(&prev, &nodes);
            proof {
                off = n_cur as int;
                assert(self.node_voicings().subrange(off, graph_nodes(self.graph).len() as int) =~= layer);
            }
            prev = nodes;
            i = i + 1;
        }
        proof {
            assert(chords@.subrange(n as int, n as int) =~= Seq::<Chord>::empty());
        }
        let ghost e1 = graph_edges(self.graph);
        let mut j: usize = 0;
        while j < prev.len()
            invariant
                j <= prev@.len(),
                self.wf(),
                self.config == config,
                self.node_voicings() == total.0,
                graph_nodes(self.graph).len() == total.0.len(),
                graph_nodes(self.graph) == w_old + node_range(v_old.len(), (total.0.len() - w_old.len()) as nat),
                self.voicings@ == v_old + total.0.subrange(w_old.len() as int, total.0.len() as int),
                w_old == graph_nodes(old(self).graph),
                v_old == old(self).voicings@,
                total == old(self).grown(chord_seq@),
                total.0.len() >= 2,
                prev@ == total.2,
                e1 == total.1,
                total.1.len() + total.2.len() <= u32::MAX,
                forall|k: int| 0 <= k < prev@.len() ==> #[trigger] prev@[k] < graph_nodes(self.graph).len(),
                graph_edges(self.graph) == e1 + end_edges(prev@).take(j as int),
            decreases prev@.len() - j,
        {
            let ghost before = graph_edges(self.graph);
            graph_add_edge(&mut self.graph, prev[j], self.end_node, (0, 0));
            proof {
                assert(end_edges(prev@).take(j + 1) =~= end_edges(prev@).take(j as int).push(
                    (prev@[j as int], 1usize, (0u8, 0u8)),
                ));
                assert(graph_edges(self.graph) =~= e1 + end_edges(prev@).take(j + 1));
                let es = graph_edges(self.graph);
                assert forall|e: int, f: int|
                    0 <= e < es.len() && 0 <= f < es.len() && (#[trigger] es[e]).0 == (#[trigger] es[f]).0 && es[e].1
                        == es[f].1 implies es[e].2 == es[f].2 by {
                    if e < before.len() {
                        assert(es[e] == before[e]);
                    }
                    if f < before.len() {
                        assert(es[f] == before[f]);
                    }
                }
                assert forall|e: int| 0 <= e < es.len() && (#[trigger] es[e]).1 == 1 implies es[e].2 == (
                    0u8,
                    0u8,
                ) by {
                    if e < before.len() {
                        assert(es[e] == before[e]);
                    }
                }
            }
            j = j + 1;
        }
        proof {
            assert(end_edges(prev@).take(j as int) =~= end_edges(prev@));
        }
        self.prune_nodes();
    }

    /// The sum of the edge weights along a path, if it fits in a byte.
    fn path_weight_of(&self, p: &Vec<usize>) -> (r: Option<(u8, u8)>)
        requires
            self.wf(),
            forall|k: int| 0 <= k < p@.len() ==> #[trigger] p@[k] < graph_nodes(self.graph).len(),
        ensures
            r == (if weight_fits(path_weight(self.edge_list(), p@)) {
                Some(
                    (
                        path_weight(self.edge_list(), p@).0 as u8,
                        path_weight(self.edge_list(), p@).1 as u8,
                    ),
                )
            } else {
                None
            }),
    {
        let ghost edges = self.edge_list();
        proof {
            lemma_path_weight_prefix(edges, p@, p@.len() as int);
        }
        let mut semitones: u8 = 0;
        let mut fingering: u8 = 0;
        let mut k: usize = 1;
        if p.len() == 0 {
            return Some((0, 0));
        }
        while k < p.len()
            invariant
                1 <= k <= p@.len(),
                self.wf(),
                edges == self.edge_list(),
                forall|m: int| 0 <= m < p@.len() ==> #[trigger] p@[m] < graph_nodes(self.graph).len(),
                path_weight(edges, p@.take(k as int)) == (semitones as int, fingering as int),
            decreases p@.len() - k,
        {
            let a = p[k - 1];
            let b = p[k];
            let found = graph_find_edge(&self.graph, a, b);
            proof {
                lemma_edge_found(edges, a, b, found);
                let q = p@.take(k + 1);
                assert(q.drop_last() =~= p@.take(k as int));
                assert(q[q.len() - 2] == a);
                assert(q.last() == b);
                lemma_path_weight_prefix(edges, p@, k + 1);
            }
            if let Some(e) = found {
                if let Some(w) = graph_edge_weight(&self.graph, e) {
                    if semitones as u16 + w.0 as u16 > 255 || fingering as u16 + w.1 as u16 > 255 {
                        return None;
                    }
                    semitones = semitones + w.0;
                    fingering = fingering + w.1;
                }
            }
            k = k + 1;
        }
        proof {
            assert(p@.take(k as int) =~= p@);
        }
        Some((semitones, fingering))
    }

    /// The voicings of the inner nodes of a path.
    fn voicings_along(&self, p: &Vec<usize>) -> (r: Vec<Voicing>)
        requires
            self.wf(),
            forall|k: int| 0 <= k < p@.len() ==> #[trigger] p@[k] < graph_nodes(self.graph).len(),
        ensures
            r@ == voicing_path(self.node_voicings(), p@),
    {
        let mut r: Vec<Voicing> = Vec::new();
        if p.len() < 2 {
            return r;
        }
        let mut k: usize = 1;
        while k < p.len() - 1
            invariant
                1 <= k <= p@.len() - 1,
                self.wf(),
                forall|m: int| 0 <= m < p@.len() ==> #[trigger] p@[m] < graph_nodes(self.graph).len(),
                r@ == p@.subrange(1, k as int).map_values(|n: usize| self.node_voicings()[n as int]),
            decreases p@.len() - 1 - k,
        {
            let w = graph_node_weight(&self.graph, p[k]);
            r.push(self.voicings[w]);
            proof {
                assert(r@ =~= p@.subrange(1, k + 1).map_values(|n: usize| self.node_voicings()[n as int]));
            }
            k = k + 1;
        }
        r
    }

    /// Rank the given paths by weight, lightest first, and give at most
    /// `max_suggestions` of them with the voicings along each and its
    /// weight; nothing if the weight of some path does not fit in a byte.
    pub fn rank_paths(&self, all: &Vec<Vec<usize>>, max_suggestions: usize) -> (r: Option<Vec<(Vec<Voicing>, Distance)>>)
        requires
            self.wf(),
            forall|i: int, k: int|
                0 <= i < all@.len() && 0 <= k < all@[i]@.len() ==> #[trigger] all@[i]@[k]
                    < self.node_list().len(),
        ensures
            r is None <==> ranked_paths(
                self.edge_list(),
                self.node_voicings(),
                all@.map_values(|p: Vec<usize>| p@),
                max_suggestions,
            ) is None,
            r matches Some(v) ==> ranked_paths(
                self.edge_list(),
                self.node_voicings(),
                all@.map_values(|p: Vec<usize>| p@),
                max_suggestions,
            ) == Some(v@.map_values(|x: (Vec<Voicing>, Distance)| (x.0@, x.1))),
    {
        let ghost edges = self.edge_list();
        let ghost paths = all@.map_values(|p: Vec<usize>| p@);
        let ghost iw = indexed_weights(edges, paths);
        let mut order: Vec<(usize, (u8, u8))> = Vec::new();
        let mut i: usize = 0;
        while i < all.len()
            invariant
                i <= all@.len(),
                self.wf(),
                edges == self.edge_list(),
                paths == all@.map_values(|p: Vec<usize>| p@),
                iw == indexed_weights(edges, paths),
                forall|j: int, k: int|
                    0 <= j < all@.len() && 0 <= k < all@[j]@.len() ==> #[trigger] all@[j]@[k]
                        < self.node_list().len(),
                forall|j: int| 0 <= j < i ==> weight_fits(#[trigger] path_weight(edges, paths[j])),
                order@ == sort_weighted(iw.take(i as int)),
            decreases all@.len() - i,
        {
            let w = self.path_weight_of(&all[i]);
            match w {
                None => {
                    proof {
                        assert(paths[i as int] == all@[i as int]@);
                        assert(!weight_fits(path_weight(edges, paths[i as int])));
                    }
                    return None;
                },
                Some(w) => {
                    proof {
                        assert(iw.take(i + 1).drop_last() =~= iw.take(i as int));
                        assert(iw.take(i + 1).last() == (i, w));
                    }
                    insert_by_weight(&mut order, (i, w));
                },
            }
            i = i + 1;
        }
        proof {
            assert(iw.take(i as int) =~= iw);
            lemma_sort_weighted(iw);
        }
        let ghost sorted = sort_weighted(iw);
        let n: usize = if max_suggestions < order.len() {
            max_suggestions
        } else {
            order.len()
        };
        let ghost spec_out = sorted.take(n as int).map_values(
            |x: (usize, (u8, u8))| (voicing_path(self.node_voicings(), paths[x.0 as int]), Distance(x.1.0, x.1.1)),
        );
        let mut out: Vec<(Vec<Voicing>, Distance)> = Vec::new();
        let mut t: usize = 0;
        while t < n
            invariant
                t <= n,
                n <= order@.len(),
                order@ == sorted,
                sorted.len() == iw.len(),
                iw.len() == all@.len(),
                iw == indexed_weights(edges, paths),
                self.wf(),
                paths == all@.map_values(|p: Vec<usize>| p@),
                forall|k: int| 0 <= k < iw.len() ==> iw.contains(#[trigger] sorted[k]),
                forall|j: int, k: int|
                    0 <= j < all@.len() && 0 <= k < all@[j]@.len() ==> #[trigger] all@[j]@[k]
                        < self.node_list().len(),
                spec_out == sorted.take(n as int).map_values(
                    |x: (usize, (u8, u8))| (voicing_path(self.node_voicings(), paths[x.0 as int]), Distance(x.1.0, x.1.1)),
                ),
                out@.map_values(|x: (Vec<Voicing>, Distance)| (x.0@, x.1)) == spec_out.take(t as int),
            decreases n - t,
        {
            let entry = order[t];
            proof {
                assert(iw.contains(sorted[t as int]));
                let m = choose|m: int| 0 <= m < iw.len() && iw[m] == sorted[t as int];
                assert(iw[m].0 == m as usize);
                assert(entry.0 < all@.len());
            }
            let along = self.voicings_along(&all[entry.0]);
            let ghost before = out@;
            out.push((along, Distance(entry.1.0, entry.1.1)));
            proof {
                assert(paths[entry.0 as int] == all@[entry.0 as int]@);
                assert(spec_out[t as int] == (along@, Distance(entry.1.0, entry.1.1)));
                assert(out@ == before.push((along, Distance(entry.1.0, entry.1.1))));
                assert(out@.map_values(|x: (Vec<Voicing>, Distance)| (x.0@, x.1)) =~= before.map_values(
                    |x: (Vec<Voicing>, Distance)| (x.0@, x.1),
                ).push((along@, Distance(entry.1.0, entry.1.1))));
                assert(spec_out.take(t + 1) =~= spec_out.take(t as int).push(spec_out[t as int]));
                assert(out@.map_values(|x: (Vec<Voicing>, Distance)| (x.0@, x.1)) =~= spec_out.take(t + 1));
            }
            t = t + 1;
        }
        proof {
            assert(spec_out.take(n as int) =~= spec_out);
        }
        Some(out)
    }

    /// The voice leadings through the graph, ranked by weight: the voicings
    /// along each path from the start node to the end node, and the path's
    /// distance. The path with the lowest distance comes first; paths of
    /// equal semitone distance are ranked by fingering distance. At most
    /// `max_suggestions` are given; nothing if the distance of some path
    /// does not fit in a byte.
    pub fn paths(&self, max_suggestions: usize) -> (r: Option<Vec<(Vec<Voicing>, Distance)>>)
        requires
            self.wf(),
        ensures
            r is None <==> ranked_paths(self.edge_list(), self.node_voicings(), self.found_paths(), max_suggestions) is None,
            r matches Some(v) ==> ranked_paths(
                self.edge_list(),
                self.node_voicings(),
                self.found_paths(),
                max_suggestions,
            ) == Some(v@.map_values(|x: (Vec<Voicing>, Distance)| (x.0@, x.1))),
            r matches Some(v) ==> forall|t: int|
                0 <= t < v@.len() ==> exists|p: Seq<usize>|
                    is_simple_path(self.node_list().len(), self.edge_list(), 0, 1, p) && (#[trigger] v@[t]).0@
                        == voicing_path(self.node_voicings(), p) && v@[t].1 == Distance(
                        path_weight(self.edge_list(), p).0 as u8,
                        path_weight(self.edge_list(), p).1 as u8,
                    ),
            r matches Some(v) ==> forall|p: Seq<usize>|
                max_suggestions > 0 && is_simple_path(self.node_list().len(), self.edge_list(), 0, 1, p)
                    ==> v@.len() > 0 && v@[0].1.at_most(
                    Distance(path_weight(self.edge_list(), p).0 as u8, path_weight(self.edge_list(), p).1 as u8),
                ),
    {
        let all = graph_simple_paths(&self.graph, self.start_node, self.end_node);
        proof {
            assert forall|i: int, k: int|
                0 <= i < all@.len() && 0 <= k < all@[i]@.len() implies #[trigger] all@[i]@[k]
                < self.node_list().len() by {
                assert(is_simple_path(graph_nodes(self.graph).len(), graph_edges(self.graph), 0, 1, all@[i]@));
            }
            let paths = all@.map_values(|p: Vec<usize>| p@);
            assert forall|i: int| 0 <= i < paths.len() implies is_simple_path(
                self.node_list().len(),
                self.edge_list(),
                0,
                1,
                #[trigger] paths[i],
            ) by {
                assert(paths[i] == all@[i]@);
            }
            assert forall|p: Seq<usize>| is_simple_path(self.node_list().len(), self.edge_list(), 0, 1, p) implies paths.contains(p) by {
                let i = choose|i: int| 0 <= i < all@.len() && (#[trigger] all@[i])@ == p;
                assert(paths[i] == p);
            }
            lemma_ranked_paths(self.node_list().len(), self.edge_list(), self.node_voicings(), paths, max_suggestions);
        }
        let r = self.rank_paths(&all, max_suggestions);
        proof {
            if r is Some {
                let v = r->0;
                let w = ranked_paths(self.edge_list(), self.node_voicings(), self.found_paths(), max_suggestions)->0;
                assert(w == v@.map_values(|x: (Vec<Voicing>, Distance)| (x.0@, x.1)));
                assert forall|t: int| 0 <= t < v@.len() implies exists|p: Seq<usize>|
                    is_simple_path(self.node_list().len(), self.edge_list(), 0, 1, p) && (#[trigger] v@[t]).0@
                        == voicing_path(self.node_voicings(), p) && v@[t].1 == Distance(
                        path_weight(self.edge_list(), p).0 as u8,
                        path_weight(self.edge_list(), p).1 as u8,
                    ) by {
                    assert(w[t] == (v@[t].0@, v@[t].1));
                    let p = choose|p: Seq<usize>|
                        is_simple_path(self.node_list().len(), self.edge_list(), 0, 1, p) && (#[trigger] w[t]).0
                            == voicing_path(self.node_voicings(), p) && w[t].1 == Distance(
                            path_weight(self.edge_list(), p).0 as u8,
                            path_weight(self.edge_list(), p).1 as u8,
                        );
                    assert(is_simple_path(self.node_list().len(), self.edge_list(), 0, 1, p));
                }
            }
        }
        r
    }
}

} // verus!
