//! What the weights of nodes and edges are, in terms of the frames of the sampled stacks.
use vstd::prelude::*;

use crate::graph::{GraphEdge, GraphNode};

verus! {

/// A stack visits a node once per run of frames in it. Counted from the root (which is stored
/// last), a run begins at the root frame and at each frame whose node is not its caller's.
pub proof fn visits_are_runs_of_frames(
    frames: Seq<Seq<char>>,
    prefixes: Seq<Seq<char>>,
    id: Seq<char>,
)
    ensures
        ({
            let n = frames.len() as int;
            let runs = Set::new(
                |r: int|
                    0 <= r < n && crate::symbol::node_of(frames[n - 1 - r], prefixes).id == id && (r
                        == 0 || crate::symbol::node_of(frames[n - 1 - r], prefixes)
                        != crate::symbol::node_of(frames[n - r], prefixes)),
            );
            &&& runs.finite()
            &&& crate::chain::visits(crate::chain::chain(frames, prefixes), id) == runs.len()
        }),
    decreases frames.len(),
{
    let n = frames.len() as int;
    let runs = Set::new(
        |r: int|
            0 <= r < n && crate::symbol::node_of(frames[n - 1 - r], prefixes).id == id && (r == 0
                || crate::symbol::node_of(frames[n - 1 - r], prefixes) != crate::symbol::node_of(
                frames[n - r],
                prefixes,
            )),
    );
    if n == 0 {
        assert(runs =~= Set::empty());
    } else {
        let tail = frames.drop_first();
        visits_are_runs_of_frames(tail, prefixes, id);
        let m = n - 1;
        let before = Set::new(
            |r: int|
                0 <= r < m && crate::symbol::node_of(tail[m - 1 - r], prefixes).id == id && (r == 0
                    || crate::symbol::node_of(tail[m - 1 - r], prefixes) != crate::symbol::node_of(
                    tail[m - r],
                    prefixes,
                )),
        );
        assert forall|k: int| 0 <= k < m implies #[trigger] tail[k] == frames[k + 1] by {}
        let own = crate::symbol::node_of(frames[0], prefixes);
        let callers = crate::chain::chain(tail, prefixes);
        assert(frames =~= seq![frames[0]] + tail);
        if m > 0 {
            crate::frame_laws::one_more_callee(frames[0], tail, prefixes);
            assert(tail[0] == frames[1]);
        } else {
            assert(crate::chain::chain(frames, prefixes) =~= callers.push(own));
        }
        let starts = m == 0 || own != crate::symbol::node_of(frames[1], prefixes);
        if starts {
            assert(callers.push(own).drop_last() =~= callers);
        }
        if starts && own.id == id {
            assert(runs =~= before.insert(m));
            assert(!before.contains(m));
        } else {
            assert(runs =~= before);
        }
    }
}

/// A stack takes an edge once per call from a frame of the one node to a frame of the other.
pub proof fn crossings_are_calls_between_frames(
    frames: Seq<Seq<char>>,
    prefixes: Seq<Seq<char>>,
    source: Seq<char>,
    target: Seq<char>,
)
    requires
        source != target,
    ensures
        ({
            let n = frames.len() as int;
            let calls = Set::new(
                |r: int|
                    0 < r < n && crate::symbol::node_of(frames[n - r], prefixes).id == source
                        && crate::symbol::node_of(frames[n - 1 - r], prefixes).id == target,
            );
            &&& calls.finite()
            &&& crate::chain::crossings(crate::chain::chain(frames, prefixes), source, target)
                == calls.len()
        }),
    decreases frames.len(),
{
    let n = frames.len() as int;
    let calls = Set::new(
        |r: int|
            0 < r < n && crate::symbol::node_of(frames[n - r], prefixes).id == source
                && crate::symbol::node_of(frames[n - 1 - r], prefixes).id == target,
    );
    if n == 0 {
        assert(calls =~= Set::empty());
    } else {
        let tail = frames.drop_first();
        crossings_are_calls_between_frames(tail, prefixes, source, target);
        let m = n - 1;
        let before = Set::new(
            |r: int|
                0 < r < m && crate::symbol::node_of(tail[m - r], prefixes).id == source
                    && crate::symbol::node_of(tail[m - 1 - r], prefixes).id == target,
        );
        assert forall|k: int| 0 <= k < m implies #[trigger] tail[k] == frames[k + 1] by {}
        let own = crate::symbol::node_of(frames[0], prefixes);
        let callers = crate::chain::chain(tail, prefixes);
        let whole = crate::chain::chain(frames, prefixes);
        assert(frames =~= seq![frames[0]] + tail);
        if m == 0 {
            assert(whole =~= callers.push(own));
            assert(calls =~= before);
        } else {
            crate::frame_laws::one_more_callee(frames[0], tail, prefixes);
            let near = crate::symbol::node_of(tail[0], prefixes);
            assert(tail[0] == frames[1]);
            let places = crate::frame_laws::a_chain_collapses_runs_alone(tail, prefixes);
            assert(callers[places[0]] == near);
            if own != near {
                assert(whole.drop_last() =~= callers);
                assert(whole[whole.len() - 2] == near);
                if near.id == source && own.id == target {
                    assert(calls =~= before.insert(m));
                    assert(!before.contains(m));
                } else {
                    assert(calls =~= before);
                }
            } else {
                assert(calls =~= before);
            }
        }
    }
}

/// One more sampled stack adds to a node its total once per run of its frames in the node, and its
/// off-CPU subtotal likewise. A stack without frames adds nothing. Without stacks, nothing weighs
/// anything.
pub proof fn one_more_stack_adds_its_runs(
    accum: crate::accum::AccumView,
    prefixes: Seq<Seq<char>>,
    stack: Seq<u8>,
    tally: crate::accum::Tally,
    id: Seq<char>,
)
    requires
        accum.stacks.dom().finite(),
        !accum.stacks.contains_key(stack),
    ensures
        ({
            let after = crate::accum::AccumView {
                stacks: accum.stacks.insert(stack, tally),
                ..accum
            };
            let frames = accum.dict[stack];
            let n = frames.len() as int;
            let runs = Set::new(
                |r: int|
                    0 <= r < n && crate::symbol::node_of(frames[n - 1 - r], prefixes).id == id && (r
                        == 0 || crate::symbol::node_of(frames[n - 1 - r], prefixes)
                        != crate::symbol::node_of(frames[n - r], prefixes)),
            ).len();
            &&& accum.dict.contains_key(stack) ==> {
                &&& crate::graph::node_samples(after, prefixes, id) == crate::graph::node_samples(
                    accum,
                    prefixes,
                    id,
                ) + tally.total * runs
                &&& crate::graph::node_off_cpu(after, prefixes, id) == crate::graph::node_off_cpu(
                    accum,
                    prefixes,
                    id,
                ) + tally.off_cpu * runs
            }
            &&& !accum.dict.contains_key(stack) ==> {
                &&& crate::graph::node_samples(after, prefixes, id) == crate::graph::node_samples(
                    accum,
                    prefixes,
                    id,
                )
                &&& crate::graph::node_off_cpu(after, prefixes, id) == crate::graph::node_off_cpu(
                    accum,
                    prefixes,
                    id,
                )
            }
            &&& accum.stacks.dom().len() == 0 ==> crate::graph::node_samples(accum, prefixes, id)
                == 0 && crate::graph::node_off_cpu(accum, prefixes, id) == 0
        }),
{
    let f = crate::graph::sample_weight(accum.dict, prefixes, id);
    let g = crate::graph::off_cpu_weight(accum.dict, prefixes, id);
    crate::id_map::map_sum_after_insert(accum.stacks, f, stack, tally);
    crate::id_map::map_sum_after_insert(accum.stacks, g, stack, tally);
    if accum.dict.contains_key(stack) {
        visits_are_runs_of_frames(accum.dict[stack], prefixes, id);
    } else {
        assert(tally.total * 0nat == 0 && tally.off_cpu * 0nat == 0);
        assert(f(stack, tally) == tally.total * 0nat);
        assert(g(stack, tally) == tally.off_cpu * 0nat);
    }
}

/// One more sampled stack adds to an edge its total once per call from a frame of the one node to
/// a frame of the other. A stack without frames adds nothing.
pub proof fn one_more_stack_adds_its_calls(
    accum: crate::accum::AccumView,
    prefixes: Seq<Seq<char>>,
    stack: Seq<u8>,
    tally: crate::accum::Tally,
    source: Seq<char>,
    target: Seq<char>,
)
    requires
        accum.stacks.dom().finite(),
        !accum.stacks.contains_key(stack),
        source != target,
    ensures
        ({
            let after = crate::accum::AccumView {
                stacks: accum.stacks.insert(stack, tally),
                ..accum
            };
            let frames = accum.dict[stack];
            let n = frames.len() as int;
            let calls = Set::new(
                |r: int|
                    0 < r < n && crate::symbol::node_of(frames[n - r], prefixes).id == source
                        && crate::symbol::node_of(frames[n - 1 - r], prefixes).id == target,
            ).len();
            &&& accum.dict.contains_key(stack) ==> crate::graph::edge_count(
                after,
                prefixes,
                source,
                target,
            ) == crate::graph::edge_count(accum, prefixes, source, target) + tally.total * calls
            &&& !accum.dict.contains_key(stack) ==> crate::graph::edge_count(
                after,
                prefixes,
                source,
                target,
            ) == crate::graph::edge_count(accum, prefixes, source, target)
            &&& accum.stacks.dom().len() == 0 ==> crate::graph::edge_count(
                accum,
                prefixes,
                source,
                target,
            ) == 0
        }),
{
    let f = crate::graph::count_weight(accum.dict, prefixes, source, target);
    crate::id_map::map_sum_after_insert(accum.stacks, f, stack, tally);
    if accum.dict.contains_key(stack) {
        crossings_are_calls_between_frames(accum.dict[stack], prefixes, source, target);
    } else {
        assert(tally.total * 0nat == 0);
        assert(f(stack, tally) == tally.total * 0nat);
    }
}

/// Every frame of a sampled stack has its node in the graph, with its id, crate and module.
pub proof fn every_sampled_frame_has_a_node(
    nodes: Seq<crate::graph::NodeView>,
    accum: crate::accum::AccumView,
    prefixes: Seq<Seq<char>>,
    stack: Seq<u8>,
    k: int,
) -> (at: int)
    requires
        crate::graph::is_node_list(nodes, accum, prefixes),
        accum.stacks.contains_key(stack),
        accum.dict.contains_key(stack),
        0 <= k < accum.dict[stack].len(),
    ensures
        0 <= at < nodes.len(),
        ({
            let node = crate::symbol::node_of(accum.dict[stack][k], prefixes);
            &&& nodes[at].id == node.id
            &&& nodes[at].crate_name == node.crate_name
            &&& nodes[at].module == node.module
        }),
{
    let frames = accum.dict[stack];
    let node = crate::symbol::node_of(frames[k], prefixes);
    crate::chain::chain_members(frames, prefixes, node);
    assert(crate::graph::stack_chain(accum.dict, prefixes, stack).contains(node));
    assert(crate::graph::node_seen(accum, prefixes, node));
    let at = choose|i: int| 0 <= i < nodes.len() && (#[trigger] nodes[i]).id == node.id;
    crate::graph_laws::seen_nodes_have_own_ids(accum, prefixes, nodes[at].key(), node);
    assert(nodes[at].key().crate_name == nodes[at].crate_name);
    assert(nodes[at].key().module == nodes[at].module);
    at
}

/// Every node of the graph is that of some frame of a sampled stack.
pub proof fn every_node_has_a_sampled_frame(
    nodes: Seq<crate::graph::NodeView>,
    accum: crate::accum::AccumView,
    prefixes: Seq<Seq<char>>,
    i: int,
) -> (at: (Seq<u8>, int))
    requires
        crate::graph::is_node_list(nodes, accum, prefixes),
        0 <= i < nodes.len(),
    ensures
        accum.stacks.contains_key(at.0),
        accum.dict.contains_key(at.0),
        0 <= at.1 < accum.dict[at.0].len(),
        ({
            let node = crate::symbol::node_of(accum.dict[at.0][at.1], prefixes);
            &&& nodes[i].id == node.id
            &&& nodes[i].crate_name == node.crate_name
            &&& nodes[i].module == node.module
        }),
        nodes[i].samples == crate::graph::node_samples(accum, prefixes, nodes[i].id),
        nodes[i].off_cpu == crate::graph::node_off_cpu(accum, prefixes, nodes[i].id),
{
    let key = nodes[i].key();
    let stack = choose|stack: Seq<u8>| #[trigger]
        accum.stacks.contains_key(stack) && crate::graph::stack_chain(
            accum.dict,
            prefixes,
            stack,
        ).contains(key);
    let frames = accum.dict[stack];
    crate::chain::chain_members(frames, prefixes, key);
    let k = choose|k: int|
        0 <= k < frames.len() && crate::symbol::node_of(#[trigger] frames[k], prefixes) == key;
    assert(nodes[i].id == key.id && nodes[i].crate_name == key.crate_name && nodes[i].module
        == key.module);
    (stack, k)
}

/// Every call between frames of two nodes, in a sampled stack, has its edge in the graph, from the
/// caller's node to the callee's.
pub proof fn every_sampled_call_has_an_edge(
    edges: Seq<crate::graph::EdgeView>,
    accum: crate::accum::AccumView,
    prefixes: Seq<Seq<char>>,
    stack: Seq<u8>,
    k: int,
) -> (at: int)
    requires
        crate::graph::is_edge_list(edges, accum, prefixes),
        accum.stacks.contains_key(stack),
        accum.dict.contains_key(stack),
        0 <= k < accum.dict[stack].len() - 1,
        crate::symbol::node_of(accum.dict[stack][k], prefixes) != crate::symbol::node_of(
            accum.dict[stack][k + 1],
            prefixes,
        ),
    ensures
        0 <= at < edges.len(),
        edges[at].source == crate::symbol::node_of(accum.dict[stack][k + 1], prefixes).id,
        edges[at].target == crate::symbol::node_of(accum.dict[stack][k], prefixes).id,
        edges[at].count == crate::graph::edge_count(
            accum,
            prefixes,
            edges[at].source,
            edges[at].target,
        ),
{
    let frames = accum.dict[stack];
    let p = crate::frame_laws::every_call_between_nodes_is_a_transition(frames, prefixes, k);
    let chain = crate::graph::stack_chain(accum.dict, prefixes, stack);
    let source = crate::symbol::node_of(frames[k + 1], prefixes).id;
    let target = crate::symbol::node_of(frames[k], prefixes).id;
    assert(chain[p].id == target && chain[p - 1].id == source);
    assert(crate::graph::adjacent(chain, source, target));
    assert(crate::graph::edge_seen(accum, prefixes, source, target));
    choose|i: int|
        0 <= i < edges.len() && (#[trigger] edges[i]).source == source && edges[i].target == target
}

/// Every edge of the graph is that of some call between frames of two nodes in a sampled stack.
pub proof fn every_edge_has_a_sampled_call(
    edges: Seq<crate::graph::EdgeView>,
    accum: crate::accum::AccumView,
    prefixes: Seq<Seq<char>>,
    i: int,
) -> (at: (Seq<u8>, int))
    requires
        crate::graph::is_edge_list(edges, accum, prefixes),
        0 <= i < edges.len(),
    ensures
        accum.stacks.contains_key(at.0),
        accum.dict.contains_key(at.0),
        0 <= at.1 < accum.dict[at.0].len() - 1,
        edges[i].source == crate::symbol::node_of(accum.dict[at.0][at.1 + 1], prefixes).id,
        edges[i].target == crate::symbol::node_of(accum.dict[at.0][at.1], prefixes).id,
        edges[i].source != edges[i].target,
{
    let source = edges[i].source;
    let target = edges[i].target;
    crate::graph_laws::no_edge_to_itself(edges, accum, prefixes);
    let stack = choose|stack: Seq<u8>| #[trigger]
        accum.stacks.contains_key(stack) && crate::graph::adjacent(
            crate::graph::stack_chain(accum.dict, prefixes, stack),
            source,
            target,
        );
    let chain = crate::graph::stack_chain(accum.dict, prefixes, stack);
    let p = choose|p: int|
        0 < p < chain.len() && chain[p - 1].id == source && (#[trigger] chain[p]).id == target;
    let k = crate::frame_laws::every_transition_is_a_call_between_nodes(
        accum.dict[stack],
        prefixes,
        p,
    );
    (stack, k)
}

/// The order of the lists: nodes by samples, most first, and by id among equals; edges by count,
/// largest first; and neither a node nor an edge twice.
pub proof fn lists_are_ordered(
    nodes: Seq<crate::graph::NodeView>,
    edges: Seq<crate::graph::EdgeView>,
    accum: crate::accum::AccumView,
    prefixes: Seq<Seq<char>>,
    i: int,
    j: int,
)
    requires
        crate::graph::is_node_list(nodes, accum, prefixes),
        crate::graph::is_edge_list(edges, accum, prefixes),
        0 <= i < j,
    ensures
        j < nodes.len() ==> {
            &&& nodes[i].samples >= nodes[j].samples
            &&& nodes[i].samples == nodes[j].samples ==> crate::order::text_before(
                nodes[i].id,
                nodes[j].id,
            )
            &&& nodes[i].id != nodes[j].id
        },
        j < edges.len() ==> {
            &&& edges[i].count >= edges[j].count
            &&& edges[i].source != edges[j].source || edges[i].target != edges[j].target
        },
{
    crate::flow_laws::listed_nodes_are_distinct(nodes, accum, prefixes);
    if j < nodes.len() {
        assert(crate::graph::node_goes_first(nodes[i], nodes[j]));
    }
}

/// A graph fits exactly when no weight of any node or edge exceeds the largest `u64`.
pub proof fn fitting_is_a_bound_on_weights(
    accum: crate::accum::AccumView,
    prefixes: Seq<Seq<char>>,
    id: Seq<char>,
    source: Seq<char>,
    target: Seq<char>,
)
    ensures
        crate::graph::graph_fits(accum, prefixes) ==> {
            &&& crate::graph::node_samples(accum, prefixes, id) <= 0xffff_ffff_ffff_ffff
            &&& crate::graph::node_off_cpu(accum, prefixes, id) <= 0xffff_ffff_ffff_ffff
            &&& crate::graph::edge_count(accum, prefixes, source, target) <= 0xffff_ffff_ffff_ffff
        },
        !crate::graph::graph_fits(accum, prefixes) ==> exists|x: Seq<char>, y: Seq<char>|
            #![trigger crate::graph::edge_count(accum, prefixes, x, y)]
            crate::graph::node_samples(accum, prefixes, x) > 0xffff_ffff_ffff_ffff
                || crate::graph::node_off_cpu(accum, prefixes, x) > 0xffff_ffff_ffff_ffff
                || crate::graph::edge_count(accum, prefixes, x, y) > 0xffff_ffff_ffff_ffff,
{
    if !crate::graph::graph_fits(accum, prefixes) {
        if exists|x: Seq<char>| #[trigger]
            crate::graph::node_samples(accum, prefixes, x) > 0xffff_ffff_ffff_ffff {
            let x = choose|x: Seq<char>| #[trigger]
                crate::graph::node_samples(accum, prefixes, x) > 0xffff_ffff_ffff_ffff;
            let c = crate::graph::edge_count(accum, prefixes, x, x);
        } else if exists|x: Seq<char>| #[trigger]
            crate::graph::node_off_cpu(accum, prefixes, x) > 0xffff_ffff_ffff_ffff {
            let x = choose|x: Seq<char>| #[trigger]
                crate::graph::node_off_cpu(accum, prefixes, x) > 0xffff_ffff_ffff_ffff;
            let c = crate::graph::edge_count(accum, prefixes, x, x);
        }
    }
}

/// What lists of nodes and edges are said to hold is what their elements hold.
pub proof fn lists_hold_their_elements(nodes: Seq<GraphNode>, edges: Seq<GraphEdge>, i: int)
    ensures
        crate::graph::node_views(nodes).len() == nodes.len(),
        crate::graph::edge_views(edges).len() == edges.len(),
        0 <= i < nodes.len() ==> {
            let node = crate::graph::node_views(nodes)[i];
            &&& node.id == nodes[i].id@
            &&& node.crate_name == nodes[i].crate_name@
            &&& node.module == nodes[i].module@
            &&& node.samples == nodes[i].samples
            &&& node.off_cpu == nodes[i].off_cpu
        },
        0 <= i < edges.len() ==> {
            let edge = crate::graph::edge_views(edges)[i];
            &&& edge.source == edges[i].source@
            &&& edge.target == edges[i].target@
            &&& edge.count == edges[i].count
        },
{
}

} // verus!
