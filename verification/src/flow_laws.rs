//! How the weights of nodes and edges hang together.
use vstd::prelude::*;

verus! {

/// The samples of all listed nodes together.
pub open spec fn all_samples(nodes: Seq<crate::graph::NodeView>) -> nat
    decreases nodes.len(),
{
    if nodes.len() == 0 {
        0
    } else {
        all_samples(nodes.drop_last()) + nodes.last().samples
    }
}

/// The counts of all listed edges together.
pub open spec fn all_counts(edges: Seq<crate::graph::EdgeView>) -> nat
    decreases edges.len(),
{
    if edges.len() == 0 {
        0
    } else {
        all_counts(edges.drop_last()) + edges.last().count
    }
}

/// A stack's total, if any frame of it is known.
pub open spec fn framed_total(
    dict: Map<Seq<u8>, Seq<Seq<char>>>,
    prefixes: Seq<Seq<char>>,
) -> spec_fn(Seq<u8>, crate::accum::Tally) -> nat {
    |stack: Seq<u8>, tally: crate::accum::Tally|
        if crate::graph::stack_chain(dict, prefixes, stack).len() > 0 {
            tally.total
        } else {
            0
        }
}

/// How often a chain visits any of the listed nodes.
spec fn listed_visits(
    chain: Seq<crate::symbol::NodeKey>,
    nodes: Seq<crate::graph::NodeView>,
) -> nat
    decreases nodes.len(),
{
    if nodes.len() == 0 {
        0
    } else {
        listed_visits(chain, nodes.drop_last()) + crate::chain::visits(chain, nodes.last().id)
    }
}

/// How often a chain takes any of the listed edges.
spec fn listed_crossings(
    chain: Seq<crate::symbol::NodeKey>,
    edges: Seq<crate::graph::EdgeView>,
) -> nat
    decreases edges.len(),
{
    if edges.len() == 0 {
        0
    } else {
        listed_crossings(chain, edges.drop_last()) + crate::chain::crossings(
            chain,
            edges.last().source,
            edges.last().target,
        )
    }
}

spec fn visit_weight(
    dict: Map<Seq<u8>, Seq<Seq<char>>>,
    prefixes: Seq<Seq<char>>,
    nodes: Seq<crate::graph::NodeView>,
) -> spec_fn(Seq<u8>, crate::accum::Tally) -> nat {
    |stack: Seq<u8>, tally: crate::accum::Tally|
        tally.total * listed_visits(crate::graph::stack_chain(dict, prefixes, stack), nodes)
}

spec fn crossing_weight(
    dict: Map<Seq<u8>, Seq<Seq<char>>>,
    prefixes: Seq<Seq<char>>,
    edges: Seq<crate::graph::EdgeView>,
) -> spec_fn(Seq<u8>, crate::accum::Tally) -> nat {
    |stack: Seq<u8>, tally: crate::accum::Tally|
        tally.total * listed_crossings(crate::graph::stack_chain(dict, prefixes, stack), edges)
}

proof fn sums_add<V>(
    map: Map<Seq<u8>, V>,
    f: spec_fn(Seq<u8>, V) -> nat,
    g: spec_fn(Seq<u8>, V) -> nat,
    h: spec_fn(Seq<u8>, V) -> nat,
)
    requires
        map.dom().finite(),
        forall|id: Seq<u8>| #[trigger]
            map.contains_key(id) ==> h(id, map[id]) == f(id, map[id]) + g(id, map[id]),
    ensures
        crate::id_map::map_sum(map, h) == crate::id_map::map_sum(map, f)
            + crate::id_map::map_sum(map, g),
    decreases map.dom().len(),
{
    if map.dom().len() > 0 {
        let id = map.dom().choose();
        assert(map.contains_key(id));
        assert forall|k: Seq<u8>| #[trigger] map.remove(id).contains_key(k) implies h(
            k,
            map.remove(id)[k],
        ) == f(k, map.remove(id)[k]) + g(k, map.remove(id)[k]) by {
            assert(map.contains_key(k));
        }
        sums_add(map.remove(id), f, g, h);
    }
}

proof fn sum_of_nothing<V>(map: Map<Seq<u8>, V>, f: spec_fn(Seq<u8>, V) -> nat)
    requires
        map.dom().finite(),
        forall|id: Seq<u8>| #[trigger] map.contains_key(id) ==> f(id, map[id]) == 0,
    ensures
        crate::id_map::map_sum(map, f) == 0,
{
    sums_add(map, f, f, f);
}

proof fn samples_sum_over_stacks(
    nodes: Seq<crate::graph::NodeView>,
    accum: crate::accum::AccumView,
    prefixes: Seq<Seq<char>>,
)
    requires
        accum.stacks.dom().finite(),
        forall|i: int|
            0 <= i < nodes.len() ==> (#[trigger] nodes[i]).samples == crate::graph::node_samples(
                accum,
                prefixes,
                nodes[i].id,
            ),
    ensures
        all_samples(nodes) == crate::id_map::map_sum(
            accum.stacks,
            visit_weight(accum.dict, prefixes, nodes),
        ),
    decreases nodes.len(),
{
    let h = visit_weight(accum.dict, prefixes, nodes);
    if nodes.len() == 0 {
        assert forall|stack: Seq<u8>| #[trigger] accum.stacks.contains_key(stack) implies h(
            stack,
            accum.stacks[stack],
        ) == 0 by {
            assert(accum.stacks[stack].total * 0nat == 0);
        }
        sum_of_nothing(accum.stacks, h);
    } else {
        let rest = nodes.drop_last();
        assert forall|i: int| 0 <= i < rest.len() implies (#[trigger] rest[i]).samples
            == crate::graph::node_samples(accum, prefixes, rest[i].id) by {
            assert(rest[i] == nodes[i]);
        }
        samples_sum_over_stacks(rest, accum, prefixes);
        assert(nodes[nodes.len() - 1] == nodes.last());
        let f = visit_weight(accum.dict, prefixes, rest);
        let g = crate::graph::sample_weight(accum.dict, prefixes, nodes.last().id);
        assert forall|stack: Seq<u8>| #[trigger] accum.stacks.contains_key(stack) implies h(
            stack,
            accum.stacks[stack],
        ) == f(stack, accum.stacks[stack]) + g(stack, accum.stacks[stack]) by {
            let chain = crate::graph::stack_chain(accum.dict, prefixes, stack);
            let t = accum.stacks[stack].total;
            let x = listed_visits(chain, rest);
            let y = crate::chain::visits(chain, nodes.last().id);
            assert(t * (x + y) == t * x + t * y) by (nonlinear_arith);
        }
        sums_add(accum.stacks, f, g, h);
    }
}

proof fn counts_sum_over_stacks(
    edges: Seq<crate::graph::EdgeView>,
    accum: crate::accum::AccumView,
    prefixes: Seq<Seq<char>>,
)
    requires
        accum.stacks.dom().finite(),
        forall|i: int|
            0 <= i < edges.len() ==> (#[trigger] edges[i]).count == crate::graph::edge_count(
                accum,
                prefixes,
                edges[i].source,
                edges[i].target,
            ),
    ensures
        all_counts(edges) == crate::id_map::map_sum(
            accum.stacks,
            crossing_weight(accum.dict, prefixes, edges),
        ),
    decreases edges.len(),
{
    let h = crossing_weight(accum.dict, prefixes, edges);
    if edges.len() == 0 {
        assert forall|stack: Seq<u8>| #[trigger] accum.stacks.contains_key(stack) implies h(
            stack,
            accum.stacks[stack],
        ) == 0 by {
            assert(accum.stacks[stack].total * 0nat == 0);
        }
        sum_of_nothing(accum.stacks, h);
    } else {
        let rest = edges.drop_last();
        assert forall|i: int| 0 <= i < rest.len() implies (#[trigger] rest[i]).count
            == crate::graph::edge_count(accum, prefixes, rest[i].source, rest[i].target) by {
            assert(rest[i] == edges[i]);
        }
        counts_sum_over_stacks(rest, accum, prefixes);
        let last = edges.last();
        assert(edges[edges.len() - 1] == last);
        let f = crossing_weight(accum.dict, prefixes, rest);
        let g = crate::graph::count_weight(accum.dict, prefixes, last.source, last.target);
        assert forall|stack: Seq<u8>| #[trigger] accum.stacks.contains_key(stack) implies h(
            stack,
            accum.stacks[stack],
        ) == f(stack, accum.stacks[stack]) + g(stack, accum.stacks[stack]) by {
            let chain = crate::graph::stack_chain(accum.dict, prefixes, stack);
            let t = accum.stacks[stack].total;
            let x = listed_crossings(chain, rest);
            let y = crate::chain::crossings(chain, last.source, last.target);
            assert(t * (x + y) == t * x + t * y) by (nonlinear_arith);
        }
        sums_add(accum.stacks, f, g, h);
    }
}

/// One more hop to a node is one more visit to a listed node if the node is listed, and none
/// else.
proof fn one_more_listed_visit(
    chain: Seq<crate::symbol::NodeKey>,
    nodes: Seq<crate::graph::NodeView>,
)
    requires
        chain.len() > 0,
        crate::graph::distinct_nodes(nodes),
    ensures
        listed_visits(chain, nodes) == listed_visits(chain.drop_last(), nodes)
            + if crate::graph::has_node(nodes, chain.last().id) {
            1nat
        } else {
            0nat
        },
    decreases nodes.len(),
{
    if nodes.len() > 0 {
        let rest = nodes.drop_last();
        let id = chain.last().id;
        assert forall|i: int, j: int|
            #![trigger rest[i], rest[j]]
            0 <= i < j < rest.len() implies rest[i].id != rest[j].id by {
            assert(rest[i] == nodes[i] && rest[j] == nodes[j]);
        }
        one_more_listed_visit(chain, rest);
        let last = nodes.len() - 1;
        assert(nodes[last] == nodes.last());
        if crate::graph::has_node(rest, id) {
            let i = choose|i: int| 0 <= i < rest.len() && (#[trigger] rest[i]).id == id;
            assert(nodes[i] == rest[i]);
            assert(nodes[i].id != nodes[last].id);
        } else if crate::graph::has_node(nodes, id) {
            let i = choose|i: int| 0 <= i < nodes.len() && (#[trigger] nodes[i]).id == id;
            if i < last {
                assert(rest[i] == nodes[i]);
            }
        }
    }
}

/// A chain whose nodes are all listed visits listed nodes as often as it is long.
proof fn listed_visits_are_hops(
    chain: Seq<crate::symbol::NodeKey>,
    nodes: Seq<crate::graph::NodeView>,
)
    requires
        crate::graph::distinct_nodes(nodes),
        forall|k: int|
            0 <= k < chain.len() ==> crate::graph::has_node(nodes, (#[trigger] chain[k]).id),
    ensures
        listed_visits(chain, nodes) == chain.len(),
    decreases chain.len(),
{
    if chain.len() == 0 {
        no_hop_no_visit(chain, nodes);
    } else {
        let rest = chain.drop_last();
        assert forall|k: int| 0 <= k < rest.len() implies crate::graph::has_node(
            nodes,
            (#[trigger] rest[k]).id,
        ) by {
            assert(rest[k] == chain[k]);
        }
        listed_visits_are_hops(rest, nodes);
        assert(chain[chain.len() - 1] == chain.last());
        one_more_listed_visit(chain, nodes);
    }
}

proof fn no_hop_no_visit(
    chain: Seq<crate::symbol::NodeKey>,
    nodes: Seq<crate::graph::NodeView>,
)
    requires
        chain.len() == 0,
    ensures
        listed_visits(chain, nodes) == 0,
    decreases nodes.len(),
{
    if nodes.len() > 0 {
        no_hop_no_visit(chain, nodes.drop_last());
    }
}

/// One more hop is one more crossing of a listed edge if its edge is listed, and none else.
proof fn one_more_listed_crossing(
    chain: Seq<crate::symbol::NodeKey>,
    edges: Seq<crate::graph::EdgeView>,
)
    requires
        chain.len() >= 2,
        crate::graph::distinct_edges(edges),
    ensures
        listed_crossings(chain, edges) == listed_crossings(chain.drop_last(), edges)
            + if crate::graph::has_edge(edges, chain[chain.len() - 2].id, chain.last().id) {
            1nat
        } else {
            0nat
        },
    decreases edges.len(),
{
    if edges.len() > 0 {
        let rest = edges.drop_last();
        let source = chain[chain.len() - 2].id;
        let target = chain.last().id;
        assert forall|i: int, j: int|
            #![trigger rest[i], rest[j]]
            0 <= i < j < rest.len() implies rest[i].source != rest[j].source || rest[i].target
            != rest[j].target by {
            assert(rest[i] == edges[i] && rest[j] == edges[j]);
        }
        one_more_listed_crossing(chain, rest);
        let last = edges.len() - 1;
        assert(edges[last] == edges.last());
        if crate::graph::has_edge(rest, source, target) {
            let i = choose|i: int|
                0 <= i < rest.len() && (#[trigger] rest[i]).source == source && rest[i].target
                    == target;
            assert(edges[i] == rest[i]);
            assert(edges[i].source != edges[last].source || edges[i].target
                != edges[last].target);
        } else if crate::graph::has_edge(edges, source, target) {
            let i = choose|i: int|
                0 <= i < edges.len() && (#[trigger] edges[i]).source == source && edges[i].target
                    == target;
            if i < last {
                assert(rest[i] == edges[i]);
            }
        }
    }
}

/// A chain whose transitions are all listed takes listed edges once per hop after the first.
proof fn listed_crossings_are_hops(
    chain: Seq<crate::symbol::NodeKey>,
    edges: Seq<crate::graph::EdgeView>,
)
    requires
        crate::graph::distinct_edges(edges),
        forall|k: int|
            0 < k < chain.len() ==> crate::graph::has_edge(
                edges,
                chain[k - 1].id,
                (#[trigger] chain[k]).id,
            ),
    ensures
        listed_crossings(chain, edges) + if chain.len() > 0 {
            1nat
        } else {
            0nat
        } == chain.len(),
    decreases chain.len(),
{
    if chain.len() < 2 {
        one_hop_no_crossing(chain, edges);
    } else {
        let rest = chain.drop_last();
        assert forall|k: int| 0 < k < rest.len() implies crate::graph::has_edge(
            edges,
            rest[k - 1].id,
            (#[trigger] rest[k]).id,
        ) by {
            assert(rest[k] == chain[k] && rest[k - 1] == chain[k - 1]);
        }
        listed_crossings_are_hops(rest, edges);
        assert(chain[chain.len() - 1] == chain.last());
        one_more_listed_crossing(chain, edges);
    }
}

proof fn one_hop_no_crossing(
    chain: Seq<crate::symbol::NodeKey>,
    edges: Seq<crate::graph::EdgeView>,
)
    requires
        chain.len() < 2,
    ensures
        listed_crossings(chain, edges) == 0,
    decreases edges.len(),
{
    if edges.len() > 0 {
        one_hop_no_crossing(chain, edges.drop_last());
    }
}

/// No two nodes of a listed graph have the same id.
pub proof fn listed_nodes_are_distinct(
    nodes: Seq<crate::graph::NodeView>,
    accum: crate::accum::AccumView,
    prefixes: Seq<Seq<char>>,
)
    requires
        crate::graph::is_node_list(nodes, accum, prefixes),
    ensures
        crate::graph::distinct_nodes(nodes),
{
    assert forall|i: int, j: int|
        #![trigger nodes[i], nodes[j]]
        0 <= i < j < nodes.len() implies nodes[i].id != nodes[j].id by {
        assert(crate::graph::node_goes_first(nodes[i], nodes[j]));
        crate::order::precedes_is_strict(
            crate::order::char_codes(nodes[i].id),
            crate::order::char_codes(nodes[j].id),
        );
    }
}

/// Every stack with known frames enters the graph at one node and from there takes one edge per
/// further node: all node samples together exceed all edge counts together by one tally for each
/// such stack.
pub proof fn samples_exceed_counts_by_entries(
    nodes: Seq<crate::graph::NodeView>,
    edges: Seq<crate::graph::EdgeView>,
    accum: crate::accum::AccumView,
    prefixes: Seq<Seq<char>>,
)
    requires
        accum.stacks.dom().finite(),
        crate::graph::is_node_list(nodes, accum, prefixes),
        crate::graph::is_edge_list(edges, accum, prefixes),
    ensures
        all_samples(nodes) == all_counts(edges) + crate::id_map::map_sum(
            accum.stacks,
            framed_total(accum.dict, prefixes),
        ),
{
    listed_nodes_are_distinct(nodes, accum, prefixes);
    samples_sum_over_stacks(nodes, accum, prefixes);
    counts_sum_over_stacks(edges, accum, prefixes);
    let f = crossing_weight(accum.dict, prefixes, edges);
    let g = framed_total(accum.dict, prefixes);
    let h = visit_weight(accum.dict, prefixes, nodes);
    assert forall|stack: Seq<u8>| #[trigger] accum.stacks.contains_key(stack) implies h(
        stack,
        accum.stacks[stack],
    ) == f(stack, accum.stacks[stack]) + g(stack, accum.stacks[stack]) by {
        let chain = crate::graph::stack_chain(accum.dict, prefixes, stack);
        let t = accum.stacks[stack].total;
        assert forall|k: int| 0 <= k < chain.len() implies crate::graph::has_node(
            nodes,
            (#[trigger] chain[k]).id,
        ) by {
            assert(chain.contains(chain[k]));
            assert(crate::graph::node_seen(accum, prefixes, chain[k]));
        }
        assert forall|k: int| 0 < k < chain.len() implies crate::graph::has_edge(
            edges,
            chain[k - 1].id,
            (#[trigger] chain[k]).id,
        ) by {
            assert(crate::graph::adjacent(chain, chain[k - 1].id, chain[k].id));
            assert(crate::graph::edge_seen(accum, prefixes, chain[k - 1].id, chain[k].id));
        }
        listed_visits_are_hops(chain, nodes);
        listed_crossings_are_hops(chain, edges);
        let x = listed_crossings(chain, edges);
        assert(t * (x + 1) == t * x + t) by (nonlinear_arith);
        assert(t * 0nat == 0);
    }
    sums_add(accum.stacks, f, g, h);
}

} // verus!
