//! What holds of every graph.
use vstd::prelude::*;

verus! {

/// An accumulator's off-CPU subtotals are subtotals.
pub open spec fn subtotals(stacks: Map<Seq<u8>, crate::accum::Tally>) -> bool {
    &&& stacks.dom().finite()
    &&& forall|stack: Seq<u8>| #[trigger]
        stacks.contains_key(stack) ==> stacks[stack].off_cpu <= stacks[stack].total
}

proof fn sums_compare<V>(
    map: Map<Seq<u8>, V>,
    f: spec_fn(Seq<u8>, V) -> nat,
    g: spec_fn(Seq<u8>, V) -> nat,
)
    requires
        map.dom().finite(),
        forall|id: Seq<u8>| #[trigger] map.contains_key(id) ==> f(id, map[id]) <= g(id, map[id]),
    ensures
        crate::id_map::map_sum(map, f) <= crate::id_map::map_sum(map, g),
    decreases map.dom().len(),
{
    if map.dom().len() > 0 {
        let id = map.dom().choose();
        assert(map.contains_key(id));
        assert forall|k: Seq<u8>| #[trigger] map.remove(id).contains_key(k) implies f(
            k,
            map.remove(id)[k],
        ) <= g(k, map.remove(id)[k]) by {
            assert(map.contains_key(k));
        }
        sums_compare(map.remove(id), f, g);
    }
}

/// A node's off-CPU subtotal never exceeds its samples.
pub proof fn off_cpu_is_a_subtotal(
    accum: crate::accum::AccumView,
    prefixes: Seq<Seq<char>>,
    id: Seq<char>,
)
    requires
        subtotals(accum.stacks),
    ensures
        crate::graph::node_off_cpu(accum, prefixes, id) <= crate::graph::node_samples(
            accum,
            prefixes,
            id,
        ),
{
    let f = crate::graph::off_cpu_weight(accum.dict, prefixes, id);
    let g = crate::graph::sample_weight(accum.dict, prefixes, id);
    assert forall|stack: Seq<u8>| #[trigger] accum.stacks.contains_key(stack) implies f(
        stack,
        accum.stacks[stack],
    ) <= g(stack, accum.stacks[stack]) by {
        let tally = accum.stacks[stack];
        let visits = crate::chain::visits(
            crate::graph::stack_chain(accum.dict, prefixes, stack),
            id,
        );
        assert(tally.off_cpu * visits <= tally.total * visits) by (nonlinear_arith)
            requires
                tally.off_cpu <= tally.total,
        ;
    }
    sums_compare(accum.stacks, f, g);
}

/// In a listed graph no node's off-CPU subtotal exceeds its samples.
pub proof fn listed_off_cpu_is_a_subtotal(
    nodes: Seq<crate::graph::NodeView>,
    accum: crate::accum::AccumView,
    prefixes: Seq<Seq<char>>,
)
    requires
        subtotals(accum.stacks),
        crate::graph::is_node_list(nodes, accum, prefixes),
    ensures
        forall|i: int|
            0 <= i < nodes.len() ==> (#[trigger] nodes[i]).off_cpu <= nodes[i].samples,
{
    assert forall|i: int| 0 <= i < nodes.len() implies (#[trigger] nodes[i]).off_cpu
        <= nodes[i].samples by {
        off_cpu_is_a_subtotal(accum, prefixes, nodes[i].id);
    }
}

/// No edge leads from a node to itself.
pub proof fn no_edge_to_itself(
    edges: Seq<crate::graph::EdgeView>,
    accum: crate::accum::AccumView,
    prefixes: Seq<Seq<char>>,
)
    requires
        crate::graph::is_edge_list(edges, accum, prefixes),
    ensures
        forall|i: int| 0 <= i < edges.len() ==> (#[trigger] edges[i]).source != edges[i].target,
{
    assert forall|i: int| 0 <= i < edges.len() implies (#[trigger] edges[i]).source
        != edges[i].target by {
        let source = edges[i].source;
        let target = edges[i].target;
        let stack = choose|stack: Seq<u8>| #[trigger]
            accum.stacks.contains_key(stack) && crate::graph::adjacent(
                crate::graph::stack_chain(accum.dict, prefixes, stack),
                source,
                target,
            );
        let chain = crate::graph::stack_chain(accum.dict, prefixes, stack);
        let k = choose|k: int|
            0 < k < chain.len() && chain[k - 1].id == source && (#[trigger] chain[k]).id == target;
        crate::chain::neighbours_differ(accum.dict[stack], prefixes, k);
    }
}

/// Both ends of every edge are nodes of the graph.
pub proof fn edges_join_nodes(
    nodes: Seq<crate::graph::NodeView>,
    edges: Seq<crate::graph::EdgeView>,
    accum: crate::accum::AccumView,
    prefixes: Seq<Seq<char>>,
)
    requires
        crate::graph::is_node_list(nodes, accum, prefixes),
        crate::graph::is_edge_list(edges, accum, prefixes),
    ensures
        forall|i: int|
            0 <= i < edges.len() ==> crate::graph::has_node(nodes, (#[trigger] edges[i]).source)
                && crate::graph::has_node(nodes, edges[i].target),
{
    assert forall|i: int| 0 <= i < edges.len() implies crate::graph::has_node(
        nodes,
        (#[trigger] edges[i]).source,
    ) && crate::graph::has_node(nodes, edges[i].target) by {
        let source = edges[i].source;
        let target = edges[i].target;
        let stack = choose|stack: Seq<u8>| #[trigger]
            accum.stacks.contains_key(stack) && crate::graph::adjacent(
                crate::graph::stack_chain(accum.dict, prefixes, stack),
                source,
                target,
            );
        let chain = crate::graph::stack_chain(accum.dict, prefixes, stack);
        let k = choose|k: int|
            0 < k < chain.len() && chain[k - 1].id == source && (#[trigger] chain[k]).id == target;
        assert(chain.contains(chain[k]) && chain.contains(chain[k - 1]));
        assert(crate::graph::node_seen(accum, prefixes, chain[k]));
        assert(crate::graph::node_seen(accum, prefixes, chain[k - 1]));
    }
}

proof fn crossings_end_in_visits(
    chain: Seq<crate::symbol::NodeKey>,
    source: Seq<char>,
    target: Seq<char>,
)
    ensures
        crate::chain::crossings(chain, source, target) <= crate::chain::visits(chain, target),
        crate::chain::crossings(chain, source, target) <= crate::chain::visits(chain, source),
        chain.len() > 0 ==> crate::chain::crossings(chain, source, target)
            <= crate::chain::visits(chain.drop_last(), source),
    decreases chain.len(),
{
    if chain.len() > 0 {
        crossings_end_in_visits(chain.drop_last(), source, target);
        if chain.len() >= 2 {
            assert(chain.drop_last().last() == chain[chain.len() - 2]);
        }
    }
}

/// An edge is taken no more often than its two ends are visited.
pub proof fn edge_count_is_bounded(
    accum: crate::accum::AccumView,
    prefixes: Seq<Seq<char>>,
    source: Seq<char>,
    target: Seq<char>,
)
    requires
        accum.stacks.dom().finite(),
    ensures
        crate::graph::edge_count(accum, prefixes, source, target) <= crate::graph::node_samples(
            accum,
            prefixes,
            source,
        ),
        crate::graph::edge_count(accum, prefixes, source, target) <= crate::graph::node_samples(
            accum,
            prefixes,
            target,
        ),
{
    let f = crate::graph::count_weight(accum.dict, prefixes, source, target);
    let g = crate::graph::sample_weight(accum.dict, prefixes, source);
    let h = crate::graph::sample_weight(accum.dict, prefixes, target);
    assert forall|stack: Seq<u8>| #[trigger] accum.stacks.contains_key(stack) implies f(
        stack,
        accum.stacks[stack],
    ) <= g(stack, accum.stacks[stack]) && f(stack, accum.stacks[stack]) <= h(
        stack,
        accum.stacks[stack],
    ) by {
        let tally = accum.stacks[stack];
        let chain = crate::graph::stack_chain(accum.dict, prefixes, stack);
        crossings_end_in_visits(chain, source, target);
        let c = crate::chain::crossings(chain, source, target);
        let vs = crate::chain::visits(chain, source);
        let vt = crate::chain::visits(chain, target);
        assert(tally.total * c <= tally.total * vs && tally.total * c <= tally.total * vt)
            by (nonlinear_arith)
            requires
                c <= vs,
                c <= vt,
        ;
    }
    sums_compare(accum.stacks, f, g);
    sums_compare(accum.stacks, f, h);
}

/// The nodes of one accumulator share no id unless they are the same node.
pub proof fn seen_nodes_have_own_ids(
    accum: crate::accum::AccumView,
    prefixes: Seq<Seq<char>>,
    a: crate::symbol::NodeKey,
    b: crate::symbol::NodeKey,
)
    requires
        crate::graph::node_seen(accum, prefixes, a),
        crate::graph::node_seen(accum, prefixes, b),
        a.id == b.id,
    ensures
        a == b,
{
    let (fa, fb) = (frame_of_seen_node(accum, prefixes, a), frame_of_seen_node(accum, prefixes, b));
    crate::symbol::node_id_determines_node(fa, prefixes, fb, prefixes);
}

/// Each node of the graph comes from a frame of a sampled stack.
proof fn frame_of_seen_node(
    accum: crate::accum::AccumView,
    prefixes: Seq<Seq<char>>,
    key: crate::symbol::NodeKey,
) -> (frame: Seq<char>)
    requires
        crate::graph::node_seen(accum, prefixes, key),
    ensures
        crate::symbol::node_of(frame, prefixes) == key,
{
    let stack = choose|stack: Seq<u8>| #[trigger]
        accum.stacks.contains_key(stack) && crate::graph::stack_chain(
            accum.dict,
            prefixes,
            stack,
        ).contains(key);
    let frames = accum.dict[stack];
    crate::chain::chain_members(frames, prefixes, key);
    let k = choose|k: int|
        0 <= k < frames.len() && crate::symbol::node_of(#[trigger] frames[k], prefixes) == key;
    frames[k]
}

/// A node of the graph is the runtime, or a module of a crate that starts with one of the
/// prefixes.
pub proof fn nodes_are_runtime_or_app_modules(
    nodes: Seq<crate::graph::NodeView>,
    accum: crate::accum::AccumView,
    prefixes: Seq<Seq<char>>,
)
    requires
        crate::graph::is_node_list(nodes, accum, prefixes),
    ensures
        forall|i: int|
            0 <= i < nodes.len() ==> (#[trigger] nodes[i]).key() == crate::symbol::runtime_key()
                || (crate::symbol::is_app(nodes[i].crate_name, prefixes) && nodes[i].key()
                == crate::symbol::module_key(nodes[i].crate_name, nodes[i].module)),
{
    assert forall|i: int| 0 <= i < nodes.len() implies (#[trigger] nodes[i]).key()
        == crate::symbol::runtime_key() || (crate::symbol::is_app(nodes[i].crate_name, prefixes)
        && nodes[i].key() == crate::symbol::module_key(
        nodes[i].crate_name,
        nodes[i].module,
    )) by {
        let frame = frame_of_seen_node(accum, prefixes, nodes[i].key());
    }
}

/// The accumulator and the prefixes determine the list of nodes.
pub proof fn node_list_is_unique(
    a: Seq<crate::graph::NodeView>,
    b: Seq<crate::graph::NodeView>,
    accum: crate::accum::AccumView,
    prefixes: Seq<Seq<char>>,
)
    requires
        crate::graph::is_node_list(a, accum, prefixes),
        crate::graph::is_node_list(b, accum, prefixes),
    ensures
        a == b,
{
    same_nodes_up_to(a, b, accum, prefixes, a.len() as int);
    same_nodes_up_to(b, a, accum, prefixes, b.len() as int);
    assert(a =~= b);
}

proof fn same_nodes_up_to(
    a: Seq<crate::graph::NodeView>,
    b: Seq<crate::graph::NodeView>,
    accum: crate::accum::AccumView,
    prefixes: Seq<Seq<char>>,
    n: int,
)
    requires
        crate::graph::is_node_list(a, accum, prefixes),
        crate::graph::is_node_list(b, accum, prefixes),
        0 <= n <= a.len(),
    ensures
        n <= b.len(),
        forall|i: int| 0 <= i < n ==> #[trigger] a[i] == b[i],
    decreases n,
{
    if n > 0 {
        let last = n - 1;
        same_nodes_up_to(a, b, accum, prefixes, last);
        let j = where_node_stands(a[last], b, accum, prefixes);
        if j < last {
            assert(a[j] == b[j]);
            crate::node_table::first_is_not_second(a[j], a[last]);
        } else if j > last {
            let i = where_node_stands(b[last], a, accum, prefixes);
            if i < last {
                assert(a[i] == b[i]);
                crate::node_table::first_is_not_second(b[i], b[last]);
            } else if i > last {
                assert(crate::graph::node_goes_first(a[last], a[i]));
                assert(crate::graph::node_goes_first(b[last], b[j]));
                crate::node_table::first_is_not_second(a[last], a[i]);
            }
        }
    }
}

proof fn where_node_stands(
    node: crate::graph::NodeView,
    list: Seq<crate::graph::NodeView>,
    accum: crate::accum::AccumView,
    prefixes: Seq<Seq<char>>,
) -> (j: int)
    requires
        crate::graph::is_node_list(list, accum, prefixes),
        crate::graph::node_seen(accum, prefixes, node.key()),
        node.samples == crate::graph::node_samples(accum, prefixes, node.id),
        node.off_cpu == crate::graph::node_off_cpu(accum, prefixes, node.id),
    ensures
        0 <= j < list.len(),
        list[j] == node,
{
    assert(crate::graph::has_node(list, node.key().id));
    let j = choose|j: int| 0 <= j < list.len() && (#[trigger] list[j]).id == node.id;
    seen_nodes_have_own_ids(accum, prefixes, list[j].key(), node.key());
    assert(list[j].crate_name == list[j].key().crate_name);
    assert(list[j].module == list[j].key().module);
    j
}

/// The accumulator and the prefixes determine the edges, though not the order among those with
/// equal counts.
pub proof fn edges_are_unique(
    a: Seq<crate::graph::EdgeView>,
    b: Seq<crate::graph::EdgeView>,
    accum: crate::accum::AccumView,
    prefixes: Seq<Seq<char>>,
)
    requires
        crate::graph::is_edge_list(a, accum, prefixes),
        crate::graph::is_edge_list(b, accum, prefixes),
    ensures
        forall|edge: crate::graph::EdgeView|
            #![trigger a.contains(edge)]
            #![trigger b.contains(edge)]
            a.contains(edge) <==> b.contains(edge),
{
    assert forall|edge: crate::graph::EdgeView|
        #![trigger a.contains(edge)]
        #![trigger b.contains(edge)]
        a.contains(edge) <==> b.contains(edge) by {
        if a.contains(edge) {
            let i = choose|i: int| 0 <= i < a.len() && a[i] == edge;
            let j = choose|j: int|
                0 <= j < b.len() && (#[trigger] b[j]).source == edge.source && b[j].target
                    == edge.target;
            assert(crate::graph::has_edge(b, a[i].source, a[i].target));
            assert(b[j] == edge);
        }
        if b.contains(edge) {
            let i = choose|i: int| 0 <= i < b.len() && b[i] == edge;
            let j = choose|j: int|
                0 <= j < a.len() && (#[trigger] a[j]).source == edge.source && a[j].target
                    == edge.target;
            assert(crate::graph::has_edge(a, b[i].source, b[i].target));
            assert(a[j] == edge);
        }
    }
}

/// Without prefixes everything collapses into the runtime: at most one node, and no edge.
pub proof fn no_prefixes_give_runtime_alone(
    nodes: Seq<crate::graph::NodeView>,
    edges: Seq<crate::graph::EdgeView>,
    accum: crate::accum::AccumView,
)
    requires
        crate::graph::is_node_list(nodes, accum, Seq::empty()),
        crate::graph::is_edge_list(edges, accum, Seq::empty()),
    ensures
        nodes.len() <= 1,
        nodes.len() == 1 ==> nodes[0].key() == crate::symbol::runtime_key(),
        edges.len() == 0,
{
    let none = Seq::<Seq<char>>::empty();
    nodes_are_runtime_or_app_modules(nodes, accum, none);
    if nodes.len() > 1 {
        assert(nodes[0].key() == nodes[1].key());
        assert(nodes[0].id == nodes[0].key().id && nodes[1].id == nodes[1].key().id);
        assert(crate::graph::node_goes_first(nodes[0], nodes[1]));
        crate::node_table::first_is_not_second(nodes[0], nodes[1]);
    }
    edges_join_nodes(nodes, edges, accum, none);
    no_edge_to_itself(edges, accum, none);
    if edges.len() > 0 {
        let edge = edges[0];
        assert(crate::graph::has_node(nodes, edge.source));
        assert(crate::graph::has_node(nodes, edge.target));
    }
}

/// One accumulator holds at least what another one holds: no tally is smaller, and no stack's
/// frames are missing or different.
pub open spec fn extends(
    after: crate::accum::AccumView,
    before: crate::accum::AccumView,
) -> bool {
    &&& after.stacks.dom().finite()
    &&& forall|stack: Seq<u8>| #[trigger]
        before.stacks.contains_key(stack) ==> after.stacks.contains_key(stack)
            && before.stacks[stack].total <= after.stacks[stack].total
            && before.stacks[stack].off_cpu <= after.stacks[stack].off_cpu
    &&& forall|stack: Seq<u8>| #[trigger]
        before.dict.contains_key(stack) ==> after.dict.contains_key(stack) && before.dict[stack]
            == after.dict[stack]
}

/// Merging only adds.
pub proof fn merging_extends(
    before: crate::accum::AccumView,
    rows: Seq<crate::samples::SampleRow>,
    dict: Seq<crate::samples::DictRow>,
)
    requires
        before.stacks.dom().finite(),
    ensures
        extends(before.with_samples(rows).with_dict(dict), before),
{
    samples_extend(before, rows);
    let middle = before.with_samples(rows);
    crate::accum::dict_leaves_tallies(middle, dict);
    crate::accum::samples_are_counted(before, rows);
    assert forall|stack: Seq<u8>| #[trigger] before.dict.contains_key(stack) implies ({
        let after = middle.with_dict(dict);
        after.dict.contains_key(stack) && before.dict[stack] == after.dict[stack]
    }) by {
        crate::merge_laws::known_frames_stay(middle, dict, stack);
    }
}

proof fn samples_extend(
    before: crate::accum::AccumView,
    rows: Seq<crate::samples::SampleRow>,
)
    requires
        before.stacks.dom().finite(),
    ensures
        extends(before.with_samples(rows), before),
    decreases rows.len(),
{
    if rows.len() > 0 {
        samples_extend(before, rows.drop_last());
    }
}

proof fn weights_only_grow(
    small: Map<Seq<u8>, crate::accum::Tally>,
    large: Map<Seq<u8>, crate::accum::Tally>,
    f: spec_fn(Seq<u8>, crate::accum::Tally) -> nat,
    g: spec_fn(Seq<u8>, crate::accum::Tally) -> nat,
)
    requires
        large.dom().finite(),
        forall|id: Seq<u8>| #[trigger]
            small.contains_key(id) ==> large.contains_key(id) && f(id, small[id]) <= g(
                id,
                large[id],
            ),
    ensures
        crate::id_map::map_sum(small, f) <= crate::id_map::map_sum(large, g),
    decreases small.dom().len(),
{
    assert(small.dom().subset_of(large.dom()));
    vstd::set_lib::lemma_set_subset_finite(large.dom(), small.dom());
    if small.dom().len() > 0 {
        let id = small.dom().choose();
        assert(small.contains_key(id));
        crate::id_map::map_sum_takes_out(large, g, id);
        assert forall|k: Seq<u8>| #[trigger] small.remove(id).contains_key(k) implies large.remove(
            id,
        ).contains_key(k) && f(k, small.remove(id)[k]) <= g(k, large.remove(id)[k]) by {
            assert(small.contains_key(k));
        }
        weights_only_grow(small.remove(id), large.remove(id), f, g);
    }
}

proof fn known_chain_stays(
    after: crate::accum::AccumView,
    before: crate::accum::AccumView,
    prefixes: Seq<Seq<char>>,
    stack: Seq<u8>,
)
    requires
        extends(after, before),
    ensures
        crate::graph::stack_chain(before.dict, prefixes, stack).len() > 0
            ==> crate::graph::stack_chain(after.dict, prefixes, stack)
            == crate::graph::stack_chain(before.dict, prefixes, stack),
{
}

/// Under the same prefixes the graph only grows as files fold: a node or an edge that was there
/// stays, and no weight gets smaller.
pub proof fn graph_only_grows(
    before: crate::accum::AccumView,
    after: crate::accum::AccumView,
    prefixes: Seq<Seq<char>>,
)
    requires
        extends(after, before),
    ensures
        forall|key: crate::symbol::NodeKey| #[trigger]
            crate::graph::node_seen(before, prefixes, key) ==> crate::graph::node_seen(
                after,
                prefixes,
                key,
            ),
        forall|source: Seq<char>, target: Seq<char>| #[trigger]
            crate::graph::edge_seen(before, prefixes, source, target) ==> crate::graph::edge_seen(
                after,
                prefixes,
                source,
                target,
            ),
        forall|id: Seq<char>| #[trigger]
            crate::graph::node_samples(before, prefixes, id) <= crate::graph::node_samples(
                after,
                prefixes,
                id,
            ),
        forall|id: Seq<char>| #[trigger]
            crate::graph::node_off_cpu(before, prefixes, id) <= crate::graph::node_off_cpu(
                after,
                prefixes,
                id,
            ),
        forall|source: Seq<char>, target: Seq<char>| #[trigger]
            crate::graph::edge_count(before, prefixes, source, target)
                <= crate::graph::edge_count(after, prefixes, source, target),
{
    assert forall|key: crate::symbol::NodeKey| #[trigger]
        crate::graph::node_seen(before, prefixes, key) implies crate::graph::node_seen(
        after,
        prefixes,
        key,
    ) by {
        let stack = choose|stack: Seq<u8>| #[trigger]
            before.stacks.contains_key(stack) && crate::graph::stack_chain(
                before.dict,
                prefixes,
                stack,
            ).contains(key);
        known_chain_stays(after, before, prefixes, stack);
        assert(after.stacks.contains_key(stack));
    }
    assert forall|source: Seq<char>, target: Seq<char>| #[trigger]
        crate::graph::edge_seen(before, prefixes, source, target) implies crate::graph::edge_seen(
        after,
        prefixes,
        source,
        target,
    ) by {
        let stack = choose|stack: Seq<u8>| #[trigger]
            before.stacks.contains_key(stack) && crate::graph::adjacent(
                crate::graph::stack_chain(before.dict, prefixes, stack),
                source,
                target,
            );
        known_chain_stays(after, before, prefixes, stack);
        assert(after.stacks.contains_key(stack));
    }
    assert forall|id: Seq<char>| true implies {
        &&& #[trigger] crate::graph::node_samples(before, prefixes, id)
            <= crate::graph::node_samples(after, prefixes, id)
        &&& crate::graph::node_off_cpu(before, prefixes, id) <= crate::graph::node_off_cpu(
            after,
            prefixes,
            id,
        )
    } by {
        let f = crate::graph::sample_weight(before.dict, prefixes, id);
        let g = crate::graph::sample_weight(after.dict, prefixes, id);
        let p = crate::graph::off_cpu_weight(before.dict, prefixes, id);
        let q = crate::graph::off_cpu_weight(after.dict, prefixes, id);
        assert forall|stack: Seq<u8>| #[trigger] before.stacks.contains_key(stack) implies {
            &&& f(stack, before.stacks[stack]) <= g(stack, after.stacks[stack])
            &&& p(stack, before.stacks[stack]) <= q(stack, after.stacks[stack])
        } by {
            known_chain_stays(after, before, prefixes, stack);
            let n = crate::chain::visits(
                crate::graph::stack_chain(before.dict, prefixes, stack),
                id,
            );
            let m = crate::chain::visits(
                crate::graph::stack_chain(after.dict, prefixes, stack),
                id,
            );
            let s = before.stacks[stack];
            let t = after.stacks[stack];
            assert(s.total * n <= t.total * m && s.off_cpu * n <= t.off_cpu * m)
                by (nonlinear_arith)
                requires
                    s.total <= t.total,
                    s.off_cpu <= t.off_cpu,
                    n <= m,
            ;
        }
        weights_only_grow(before.stacks, after.stacks, f, g);
        weights_only_grow(before.stacks, after.stacks, p, q);
    }
    assert forall|id: Seq<char>| #[trigger]
        crate::graph::node_off_cpu(before, prefixes, id) <= crate::graph::node_off_cpu(
            after,
            prefixes,
            id,
        ) by {
        let w = crate::graph::node_samples(before, prefixes, id);
    }
    assert forall|source: Seq<char>, target: Seq<char>| #[trigger]
        crate::graph::edge_count(before, prefixes, source, target)
            <= crate::graph::edge_count(after, prefixes, source, target) by {
        let f = crate::graph::count_weight(before.dict, prefixes, source, target);
        let g = crate::graph::count_weight(after.dict, prefixes, source, target);
        assert forall|stack: Seq<u8>| #[trigger] before.stacks.contains_key(stack) implies f(
            stack,
            before.stacks[stack],
        ) <= g(stack, after.stacks[stack]) by {
            known_chain_stays(after, before, prefixes, stack);
            let n = crate::chain::crossings(
                crate::graph::stack_chain(before.dict, prefixes, stack),
                source,
                target,
            );
            let m = crate::chain::crossings(
                crate::graph::stack_chain(after.dict, prefixes, stack),
                source,
                target,
            );
            let s = before.stacks[stack].total;
            let t = after.stacks[stack].total;
            assert(s * n <= t * m) by (nonlinear_arith)
                requires
                    s <= t,
                    n <= m,
            ;
        }
        weights_only_grow(before.stacks, after.stacks, f, g);
    }
}

/// Under the inferred prefixes every frame of a crate that is not a well-known runtime crate
/// keeps its own module node.
pub proof fn inferred_prefixes_keep_app_frames(
    dict: Map<Seq<u8>, Seq<Seq<char>>>,
    prefixes: Seq<Seq<char>>,
    stack: Seq<u8>,
    k: int,
)
    requires
        forall|name: Seq<char>|
            #![trigger prefixes.contains(name)]
            prefixes.contains(name) <==> crate::accum::inferred_app(dict, name),
        dict.contains_key(stack),
        0 <= k < dict[stack].len(),
        crate::symbol::identity_of(dict[stack][k]) matches Some((crate_name, _))
            && !crate::symbol::known_runtime(crate_name),
    ensures
        ({
            let frame = dict[stack][k];
            let (crate_name, module) = crate::symbol::identity_of(frame)->0;
            crate::symbol::node_of(frame, prefixes) == crate::symbol::module_key(
                crate_name,
                module,
            )
        }),
{
    let frame = dict[stack][k];
    let crate_name = (crate::symbol::identity_of(frame)->0).0;
    assert(crate::accum::crate_at(dict, stack, k, crate_name));
    assert(prefixes.contains(crate_name));
    crate::symbol::crate_name_keeps_its_own_frames(frame, prefixes);
}

/// In the graph of merged samples every node and every edge weighs something.
pub proof fn listed_weights_are_positive(
    nodes: Seq<crate::graph::NodeView>,
    edges: Seq<crate::graph::EdgeView>,
    accum: crate::accum::AccumView,
    prefixes: Seq<Seq<char>>,
)
    requires
        accum.balanced(),
        crate::graph::is_node_list(nodes, accum, prefixes),
        crate::graph::is_edge_list(edges, accum, prefixes),
    ensures
        forall|i: int| 0 <= i < nodes.len() ==> (#[trigger] nodes[i]).samples >= 1,
        forall|i: int| 0 <= i < edges.len() ==> (#[trigger] edges[i]).count >= 1,
{
    assert forall|i: int| 0 <= i < nodes.len() implies (#[trigger] nodes[i]).samples >= 1 by {
        let key = nodes[i].key();
        let stack = choose|stack: Seq<u8>| #[trigger]
            accum.stacks.contains_key(stack) && crate::graph::stack_chain(
                accum.dict,
                prefixes,
                stack,
            ).contains(key);
        let chain = crate::graph::stack_chain(accum.dict, prefixes, stack);
        let k = choose|k: int| 0 <= k < chain.len() && chain[k] == key;
        assert(chain[k].id == key.id);
        crate::chain::visits_only_members(chain, key.id);
        let f = crate::graph::sample_weight(accum.dict, prefixes, key.id);
        let (n, m) = (accum.stacks[stack].total, crate::chain::visits(chain, key.id));
        assert(n * m >= 1) by (nonlinear_arith)
            requires
                n >= 1,
                m >= 1,
        ;
        crate::id_map::map_sum_takes_out(accum.stacks, f, stack);
    }
    assert forall|i: int| 0 <= i < edges.len() implies (#[trigger] edges[i]).count >= 1 by {
        let source = edges[i].source;
        let target = edges[i].target;
        let stack = choose|stack: Seq<u8>| #[trigger]
            accum.stacks.contains_key(stack) && crate::graph::adjacent(
                crate::graph::stack_chain(accum.dict, prefixes, stack),
                source,
                target,
            );
        let chain = crate::graph::stack_chain(accum.dict, prefixes, stack);
        crate::chain::crossings_only_neighbours(chain, source, target);
        let f = crate::graph::count_weight(accum.dict, prefixes, source, target);
        let (n, m) = (
            accum.stacks[stack].total,
            crate::chain::crossings(chain, source, target),
        );
        assert(n * m >= 1) by (nonlinear_arith)
            requires
                n >= 1,
                m >= 1,
        ;
        crate::id_map::map_sum_takes_out(accum.stacks, f, stack);
    }
}

/// The graph is a function of the tallies, the dictionary and the prefixes alone: what else two
/// accumulators hold makes no difference to what is a graph of theirs.
pub proof fn graph_rests_on_tallies_and_dict(
    nodes: Seq<crate::graph::NodeView>,
    edges: Seq<crate::graph::EdgeView>,
    a: crate::accum::AccumView,
    b: crate::accum::AccumView,
    prefixes: Seq<Seq<char>>,
)
    requires
        a.stacks == b.stacks,
        a.dict == b.dict,
    ensures
        crate::graph::is_node_list(nodes, a, prefixes) <==> crate::graph::is_node_list(
            nodes,
            b,
            prefixes,
        ),
        crate::graph::is_edge_list(edges, a, prefixes) <==> crate::graph::is_edge_list(
            edges,
            b,
            prefixes,
        ),
        crate::graph::graph_fits(a, prefixes) <==> crate::graph::graph_fits(b, prefixes),
{
    graph_carries_over(nodes, edges, a, b, prefixes);
    graph_carries_over(nodes, edges, b, a, prefixes);
}

proof fn graph_carries_over(
    nodes: Seq<crate::graph::NodeView>,
    edges: Seq<crate::graph::EdgeView>,
    a: crate::accum::AccumView,
    b: crate::accum::AccumView,
    prefixes: Seq<Seq<char>>,
)
    requires
        a.stacks == b.stacks,
        a.dict == b.dict,
    ensures
        crate::graph::is_node_list(nodes, a, prefixes) ==> crate::graph::is_node_list(
            nodes,
            b,
            prefixes,
        ),
        crate::graph::is_edge_list(edges, a, prefixes) ==> crate::graph::is_edge_list(
            edges,
            b,
            prefixes,
        ),
        crate::graph::graph_fits(a, prefixes) ==> crate::graph::graph_fits(b, prefixes),
{
    assert forall|key: crate::symbol::NodeKey| #[trigger]
        crate::graph::node_seen(b, prefixes, key) == crate::graph::node_seen(
            a,
            prefixes,
            key,
        ) by {}
    assert forall|source: Seq<char>, target: Seq<char>| #[trigger]
        crate::graph::edge_seen(b, prefixes, source, target) == crate::graph::edge_seen(
            a,
            prefixes,
            source,
            target,
        ) by {}
    assert forall|id: Seq<char>| #[trigger]
        crate::graph::node_samples(b, prefixes, id) == crate::graph::node_samples(
            a,
            prefixes,
            id,
        ) by {}
    assert forall|id: Seq<char>| #[trigger]
        crate::graph::node_off_cpu(b, prefixes, id) == crate::graph::node_off_cpu(
            a,
            prefixes,
            id,
        ) by {}
    assert forall|source: Seq<char>, target: Seq<char>| #[trigger]
        crate::graph::edge_count(b, prefixes, source, target) == crate::graph::edge_count(
            a,
            prefixes,
            source,
            target,
        ) by {}
}

/// Two accumulators with the same tallies and the same dictionary give, under the same prefixes,
/// the same list of nodes and the same edges, whatever their workers, counts and timestamps.
pub proof fn equal_tallies_and_dict_give_equal_graphs(
    a: crate::accum::AccumView,
    a_nodes: Seq<crate::graph::NodeView>,
    a_edges: Seq<crate::graph::EdgeView>,
    b: crate::accum::AccumView,
    b_nodes: Seq<crate::graph::NodeView>,
    b_edges: Seq<crate::graph::EdgeView>,
    prefixes: Seq<Seq<char>>,
)
    requires
        a.stacks == b.stacks,
        a.dict == b.dict,
        crate::graph::is_node_list(a_nodes, a, prefixes),
        crate::graph::is_edge_list(a_edges, a, prefixes),
        crate::graph::is_node_list(b_nodes, b, prefixes),
        crate::graph::is_edge_list(b_edges, b, prefixes),
    ensures
        a_nodes == b_nodes,
        forall|edge: crate::graph::EdgeView|
            #![trigger a_edges.contains(edge)]
            #![trigger b_edges.contains(edge)]
            a_edges.contains(edge) <==> b_edges.contains(edge),
{
    graph_rests_on_tallies_and_dict(b_nodes, b_edges, a, b, prefixes);
    node_list_is_unique(a_nodes, b_nodes, a, prefixes);
    edges_are_unique(a_edges, b_edges, a, prefixes);
}

} // verus!
