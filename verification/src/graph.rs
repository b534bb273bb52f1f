//! The service-architecture graph: modules and the observed caller-to-callee transitions.
use vstd::prelude::*;

use crate::accum::{GraphAccum, StackTally};
use crate::chain::{chain_of, Hop};
use crate::edge_table::{add_crossing, sort_edges};
use crate::node_table::{add_visit, sort_nodes};

verus! {

/// A module of the service, or the collapsed runtime.
#[derive(Debug)]
pub struct GraphNode {
    /// `crate::module` (or `runtime`): the node identity.
    pub id: String,
    /// Top-level crate, used to cluster nodes into group boxes.
    pub crate_name: String,
    /// Module label within the crate (the last path segment shown on the node).
    pub module: String,
    /// Samples that passed through this module (its inclusive wall-time weight).
    pub samples: u64,
    /// Of `samples`, how many were off-CPU (blocked: I/O, locks, waits).
    pub off_cpu: u64,
}

/// A caller-to-callee transition between two modules.
#[derive(Debug)]
pub struct GraphEdge {
    pub source: String,
    pub target: String,
    /// Shared-sample count of this caller-to-callee transition.
    pub count: u64,
}

/// What a [`GraphNode`] says.
pub struct NodeView {
    pub id: Seq<char>,
    pub crate_name: Seq<char>,
    pub module: Seq<char>,
    pub samples: nat,
    pub off_cpu: nat,
}

/// What a [`GraphEdge`] says.
pub struct EdgeView {
    pub source: Seq<char>,
    pub target: Seq<char>,
    pub count: nat,
}

impl View for GraphNode {
    type V = NodeView;

    open spec fn view(&self) -> NodeView {
        NodeView {
            id: self.id@,
            crate_name: self.crate_name@,
            module: self.module@,
            samples: self.samples as nat,
            off_cpu: self.off_cpu as nat,
        }
    }
}

impl View for GraphEdge {
    type V = EdgeView;

    open spec fn view(&self) -> EdgeView {
        EdgeView { source: self.source@, target: self.target@, count: self.count as nat }
    }
}

impl NodeView {
    /// The identity of the node.
    pub open spec fn key(self) -> crate::symbol::NodeKey {
        crate::symbol::NodeKey {
            id: self.id,
            crate_name: self.crate_name,
            module: self.module,
        }
    }
}

/// What a list of nodes says.
pub open spec fn node_views(nodes: Seq<GraphNode>) -> Seq<NodeView> {
    nodes.map_values(|node: GraphNode| node@)
}

/// What a list of edges says.
pub open spec fn edge_views(edges: Seq<GraphEdge>) -> Seq<EdgeView> {
    edges.map_values(|edge: GraphEdge| edge@)
}

/// The chain of a stack. A stack that the dictionary does not know has none.
pub open spec fn stack_chain(
    dict: Map<Seq<u8>, Seq<Seq<char>>>,
    prefixes: Seq<Seq<char>>,
    stack: Seq<u8>,
) -> Seq<crate::symbol::NodeKey> {
    if dict.contains_key(stack) {
        crate::chain::chain(dict[stack], prefixes)
    } else {
        Seq::empty()
    }
}

/// A chain goes from one node straight to another.
pub open spec fn adjacent(
    chain: Seq<crate::symbol::NodeKey>,
    source: Seq<char>,
    target: Seq<char>,
) -> bool {
    exists|k: int|
        0 < k < chain.len() && chain[k - 1].id == source && (#[trigger] chain[k]).id == target
}

/// What a stack adds to the samples of a node.
pub open spec fn sample_weight(
    dict: Map<Seq<u8>, Seq<Seq<char>>>,
    prefixes: Seq<Seq<char>>,
    id: Seq<char>,
) -> spec_fn(Seq<u8>, crate::accum::Tally) -> nat {
    |stack: Seq<u8>, tally: crate::accum::Tally|
        tally.total * crate::chain::visits(stack_chain(dict, prefixes, stack), id)
}

/// What a stack adds to the off-CPU samples of a node.
pub open spec fn off_cpu_weight(
    dict: Map<Seq<u8>, Seq<Seq<char>>>,
    prefixes: Seq<Seq<char>>,
    id: Seq<char>,
) -> spec_fn(Seq<u8>, crate::accum::Tally) -> nat {
    |stack: Seq<u8>, tally: crate::accum::Tally|
        tally.off_cpu * crate::chain::visits(stack_chain(dict, prefixes, stack), id)
}

/// What a stack adds to the count of an edge.
pub open spec fn count_weight(
    dict: Map<Seq<u8>, Seq<Seq<char>>>,
    prefixes: Seq<Seq<char>>,
    source: Seq<char>,
    target: Seq<char>,
) -> spec_fn(Seq<u8>, crate::accum::Tally) -> nat {
    |stack: Seq<u8>, tally: crate::accum::Tally|
        tally.total * crate::chain::crossings(stack_chain(dict, prefixes, stack), source, target)
}

/// The samples of a node: each stack's total, once per time its chain visits the node.
pub open spec fn node_samples(
    accum: crate::accum::AccumView,
    prefixes: Seq<Seq<char>>,
    id: Seq<char>,
) -> nat {
    crate::id_map::map_sum(accum.stacks, sample_weight(accum.dict, prefixes, id))
}

/// The off-CPU samples of a node: each stack's off-CPU subtotal, once per visit.
pub open spec fn node_off_cpu(
    accum: crate::accum::AccumView,
    prefixes: Seq<Seq<char>>,
    id: Seq<char>,
) -> nat {
    crate::id_map::map_sum(accum.stacks, off_cpu_weight(accum.dict, prefixes, id))
}

/// The count of an edge: each stack's total, once per time its chain takes the edge.
pub open spec fn edge_count(
    accum: crate::accum::AccumView,
    prefixes: Seq<Seq<char>>,
    source: Seq<char>,
    target: Seq<char>,
) -> nat {
    crate::id_map::map_sum(accum.stacks, count_weight(accum.dict, prefixes, source, target))
}

/// Some sampled stack passes through the node.
pub open spec fn node_seen(
    accum: crate::accum::AccumView,
    prefixes: Seq<Seq<char>>,
    key: crate::symbol::NodeKey,
) -> bool {
    exists|stack: Seq<u8>| #[trigger]
        accum.stacks.contains_key(stack) && stack_chain(accum.dict, prefixes, stack).contains(key)
}

/// Some sampled stack takes the edge.
pub open spec fn edge_seen(
    accum: crate::accum::AccumView,
    prefixes: Seq<Seq<char>>,
    source: Seq<char>,
    target: Seq<char>,
) -> bool {
    exists|stack: Seq<u8>| #[trigger]
        accum.stacks.contains_key(stack) && adjacent(
            stack_chain(accum.dict, prefixes, stack),
            source,
            target,
        )
}

/// Some node of the list has this id.
pub open spec fn has_node(nodes: Seq<NodeView>, id: Seq<char>) -> bool {
    exists|i: int| 0 <= i < nodes.len() && (#[trigger] nodes[i]).id == id
}

/// Some edge of the list has these ends.
pub open spec fn has_edge(edges: Seq<EdgeView>, source: Seq<char>, target: Seq<char>) -> bool {
    exists|i: int|
        0 <= i < edges.len() && (#[trigger] edges[i]).source == source && edges[i].target
            == target
}

/// No two nodes have the same id.
pub open spec fn distinct_nodes(nodes: Seq<NodeView>) -> bool {
    forall|i: int, j: int|
        #![trigger nodes[i], nodes[j]]
        0 <= i < j < nodes.len() ==> nodes[i].id != nodes[j].id
}

/// No two edges have the same ends.
pub open spec fn distinct_edges(edges: Seq<EdgeView>) -> bool {
    forall|i: int, j: int|
        #![trigger edges[i], edges[j]]
        0 <= i < j < edges.len() ==> edges[i].source != edges[j].source || edges[i].target
            != edges[j].target
}

/// Nodes are listed by samples, most first, and by id among equals.
pub open spec fn node_goes_first(a: NodeView, b: NodeView) -> bool {
    a.samples > b.samples || (a.samples == b.samples && crate::order::text_before(a.id, b.id))
}

/// The list holds exactly the nodes of the graph, each with its weights, in listing order.
pub open spec fn is_node_list(
    nodes: Seq<NodeView>,
    accum: crate::accum::AccumView,
    prefixes: Seq<Seq<char>>,
) -> bool {
    &&& forall|i: int| #![trigger nodes[i]]
        0 <= i < nodes.len() ==> {
            &&& node_seen(accum, prefixes, nodes[i].key())
            &&& nodes[i].samples == node_samples(accum, prefixes, nodes[i].id)
            &&& nodes[i].off_cpu == node_off_cpu(accum, prefixes, nodes[i].id)
        }
    &&& forall|key: crate::symbol::NodeKey| #[trigger]
        node_seen(accum, prefixes, key) ==> has_node(nodes, key.id)
    &&& forall|i: int, j: int|
        #![trigger nodes[i], nodes[j]]
        0 <= i < j < nodes.len() ==> node_goes_first(nodes[i], nodes[j])
}

/// The list holds exactly the edges of the graph, each once and with its count, largest count
/// first. The order among equal counts is left open.
pub open spec fn is_edge_list(
    edges: Seq<EdgeView>,
    accum: crate::accum::AccumView,
    prefixes: Seq<Seq<char>>,
) -> bool {
    &&& forall|i: int| #![trigger edges[i]]
        0 <= i < edges.len() ==> {
            &&& edge_seen(accum, prefixes, edges[i].source, edges[i].target)
            &&& edges[i].count == edge_count(accum, prefixes, edges[i].source, edges[i].target)
        }
    &&& forall|source: Seq<char>, target: Seq<char>| #[trigger]
        edge_seen(accum, prefixes, source, target) ==> has_edge(edges, source, target)
    &&& distinct_edges(edges)
    &&& forall|i: int, j: int|
        #![trigger edges[i], edges[j]]
        0 <= i < j < edges.len() ==> edges[i].count >= edges[j].count
}

/// All weights of the graph are within the machine's range.
pub open spec fn graph_fits(accum: crate::accum::AccumView, prefixes: Seq<Seq<char>>) -> bool {
    &&& forall|id: Seq<char>| #[trigger] node_samples(accum, prefixes, id) <= u64::MAX
    &&& forall|id: Seq<char>| #[trigger] node_off_cpu(accum, prefixes, id) <= u64::MAX
    &&& forall|source: Seq<char>, target: Seq<char>| #[trigger]
        edge_count(accum, prefixes, source, target) <= u64::MAX
}

/// All weights that some stacks give are within the machine's range.
spec fn rows_fit(
    dict: Map<Seq<u8>, Seq<Seq<char>>>,
    prefixes: Seq<Seq<char>>,
    rows: Seq<(Seq<u8>, crate::accum::Tally)>,
) -> bool {
    &&& forall|id: Seq<char>|
        crate::id_map::rows_sum(rows, #[trigger] sample_weight(dict, prefixes, id)) <= u64::MAX
    &&& forall|id: Seq<char>|
        crate::id_map::rows_sum(rows, #[trigger] off_cpu_weight(dict, prefixes, id)) <= u64::MAX
    &&& forall|source: Seq<char>, target: Seq<char>|
        crate::id_map::rows_sum(rows, #[trigger] count_weight(dict, prefixes, source, target))
            <= u64::MAX
}

proof fn fewer_rows_weigh_less(
    rows: Seq<(Seq<u8>, crate::accum::Tally)>,
    f: spec_fn(Seq<u8>, crate::accum::Tally) -> nat,
    n: int,
)
    requires
        0 <= n <= rows.len(),
    ensures
        crate::id_map::rows_sum(rows.take(n), f) <= crate::id_map::rows_sum(rows, f),
    decreases rows.len() - n,
{
    if n == rows.len() {
        assert(rows.take(n) =~= rows);
    } else {
        fewer_rows_weigh_less(rows, f, n + 1);
        assert(rows.take(n + 1).drop_last() =~= rows.take(n));
    }
}

proof fn fewer_rows_fit(
    dict: Map<Seq<u8>, Seq<Seq<char>>>,
    prefixes: Seq<Seq<char>>,
    rows: Seq<(Seq<u8>, crate::accum::Tally)>,
    n: int,
)
    requires
        0 <= n <= rows.len(),
        rows_fit(dict, prefixes, rows),
    ensures
        rows_fit(dict, prefixes, rows.take(n)),
{
    assert forall|id: Seq<char>|
        crate::id_map::rows_sum(rows.take(n), #[trigger] sample_weight(dict, prefixes, id))
            <= u64::MAX by {
        fewer_rows_weigh_less(rows, sample_weight(dict, prefixes, id), n);
    }
    assert forall|id: Seq<char>|
        crate::id_map::rows_sum(rows.take(n), #[trigger] off_cpu_weight(dict, prefixes, id))
            <= u64::MAX by {
        fewer_rows_weigh_less(rows, off_cpu_weight(dict, prefixes, id), n);
    }
    assert forall|source: Seq<char>, target: Seq<char>|
        crate::id_map::rows_sum(
            rows.take(n),
            #[trigger] count_weight(dict, prefixes, source, target),
        ) <= u64::MAX by {
        fewer_rows_weigh_less(rows, count_weight(dict, prefixes, source, target), n);
    }
}

proof fn part_of_chain_visits_less(
    chain: Seq<crate::symbol::NodeKey>,
    id: Seq<char>,
    n: int,
)
    requires
        0 <= n <= chain.len(),
    ensures
        crate::chain::visits(chain.take(n), id) <= crate::chain::visits(chain, id),
    decreases chain.len() - n,
{
    if n == chain.len() {
        assert(chain.take(n) =~= chain);
    } else {
        part_of_chain_visits_less(chain, id, n + 1);
        assert(chain.take(n + 1).drop_last() =~= chain.take(n));
    }
}

proof fn part_of_chain_crosses_less(
    chain: Seq<crate::symbol::NodeKey>,
    source: Seq<char>,
    target: Seq<char>,
    n: int,
)
    requires
        0 <= n <= chain.len(),
    ensures
        crate::chain::crossings(chain.take(n), source, target) <= crate::chain::crossings(
            chain,
            source,
            target,
        ),
    decreases chain.len() - n,
{
    if n == chain.len() {
        assert(chain.take(n) =~= chain);
    } else {
        part_of_chain_crosses_less(chain, source, target, n + 1);
        assert(chain.take(n + 1).drop_last() =~= chain.take(n));
    }
}

proof fn node_overflow_is_real(
    dict: Map<Seq<u8>, Seq<Seq<char>>>,
    prefixes: Seq<Seq<char>>,
    done: Seq<(Seq<u8>, crate::accum::Tally)>,
    stack: Seq<u8>,
    tally: crate::accum::Tally,
    n: int,
)
    requires
        0 <= n < stack_chain(dict, prefixes, stack).len(),
        ({
            let chain = stack_chain(dict, prefixes, stack);
            let id = chain[n].id;
            ||| crate::node_table::partial_samples(dict, prefixes, done, chain.take(n), tally, id)
                + tally.total > u64::MAX
            ||| crate::node_table::partial_off_cpu(dict, prefixes, done, chain.take(n), tally, id)
                + tally.off_cpu > u64::MAX
        }),
    ensures
        !rows_fit(dict, prefixes, done.push((stack, tally))),
{
    let chain = stack_chain(dict, prefixes, stack);
    let id = chain[n].id;
    let rows = done.push((stack, tally));
    let before = crate::chain::visits(chain.take(n), id);
    let all = crate::chain::visits(chain, id);
    assert(rows.drop_last() =~= done);
    part_of_chain_visits_less(chain, id, n + 1);
    assert(chain.take(n + 1).drop_last() =~= chain.take(n));
    assert(tally.total * before + tally.total <= tally.total * all) by (nonlinear_arith)
        requires
            before + 1 <= all,
    ;
    assert(tally.off_cpu * before + tally.off_cpu <= tally.off_cpu * all) by (nonlinear_arith)
        requires
            before + 1 <= all,
    ;
    let f = sample_weight(dict, prefixes, id);
    let g = off_cpu_weight(dict, prefixes, id);
    assert(f(stack, tally) == tally.total * all);
    assert(g(stack, tally) == tally.off_cpu * all);
    assert(crate::id_map::rows_sum(rows, f) > u64::MAX || crate::id_map::rows_sum(rows, g)
        > u64::MAX);
}

proof fn edge_overflow_is_real(
    dict: Map<Seq<u8>, Seq<Seq<char>>>,
    prefixes: Seq<Seq<char>>,
    done: Seq<(Seq<u8>, crate::accum::Tally)>,
    stack: Seq<u8>,
    tally: crate::accum::Tally,
    n: int,
)
    requires
        0 < n < stack_chain(dict, prefixes, stack).len(),
        ({
            let chain = stack_chain(dict, prefixes, stack);
            crate::edge_table::partial_count(
                dict,
                prefixes,
                done,
                chain.take(n),
                tally,
                chain[n - 1].id,
                chain[n].id,
            ) + tally.total > u64::MAX
        }),
    ensures
        !rows_fit(dict, prefixes, done.push((stack, tally))),
{
    let chain = stack_chain(dict, prefixes, stack);
    let source = chain[n - 1].id;
    let target = chain[n].id;
    let rows = done.push((stack, tally));
    let before = crate::chain::crossings(chain.take(n), source, target);
    let all = crate::chain::crossings(chain, source, target);
    assert(rows.drop_last() =~= done);
    part_of_chain_crosses_less(chain, source, target, n + 1);
    assert(chain.take(n + 1).drop_last() =~= chain.take(n));
    assert(tally.total * before + tally.total <= tally.total * all) by (nonlinear_arith)
        requires
            before + 1 <= all,
    ;
    let f = count_weight(dict, prefixes, source, target);
    assert(f(stack, tally) == tally.total * all);
    assert(crate::id_map::rows_sum(rows, f) > u64::MAX);
}

/// Adds one stack's tally to every node and edge on its way. `false` when a weight would leave
/// the machine's range.
fn add_stack(
    nodes: &mut Vec<GraphNode>,
    edges: &mut Vec<GraphEdge>,
    hops: &Vec<Hop>,
    tally: &StackTally,
    Ghost(dict): Ghost<Map<Seq<u8>, Seq<Seq<char>>>>,
    Ghost(prefixes): Ghost<Seq<Seq<char>>>,
    Ghost(done): Ghost<Seq<(Seq<u8>, crate::accum::Tally)>>,
    Ghost(stack): Ghost<Seq<u8>>,
) -> (fits: bool)
    requires
        crate::chain::hop_nodes(hops@) == stack_chain(dict, prefixes, stack),
        crate::node_table::nodes_hold(
            node_views(old(nodes)@),
            dict,
            prefixes,
            done,
            Seq::empty(),
            tally@,
        ),
        crate::edge_table::edges_hold(
            edge_views(old(edges)@),
            dict,
            prefixes,
            done,
            Seq::empty(),
            tally@,
        ),
    ensures
        fits ==> crate::node_table::nodes_hold(
            node_views(final(nodes)@),
            dict,
            prefixes,
            done,
            stack_chain(dict, prefixes, stack),
            tally@,
        ),
        fits ==> crate::edge_table::edges_hold(
            edge_views(final(edges)@),
            dict,
            prefixes,
            done,
            stack_chain(dict, prefixes, stack),
            tally@,
        ),
        !fits ==> !rows_fit(dict, prefixes, done.push((stack, tally@))),
{
    let ghost chain = stack_chain(dict, prefixes, stack);
    assert(chain.take(0) =~= Seq::empty());
    let mut k: usize = 0;
    while k < hops.len()
        invariant
            k <= hops@.len(),
            chain == crate::chain::hop_nodes(hops@),
            chain == stack_chain(dict, prefixes, stack),
            crate::node_table::nodes_hold(
                node_views(nodes@),
                dict,
                prefixes,
                done,
                chain.take(k as int),
                tally@,
            ),
            crate::edge_table::edges_hold(
                edge_views(edges@),
                dict,
                prefixes,
                done,
                chain.take(k as int),
                tally@,
            ),
        decreases hops@.len() - k,
    {
        let ghost part = chain.take(k as int);
        let ghost key = chain[k as int];
        assert(key == hops@[k as int]@);
        assert(chain.take(k + 1) =~= part.push(key));
        let ghost node_table = node_views(nodes@);
        let ghost edge_table = edge_views(edges@);
        if !add_visit(nodes, &hops[k], tally) {
            proof {
                let i = choose|i: int|
                    #![trigger node_table[i]]
                    0 <= i < node_table.len() && node_table[i].id == key.id && (
                    node_table[i].samples + tally.total > u64::MAX || node_table[i].off_cpu
                        + tally.off_cpu > u64::MAX);
                node_overflow_is_real(dict, prefixes, done, stack, tally@, k as int);
            }
            return false;
        }
        proof {
            crate::node_table::visit_keeps_table(
                node_table,
                dict,
                prefixes,
                done,
                part,
                tally@,
                key,
            );
        }
        if k > 0 {
            assert(part.last() == chain[k - 1]);
            assert(part.last() == hops@[k - 1]@);
            if !add_crossing(edges, &hops[k - 1].id, &hops[k].id, tally.total) {
                proof {
                    let i = choose|i: int|
                        #![trigger edge_table[i]]
                        0 <= i < edge_table.len() && edge_table[i].source == part.last().id
                            && edge_table[i].target == key.id && edge_table[i].count + tally.total
                            > u64::MAX;
                    edge_overflow_is_real(dict, prefixes, done, stack, tally@, k as int);
                }
                return false;
            }
            proof {
                crate::edge_table::crossing_keeps_table(
                    edge_table,
                    dict,
                    prefixes,
                    done,
                    part,
                    tally@,
                    key,
                );
            }
        } else {
            assert(part =~= Seq::empty());
            proof {
                crate::edge_table::first_hop_keeps_table(
                    edge_table,
                    dict,
                    prefixes,
                    done,
                    tally@,
                    key,
                );
            }
        }
        k = k + 1;
    }
    assert(chain.take(k as int) =~= chain);
    true
}

/// The tallies of an accumulator, in the order it keeps them.
spec fn tally_rows(rows: Seq<(Seq<u8>, StackTally)>) -> Seq<(Seq<u8>, crate::accum::Tally)> {
    rows.map_values(|row: (Seq<u8>, StackTally)| (row.0, row.1@))
}

/// The tally of a row; zero behind the last one.
spec fn tally_at(rows: Seq<(Seq<u8>, crate::accum::Tally)>, i: int) -> crate::accum::Tally {
    if i < rows.len() {
        rows[i].1
    } else {
        crate::accum::Tally { total: 0, off_cpu: 0 }
    }
}

proof fn tally_rows_are_the_tallies(rows: Seq<(Seq<u8>, StackTally)>)
    requires
        crate::id_map::ascending(rows),
    ensures
        crate::id_map::ascending(tally_rows(rows)),
        crate::id_map::rows_map(tally_rows(rows)) == crate::id_map::rows_map(rows).map_values(
            |t: StackTally| t@,
        ),
{
    let mapped = tally_rows(rows);
    let a = crate::id_map::rows_map(mapped);
    let b = crate::id_map::rows_map(rows).map_values(|t: StackTally| t@);
    assert forall|i: int| 0 <= i < rows.len() implies (#[trigger] mapped[i]) == (
        rows[i].0,
        rows[i].1@,
    ) by {}
    assert forall|id: Seq<u8>| #[trigger] a.contains_key(id) implies b.contains_key(id) && a[id]
        == b[id] by {
        let i = choose|i: int| 0 <= i < mapped.len() && (#[trigger] mapped[i]).0 == id;
        crate::id_map::row_is_in_map(mapped, i);
        crate::id_map::row_is_in_map(rows, i);
    }
    assert forall|id: Seq<u8>| #[trigger] b.contains_key(id) implies a.contains_key(id) by {
        let i = choose|i: int| 0 <= i < rows.len() && (#[trigger] rows[i]).0 == id;
        assert(mapped[i].0 == id);
    }
    assert(a =~= b);
}

/// Weights summed over the rows are the weights of the graph.
proof fn rows_give_weights(
    accum: crate::accum::AccumView,
    prefixes: Seq<Seq<char>>,
    rows: Seq<(Seq<u8>, crate::accum::Tally)>,
)
    requires
        crate::id_map::ascending(rows),
        crate::id_map::rows_map(rows) == accum.stacks,
    ensures
        rows_fit(accum.dict, prefixes, rows) <==> graph_fits(accum, prefixes),
        forall|id: Seq<char>| #[trigger]
            node_samples(accum, prefixes, id) == crate::id_map::rows_sum(
                rows,
                sample_weight(accum.dict, prefixes, id),
            ),
        forall|id: Seq<char>| #[trigger]
            node_off_cpu(accum, prefixes, id) == crate::id_map::rows_sum(
                rows,
                off_cpu_weight(accum.dict, prefixes, id),
            ),
        forall|source: Seq<char>, target: Seq<char>| #[trigger]
            edge_count(accum, prefixes, source, target) == crate::id_map::rows_sum(
                rows,
                count_weight(accum.dict, prefixes, source, target),
            ),
{
    assert forall|id: Seq<char>| #[trigger]
        node_samples(accum, prefixes, id) == crate::id_map::rows_sum(
            rows,
            sample_weight(accum.dict, prefixes, id),
        ) by {
        crate::id_map::rows_sum_is_map_sum(rows, sample_weight(accum.dict, prefixes, id));
    }
    assert forall|id: Seq<char>| #[trigger]
        node_off_cpu(accum, prefixes, id) == crate::id_map::rows_sum(
            rows,
            off_cpu_weight(accum.dict, prefixes, id),
        ) by {
        crate::id_map::rows_sum_is_map_sum(rows, off_cpu_weight(accum.dict, prefixes, id));
    }
    assert forall|source: Seq<char>, target: Seq<char>| #[trigger]
        edge_count(accum, prefixes, source, target) == crate::id_map::rows_sum(
            rows,
            count_weight(accum.dict, prefixes, source, target),
        ) by {
        crate::id_map::rows_sum_is_map_sum(
            rows,
            count_weight(accum.dict, prefixes, source, target),
        );
    }
    if rows_fit(accum.dict, prefixes, rows) {
        assert forall|id: Seq<char>| #[trigger] node_samples(accum, prefixes, id)
            <= u64::MAX by {
            let f = sample_weight(accum.dict, prefixes, id);
        }
        assert forall|id: Seq<char>| #[trigger] node_off_cpu(accum, prefixes, id)
            <= u64::MAX by {
            let f = off_cpu_weight(accum.dict, prefixes, id);
        }
        assert forall|source: Seq<char>, target: Seq<char>| #[trigger]
            edge_count(accum, prefixes, source, target) <= u64::MAX by {
            let f = count_weight(accum.dict, prefixes, source, target);
        }
    }
    if graph_fits(accum, prefixes) {
        assert forall|id: Seq<char>|
            crate::id_map::rows_sum(rows, #[trigger] sample_weight(accum.dict, prefixes, id))
                <= u64::MAX by {
            assert(node_samples(accum, prefixes, id) <= u64::MAX);
        }
        assert forall|id: Seq<char>|
            crate::id_map::rows_sum(rows, #[trigger] off_cpu_weight(accum.dict, prefixes, id))
                <= u64::MAX by {
            assert(node_off_cpu(accum, prefixes, id) <= u64::MAX);
        }
        assert forall|source: Seq<char>, target: Seq<char>|
            crate::id_map::rows_sum(
                rows,
                #[trigger] count_weight(accum.dict, prefixes, source, target),
            ) <= u64::MAX by {
            assert(edge_count(accum, prefixes, source, target) <= u64::MAX);
        }
    }
}

proof fn finished_nodes(
    accum: crate::accum::AccumView,
    prefixes: Seq<Seq<char>>,
    rows: Seq<(Seq<u8>, crate::accum::Tally)>,
    tally: crate::accum::Tally,
    table: Seq<NodeView>,
    sorted: Seq<NodeView>,
)
    requires
        crate::id_map::ascending(rows),
        crate::id_map::rows_map(rows) == accum.stacks,
        crate::node_table::nodes_hold(
            table,
            accum.dict,
            prefixes,
            rows,
            Seq::empty(),
            tally,
        ),
        sorted.to_multiset() == table.to_multiset(),
        crate::node_table::nodes_in_order(sorted),
    ensures
        is_node_list(sorted, accum, prefixes),
{
    let none = Seq::<crate::symbol::NodeKey>::empty();
    rows_give_weights(accum, prefixes, rows);
    crate::node_table::reordered_nodes(table, sorted);
    assert(tally.total * 0nat == 0 && tally.off_cpu * 0nat == 0);
    assert forall|key: crate::symbol::NodeKey| #[trigger]
        node_seen(accum, prefixes, key) <==> crate::node_table::visited(
            accum.dict,
            prefixes,
            rows,
            none,
            key,
        ) by {
        if node_seen(accum, prefixes, key) {
            let stack = choose|stack: Seq<u8>| #[trigger]
                accum.stacks.contains_key(stack) && stack_chain(
                    accum.dict,
                    prefixes,
                    stack,
                ).contains(key);
            let r = choose|r: int| 0 <= r < rows.len() && (#[trigger] rows[r]).0 == stack;
            assert(stack_chain(accum.dict, prefixes, rows[r].0).contains(key));
        }
        if crate::node_table::visited(accum.dict, prefixes, rows, none, key) {
            let r = choose|r: int|
                0 <= r < rows.len() && (#[trigger] stack_chain(
                    accum.dict,
                    prefixes,
                    rows[r].0,
                )).contains(key);
            crate::id_map::row_is_in_map(rows, r);
            assert(accum.stacks.contains_key(rows[r].0));
        }
    }
    assert forall|i: int| #![trigger sorted[i]]
        0 <= i < sorted.len() implies {
        &&& node_seen(accum, prefixes, sorted[i].key())
        &&& sorted[i].samples == node_samples(accum, prefixes, sorted[i].id)
        &&& sorted[i].off_cpu == node_off_cpu(accum, prefixes, sorted[i].id)
    } by {
        assert(sorted.contains(sorted[i]));
        assert(table.contains(sorted[i]));
        let j = choose|j: int| 0 <= j < table.len() && table[j] == sorted[i];
        assert(crate::node_table::visited(accum.dict, prefixes, rows, none, table[j].key()));
    }
    assert forall|key: crate::symbol::NodeKey| #[trigger]
        node_seen(accum, prefixes, key) implies has_node(sorted, key.id) by {
        assert(crate::node_table::visited(accum.dict, prefixes, rows, none, key));
        let j = choose|j: int| 0 <= j < table.len() && (#[trigger] table[j]).id == key.id;
        assert(table.contains(table[j]));
        assert(sorted.contains(table[j]));
        let i = choose|i: int| 0 <= i < sorted.len() && sorted[i] == table[j];
        assert(sorted[i].id == key.id);
    }
    assert forall|i: int, j: int|
        #![trigger sorted[i], sorted[j]]
        0 <= i < j < sorted.len() implies node_goes_first(sorted[i], sorted[j]) by {
        crate::node_table::listing_order_is_total(sorted[i], sorted[j]);
    }
}

proof fn finished_edges(
    accum: crate::accum::AccumView,
    prefixes: Seq<Seq<char>>,
    rows: Seq<(Seq<u8>, crate::accum::Tally)>,
    tally: crate::accum::Tally,
    table: Seq<EdgeView>,
    sorted: Seq<EdgeView>,
)
    requires
        crate::id_map::ascending(rows),
        crate::id_map::rows_map(rows) == accum.stacks,
        crate::edge_table::edges_hold(
            table,
            accum.dict,
            prefixes,
            rows,
            Seq::empty(),
            tally,
        ),
        sorted.to_multiset() == table.to_multiset(),
        crate::edge_table::edges_in_order(sorted),
    ensures
        is_edge_list(sorted, accum, prefixes),
{
    let none = Seq::<crate::symbol::NodeKey>::empty();
    rows_give_weights(accum, prefixes, rows);
    crate::edge_table::reordered_edges(table, sorted);
    assert(tally.total * 0nat == 0);
    assert forall|source: Seq<char>, target: Seq<char>| #[trigger]
        edge_seen(accum, prefixes, source, target) <==> crate::edge_table::crossed(
            accum.dict,
            prefixes,
            rows,
            none,
            source,
            target,
        ) by {
        if edge_seen(accum, prefixes, source, target) {
            let stack = choose|stack: Seq<u8>| #[trigger]
                accum.stacks.contains_key(stack) && adjacent(
                    stack_chain(accum.dict, prefixes, stack),
                    source,
                    target,
                );
            let r = choose|r: int| 0 <= r < rows.len() && (#[trigger] rows[r]).0 == stack;
            assert(adjacent(stack_chain(accum.dict, prefixes, rows[r].0), source, target));
        }
        if crate::edge_table::crossed(accum.dict, prefixes, rows, none, source, target) {
            let r = choose|r: int|
                0 <= r < rows.len() && adjacent(
                    #[trigger] stack_chain(accum.dict, prefixes, rows[r].0),
                    source,
                    target,
                );
            crate::id_map::row_is_in_map(rows, r);
            assert(accum.stacks.contains_key(rows[r].0));
        }
    }
    assert forall|i: int| #![trigger sorted[i]]
        0 <= i < sorted.len() implies {
        &&& edge_seen(accum, prefixes, sorted[i].source, sorted[i].target)
        &&& sorted[i].count == edge_count(accum, prefixes, sorted[i].source, sorted[i].target)
    } by {
        assert(sorted.contains(sorted[i]));
        assert(table.contains(sorted[i]));
        let j = choose|j: int| 0 <= j < table.len() && table[j] == sorted[i];
        assert(crate::edge_table::crossed(
            accum.dict,
            prefixes,
            rows,
            none,
            table[j].source,
            table[j].target,
        ));
    }
    assert forall|source: Seq<char>, target: Seq<char>| #[trigger]
        edge_seen(accum, prefixes, source, target) implies has_edge(sorted, source, target) by {
        assert(crate::edge_table::crossed(accum.dict, prefixes, rows, none, source, target));
        let j = choose|j: int|
            0 <= j < table.len() && (#[trigger] table[j]).source == source && table[j].target
                == target;
        assert(table.contains(table[j]));
        assert(sorted.contains(table[j]));
        let i = choose|i: int| 0 <= i < sorted.len() && sorted[i] == table[j];
        assert(sorted[i].source == source && sorted[i].target == target);
    }
}

proof fn complete_tables_fit(
    dict: Map<Seq<u8>, Seq<Seq<char>>>,
    prefixes: Seq<Seq<char>>,
    rows: Seq<(Seq<u8>, crate::accum::Tally)>,
    tally: crate::accum::Tally,
    nodes: Seq<NodeView>,
    edges: Seq<EdgeView>,
)
    requires
        crate::node_table::nodes_hold(nodes, dict, prefixes, rows, Seq::empty(), tally),
        crate::edge_table::edges_hold(edges, dict, prefixes, rows, Seq::empty(), tally),
        forall|i: int|
            #![trigger nodes[i]]
            0 <= i < nodes.len() ==> nodes[i].samples <= u64::MAX && nodes[i].off_cpu <= u64::MAX,
        forall|i: int|
            #![trigger edges[i]]
            0 <= i < edges.len() ==> edges[i].count <= u64::MAX,
    ensures
        rows_fit(dict, prefixes, rows),
{
    let none = Seq::<crate::symbol::NodeKey>::empty();
    assert(tally.total * 0nat == 0 && tally.off_cpu * 0nat == 0);
    assert forall|id: Seq<char>| true implies {
        &&& crate::id_map::rows_sum(rows, #[trigger] sample_weight(dict, prefixes, id))
            <= u64::MAX
        &&& crate::id_map::rows_sum(rows, off_cpu_weight(dict, prefixes, id)) <= u64::MAX
    } by {
        if has_node(nodes, id) {
            let i = choose|i: int| 0 <= i < nodes.len() && (#[trigger] nodes[i]).id == id;
            assert(nodes[i].samples <= u64::MAX);
        } else {
            crate::node_table::unvisited_weighs_nothing(dict, prefixes, rows, none, tally, id);
        }
    }
    assert forall|id: Seq<char>|
        crate::id_map::rows_sum(rows, #[trigger] off_cpu_weight(dict, prefixes, id))
            <= u64::MAX by {
        let f = sample_weight(dict, prefixes, id);
    }
    assert forall|source: Seq<char>, target: Seq<char>|
        crate::id_map::rows_sum(rows, #[trigger] count_weight(dict, prefixes, source, target))
            <= u64::MAX by {
        if has_edge(edges, source, target) {
            let i = choose|i: int|
                0 <= i < edges.len() && (#[trigger] edges[i]).source == source
                    && edges[i].target == target;
            assert(edges[i].count <= u64::MAX);
        } else {
            crate::edge_table::uncrossed_counts_nothing(
                dict,
                prefixes,
                rows,
                none,
                tally,
                source,
                target,
            );
        }
    }
}

/// Builds the service-architecture graph, unless one of its weights is out of the range of `u64`.
///
/// See [`build_module_graph`] for what the graph holds.
pub fn checked_module_graph(accum: &GraphAccum, app_prefixes: &[String]) -> (graph: Option<
    (Vec<GraphNode>, Vec<GraphEdge>),
>)
    requires
        accum.stacks.wf(),
        accum.dict.wf(),
    ensures
        match graph {
            Some((nodes, edges)) => {
                let prefixes = crate::columns::texts(app_prefixes@);
                &&& graph_fits(accum@, prefixes)
                &&& is_node_list(node_views(nodes@), accum@, prefixes)
                &&& is_edge_list(edge_views(edges@), accum@, prefixes)
            },
            None => !graph_fits(accum@, crate::columns::texts(app_prefixes@)),
        },
{
    let ghost dict = accum@.dict;
    let ghost prefixes = crate::columns::texts(app_prefixes@);
    let ghost rows = tally_rows(accum.stacks.rows());
    let ghost none = Seq::<crate::symbol::NodeKey>::empty();
    let mut nodes: Vec<GraphNode> = Vec::new();
    let mut edges: Vec<GraphEdge> = Vec::new();
    let mut i: usize = 0;
    proof {
        tally_rows_are_the_tallies(accum.stacks.rows());
        rows_give_weights(accum@, prefixes, rows);
        assert(rows.take(0) =~= Seq::empty());
    }
    while i < accum.stacks.len()
        invariant
            accum.stacks.wf(),
            accum.dict.wf(),
            dict == accum@.dict,
            prefixes == crate::columns::texts(app_prefixes@),
            none == Seq::<crate::symbol::NodeKey>::empty(),
            rows == tally_rows(accum.stacks.rows()),
            rows_fit(dict, prefixes, rows) <==> graph_fits(accum@, prefixes),
            i <= rows.len(),
            crate::node_table::nodes_hold(
                node_views(nodes@),
                dict,
                prefixes,
                rows.take(i as int),
                none,
                tally_at(rows, i as int),
            ),
            crate::edge_table::edges_hold(
                edge_views(edges@),
                dict,
                prefixes,
                rows.take(i as int),
                none,
                tally_at(rows, i as int),
            ),
        decreases rows.len() - i,
    {
        let tally = accum.stacks.value_at(i);
        let stack_id = accum.stacks.id_at(i);
        let ghost done = rows.take(i as int);
        assert(rows[i as int] == (stack_id@, tally@));
        assert(rows.take(i + 1) =~= done.push((stack_id@, tally@)));
        match accum.dict.get(stack_id.as_slice()) {
            None => {
                assert(stack_chain(dict, prefixes, stack_id@) == none);
            },
            Some(frames) => {
                let hops = chain_of(frames, app_prefixes);
                assert(dict[stack_id@] == crate::columns::texts(frames@));
                let fits = add_stack(
                    &mut nodes,
                    &mut edges,
                    &hops,
                    tally,
                    Ghost(dict),
                    Ghost(prefixes),
                    Ghost(done),
                    Ghost(stack_id@),
                );
                if !fits {
                    proof {
                        if rows_fit(dict, prefixes, rows) {
                            fewer_rows_fit(dict, prefixes, rows, i + 1);
                        }
                    }
                    return None;
                }
            },
        }
        proof {
            crate::node_table::finish_stack_keeps_table(
                node_views(nodes@),
                dict,
                prefixes,
                done,
                stack_id@,
                tally@,
                tally_at(rows, i + 1),
            );
            crate::edge_table::finish_stack_keeps_table(
                edge_views(edges@),
                dict,
                prefixes,
                done,
                stack_id@,
                tally@,
                tally_at(rows, i + 1),
            );
        }
        i = i + 1;
    }
    assert(rows.take(i as int) =~= rows);
    let ghost node_table = node_views(nodes@);
    let ghost edge_table = edge_views(edges@);
    let node_list = sort_nodes(nodes);
    let edge_list = sort_edges(edges);
    proof {
        let tally = tally_at(rows, i as int);
        complete_tables_fit(dict, prefixes, rows, tally, node_table, edge_table);
        let node_order = node_views(node_list@);
        let edge_order = edge_views(edge_list@);
        finished_nodes(accum@, prefixes, rows, tally, node_table, node_order);
        finished_edges(accum@, prefixes, rows, tally, edge_table, edge_order);
    }
    Some((node_list, edge_list))
}

/// Builds the service-architecture graph from the accumulated stack tallies and dictionary.
///
/// - Frames are stored leaf first; stacks are walked from the root to the leaf (caller to
///   callee), the direction an edge points.
/// - Each frame maps to its `crate::module` node; frames of other than application crates map to
///   `runtime`.
/// - Consecutive frames of the same node count once.
/// - A node accumulates the stack's tally once per remaining occurrence; an edge accumulates it
///   for each caller-to-callee transition.
///
/// Nodes are listed by samples, most first, then by id; edges by count, largest first.
pub fn build_module_graph(accum: &GraphAccum, app_prefixes: &[String]) -> (graph: (
    Vec<GraphNode>,
    Vec<GraphEdge>,
))
    requires
        accum.stacks.wf(),
        accum.dict.wf(),
        graph_fits(accum@, crate::columns::texts(app_prefixes@)),
    ensures
        is_node_list(node_views(graph.0@), accum@, crate::columns::texts(app_prefixes@)),
        is_edge_list(edge_views(graph.1@), accum@, crate::columns::texts(app_prefixes@)),
{
    match checked_module_graph(accum, app_prefixes) {
        Some(graph) => graph,
        None => (Vec::new(), Vec::new()),
    }
}

} // verus!
