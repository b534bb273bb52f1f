//! The node table that a graph is accumulated in, stack by stack and hop by hop.
use vstd::prelude::*;

use crate::accum::StackTally;
use crate::chain::Hop;
use crate::graph::GraphNode;
use crate::order::{place_text, same_text, Place};

verus! {

/// The samples of a node after some stacks and the first hops of another one.
pub open spec fn partial_samples(
    dict: Map<Seq<u8>, Seq<Seq<char>>>,
    prefixes: Seq<Seq<char>>,
    done: Seq<(Seq<u8>, crate::accum::Tally)>,
    part: Seq<crate::symbol::NodeKey>,
    tally: crate::accum::Tally,
    id: Seq<char>,
) -> nat {
    crate::id_map::rows_sum(done, crate::graph::sample_weight(dict, prefixes, id)) + tally.total
        * crate::chain::visits(part, id)
}

/// The off-CPU samples of a node after some stacks and the first hops of another one.
pub open spec fn partial_off_cpu(
    dict: Map<Seq<u8>, Seq<Seq<char>>>,
    prefixes: Seq<Seq<char>>,
    done: Seq<(Seq<u8>, crate::accum::Tally)>,
    part: Seq<crate::symbol::NodeKey>,
    tally: crate::accum::Tally,
    id: Seq<char>,
) -> nat {
    crate::id_map::rows_sum(done, crate::graph::off_cpu_weight(dict, prefixes, id))
        + tally.off_cpu * crate::chain::visits(part, id)
}

/// Some finished stack, or the first hops of the current one, pass through the node.
pub open spec fn visited(
    dict: Map<Seq<u8>, Seq<Seq<char>>>,
    prefixes: Seq<Seq<char>>,
    done: Seq<(Seq<u8>, crate::accum::Tally)>,
    part: Seq<crate::symbol::NodeKey>,
    key: crate::symbol::NodeKey,
) -> bool {
    part.contains(key) || exists|r: int|
        0 <= r < done.len() && #[trigger] crate::graph::stack_chain(
            dict,
            prefixes,
            done[r].0,
        ).contains(key)
}

/// The table holds exactly the nodes visited so far, each with its weights so far.
pub open spec fn nodes_hold(
    nodes: Seq<crate::graph::NodeView>,
    dict: Map<Seq<u8>, Seq<Seq<char>>>,
    prefixes: Seq<Seq<char>>,
    done: Seq<(Seq<u8>, crate::accum::Tally)>,
    part: Seq<crate::symbol::NodeKey>,
    tally: crate::accum::Tally,
) -> bool {
    &&& crate::graph::distinct_nodes(nodes)
    &&& forall|i: int|
        #![trigger nodes[i]]
        0 <= i < nodes.len() ==> {
            &&& visited(dict, prefixes, done, part, nodes[i].key())
            &&& nodes[i].samples == partial_samples(
                dict,
                prefixes,
                done,
                part,
                tally,
                nodes[i].id,
            )
            &&& nodes[i].off_cpu == partial_off_cpu(
                dict,
                prefixes,
                done,
                part,
                tally,
                nodes[i].id,
            )
        }
    &&& forall|key: crate::symbol::NodeKey| #[trigger]
        visited(dict, prefixes, done, part, key) ==> crate::graph::has_node(nodes, key.id)
}

/// The table after one more hop.
pub open spec fn after_visit(
    nodes: Seq<crate::graph::NodeView>,
    key: crate::symbol::NodeKey,
    tally: crate::accum::Tally,
) -> Seq<crate::graph::NodeView> {
    if crate::graph::has_node(nodes, key.id) {
        let i = choose|i: int| 0 <= i < nodes.len() && (#[trigger] nodes[i]).id == key.id;
        nodes.update(
            i,
            crate::graph::NodeView {
                samples: nodes[i].samples + tally.total,
                off_cpu: nodes[i].off_cpu + tally.off_cpu,
                ..nodes[i]
            },
        )
    } else {
        nodes.push(
            crate::graph::NodeView {
                id: key.id,
                crate_name: key.crate_name,
                module: key.module,
                samples: tally.total,
                off_cpu: tally.off_cpu,
            },
        )
    }
}

/// A node that was never visited weighs nothing.
pub proof fn unvisited_weighs_nothing(
    dict: Map<Seq<u8>, Seq<Seq<char>>>,
    prefixes: Seq<Seq<char>>,
    done: Seq<(Seq<u8>, crate::accum::Tally)>,
    part: Seq<crate::symbol::NodeKey>,
    tally: crate::accum::Tally,
    id: Seq<char>,
)
    requires
        forall|key: crate::symbol::NodeKey| #[trigger]
            visited(dict, prefixes, done, part, key) ==> key.id != id,
    ensures
        partial_samples(dict, prefixes, done, part, tally, id) == 0,
        partial_off_cpu(dict, prefixes, done, part, tally, id) == 0,
{
    crate::chain::visits_only_members(part, id);
    assert(crate::chain::visits(part, id) == 0) by {
        if crate::chain::visits(part, id) > 0 {
            let k = choose|k: int| 0 <= k < part.len() && (#[trigger] part[k]).id == id;
            assert(part.contains(part[k]));
            assert(visited(dict, prefixes, done, part, part[k]));
        }
    }
    let f = crate::graph::sample_weight(dict, prefixes, id);
    let g = crate::graph::off_cpu_weight(dict, prefixes, id);
    assert forall|r: int| 0 <= r < done.len() implies f((#[trigger] done[r]).0, done[r].1) == 0
        && g(done[r].0, done[r].1) == 0 by {
        let chain = crate::graph::stack_chain(dict, prefixes, done[r].0);
        crate::chain::visits_only_members(chain, id);
        if crate::chain::visits(chain, id) > 0 {
            let k = choose|k: int| 0 <= k < chain.len() && (#[trigger] chain[k]).id == id;
            assert(chain.contains(chain[k]));
            assert(visited(dict, prefixes, done, part, chain[k]));
        }
        assert(f(done[r].0, done[r].1) == done[r].1.total * 0nat);
        assert(g(done[r].0, done[r].1) == done[r].1.off_cpu * 0nat);
    }
    crate::id_map::rows_sum_of_nothing(done, f);
    crate::id_map::rows_sum_of_nothing(done, g);
    assert(tally.total * 0nat == 0);
    assert(tally.off_cpu * 0nat == 0);
}

proof fn one_more_visit(
    dict: Map<Seq<u8>, Seq<Seq<char>>>,
    prefixes: Seq<Seq<char>>,
    done: Seq<(Seq<u8>, crate::accum::Tally)>,
    part: Seq<crate::symbol::NodeKey>,
    tally: crate::accum::Tally,
    key: crate::symbol::NodeKey,
)
    ensures
        forall|id: Seq<char>| #[trigger]
            partial_samples(dict, prefixes, done, part.push(key), tally, id) == partial_samples(
                dict,
                prefixes,
                done,
                part,
                tally,
                id,
            ) + if id == key.id {
                tally.total
            } else {
                0
            },
        forall|id: Seq<char>| #[trigger]
            partial_off_cpu(dict, prefixes, done, part.push(key), tally, id) == partial_off_cpu(
                dict,
                prefixes,
                done,
                part,
                tally,
                id,
            ) + if id == key.id {
                tally.off_cpu
            } else {
                0
            },
{
    assert(part.push(key).drop_last() =~= part);
    assert forall|id: Seq<char>|
        crate::chain::visits(part.push(key), id) == crate::chain::visits(part, id) + if id
            == key.id {
            1nat
        } else {
            0nat
        } by {}
    assert forall|id: Seq<char>| #[trigger]
        partial_samples(dict, prefixes, done, part.push(key), tally, id) == partial_samples(
            dict,
            prefixes,
            done,
            part,
            tally,
            id,
        ) + if id == key.id {
            tally.total
        } else {
            0
        } by {
        let v = crate::chain::visits(part, id);
        assert(tally.total * (v + 1) == tally.total * v + tally.total) by (nonlinear_arith);
    }
    assert forall|id: Seq<char>| #[trigger]
        partial_off_cpu(dict, prefixes, done, part.push(key), tally, id) == partial_off_cpu(
            dict,
            prefixes,
            done,
            part,
            tally,
            id,
        ) + if id == key.id {
            tally.off_cpu
        } else {
            0
        } by {
        let v = crate::chain::visits(part, id);
        assert(tally.off_cpu * (v + 1) == tally.off_cpu * v + tally.off_cpu) by (nonlinear_arith);
    }
}

/// One more hop keeps the table right.
pub proof fn visit_keeps_table(
    nodes: Seq<crate::graph::NodeView>,
    dict: Map<Seq<u8>, Seq<Seq<char>>>,
    prefixes: Seq<Seq<char>>,
    done: Seq<(Seq<u8>, crate::accum::Tally)>,
    part: Seq<crate::symbol::NodeKey>,
    tally: crate::accum::Tally,
    key: crate::symbol::NodeKey,
)
    requires
        nodes_hold(nodes, dict, prefixes, done, part, tally),
    ensures
        nodes_hold(after_visit(nodes, key, tally), dict, prefixes, done, part.push(key), tally),
{
    let after = after_visit(nodes, key, tally);
    let longer = part.push(key);
    one_more_visit(dict, prefixes, done, part, tally, key);
    assert forall|k: crate::symbol::NodeKey| #[trigger]
        visited(dict, prefixes, done, longer, k) <==> (visited(dict, prefixes, done, part, k) || k
            == key) by {
        assert(longer[part.len() as int] == key);
        if part.contains(k) {
            let i = choose|i: int| 0 <= i < part.len() && part[i] == k;
            assert(longer[i] == k);
        }
        if longer.contains(k) {
            let i = choose|i: int| 0 <= i < longer.len() && longer[i] == k;
            if i < part.len() {
                assert(part[i] == k);
            }
        }
    }
    if crate::graph::has_node(nodes, key.id) {
        let i = choose|i: int| 0 <= i < nodes.len() && (#[trigger] nodes[i]).id == key.id;
        assert forall|j: int| 0 <= j < after.len() implies (#[trigger] after[j]).id == nodes[j].id
            && after[j].key() == nodes[j].key() by {}
        assert forall|j: int|
            #![trigger after[j]]
            0 <= j < after.len() implies {
            &&& visited(dict, prefixes, done, longer, after[j].key())
            &&& after[j].samples == partial_samples(
                dict,
                prefixes,
                done,
                longer,
                tally,
                after[j].id,
            )
            &&& after[j].off_cpu == partial_off_cpu(
                dict,
                prefixes,
                done,
                longer,
                tally,
                after[j].id,
            )
        } by {
            assert(visited(dict, prefixes, done, part, nodes[j].key()));
            if j != i {
                if j < i {
                    assert(nodes[j].id != nodes[i].id);
                } else {
                    assert(nodes[i].id != nodes[j].id);
                }
            }
        }
        assert forall|k: crate::symbol::NodeKey| #[trigger]
            visited(dict, prefixes, done, longer, k) implies crate::graph::has_node(
            after,
            k.id,
        ) by {
            if k == key {
                assert(after[i].id == k.id);
            } else {
                assert(visited(dict, prefixes, done, part, k));
                let j = choose|j: int| 0 <= j < nodes.len() && (#[trigger] nodes[j]).id == k.id;
                assert(after[j].id == k.id);
            }
        }
        assert forall|a: int, b: int|
            #![trigger after[a], after[b]]
            0 <= a < b < after.len() implies after[a].id != after[b].id by {
            assert(nodes[a].id != nodes[b].id);
        }
    } else {
        assert forall|k: crate::symbol::NodeKey| #[trigger]
            visited(dict, prefixes, done, part, k) implies k.id != key.id by {}
        unvisited_weighs_nothing(dict, prefixes, done, part, tally, key.id);
        let n = nodes.len() as int;
        assert forall|j: int|
            #![trigger after[j]]
            0 <= j < after.len() implies {
            &&& visited(dict, prefixes, done, longer, after[j].key())
            &&& after[j].samples == partial_samples(
                dict,
                prefixes,
                done,
                longer,
                tally,
                after[j].id,
            )
            &&& after[j].off_cpu == partial_off_cpu(
                dict,
                prefixes,
                done,
                longer,
                tally,
                after[j].id,
            )
        } by {
            if j < n {
                assert(after[j] == nodes[j]);
                assert(visited(dict, prefixes, done, part, nodes[j].key()));
            } else {
                assert(after[j].key() == key);
            }
        }
        assert forall|k: crate::symbol::NodeKey| #[trigger]
            visited(dict, prefixes, done, longer, k) implies crate::graph::has_node(
            after,
            k.id,
        ) by {
            if k == key {
                assert(after[n].id == k.id);
            } else {
                assert(visited(dict, prefixes, done, part, k));
                let j = choose|j: int| 0 <= j < nodes.len() && (#[trigger] nodes[j]).id == k.id;
                assert(after[j].id == k.id);
            }
        }
        assert forall|a: int, b: int|
            #![trigger after[a], after[b]]
            0 <= a < b < after.len() implies after[a].id != after[b].id by {
            if b < n {
                assert(nodes[a].id != nodes[b].id);
            } else {
                assert(after[a] == nodes[a]);
            }
        }
    }
}

/// Finishing a stack keeps the table right.
pub proof fn finish_stack_keeps_table(
    nodes: Seq<crate::graph::NodeView>,
    dict: Map<Seq<u8>, Seq<Seq<char>>>,
    prefixes: Seq<Seq<char>>,
    done: Seq<(Seq<u8>, crate::accum::Tally)>,
    stack: Seq<u8>,
    tally: crate::accum::Tally,
    next: crate::accum::Tally,
)
    requires
        nodes_hold(
            nodes,
            dict,
            prefixes,
            done,
            crate::graph::stack_chain(dict, prefixes, stack),
            tally,
        ),
    ensures
        nodes_hold(nodes, dict, prefixes, done.push((stack, tally)), Seq::empty(), next),
{
    let part = crate::graph::stack_chain(dict, prefixes, stack);
    let longer = done.push((stack, tally));
    let none = Seq::<crate::symbol::NodeKey>::empty();
    assert(longer.drop_last() =~= done);
    assert forall|id: Seq<char>| #[trigger]
        partial_samples(dict, prefixes, longer, none, next, id) == partial_samples(
            dict,
            prefixes,
            done,
            part,
            tally,
            id,
        ) by {
        assert(crate::chain::visits(none, id) == 0);
        assert(next.total * 0nat == 0);
    }
    assert forall|id: Seq<char>| #[trigger]
        partial_off_cpu(dict, prefixes, longer, none, next, id) == partial_off_cpu(
            dict,
            prefixes,
            done,
            part,
            tally,
            id,
        ) by {
        assert(crate::chain::visits(none, id) == 0);
        assert(next.off_cpu * 0nat == 0);
    }
    assert forall|key: crate::symbol::NodeKey| #[trigger]
        visited(dict, prefixes, longer, none, key) <==> visited(
            dict,
            prefixes,
            done,
            part,
            key,
        ) by {
        assert(longer[done.len() as int] == (stack, tally));
        if visited(dict, prefixes, done, part, key) && !part.contains(key) {
            let r = choose|r: int|
                0 <= r < done.len() && #[trigger] crate::graph::stack_chain(
                    dict,
                    prefixes,
                    done[r].0,
                ).contains(key);
            assert(longer[r] == done[r]);
        }
        if visited(dict, prefixes, longer, none, key) {
            let r = choose|r: int|
                0 <= r < longer.len() && #[trigger] crate::graph::stack_chain(
                    dict,
                    prefixes,
                    longer[r].0,
                ).contains(key);
            if r < done.len() {
                assert(longer[r] == done[r]);
            }
        }
        if part.contains(key) {
            assert(crate::graph::stack_chain(
                dict,
                prefixes,
                longer[done.len() as int].0,
            ).contains(key));
        }
    }
    assert forall|i: int|
        #![trigger nodes[i]]
        0 <= i < nodes.len() implies visited(dict, prefixes, longer, none, nodes[i].key()) by {
        assert(visited(dict, prefixes, done, part, nodes[i].key()));
    }
}

/// Where a node stands in the table.
fn find_node(nodes: &Vec<GraphNode>, id: &str) -> (found: Option<usize>)
    ensures
        match found {
            Some(i) => i < nodes@.len() && crate::graph::node_views(nodes@)[i as int].id == id@,
            None => !crate::graph::has_node(crate::graph::node_views(nodes@), id@),
        },
{
    let ghost views = crate::graph::node_views(nodes@);
    let mut i: usize = 0;
    while i < nodes.len()
        invariant
            i <= nodes@.len(),
            views == crate::graph::node_views(nodes@),
            forall|j: int| 0 <= j < i ==> (#[trigger] views[j]).id != id@,
        decreases nodes@.len() - i,
    {
        assert(views[i as int] == nodes@[i as int]@);
        if same_text(nodes[i].id.as_str(), id) {
            return Some(i);
        }
        i = i + 1;
    }
    None
}

/// Adds one hop to the table. `false` when a weight would leave the machine's range; the table
/// is unchanged then.
pub fn add_visit(nodes: &mut Vec<GraphNode>, hop: &Hop, tally: &StackTally) -> (fits: bool)
    requires
        crate::graph::distinct_nodes(crate::graph::node_views(old(nodes)@)),
    ensures
        fits ==> crate::graph::node_views(final(nodes)@) == after_visit(
            crate::graph::node_views(old(nodes)@),
            hop@,
            tally@,
        ),
        !fits ==> exists|i: int|
            #![trigger crate::graph::node_views(old(nodes)@)[i]]
            0 <= i < old(nodes)@.len() && {
                let node = crate::graph::node_views(old(nodes)@)[i];
                &&& node.id == hop@.id
                &&& (node.samples + tally.total > u64::MAX || node.off_cpu + tally.off_cpu
                    > u64::MAX)
            },
{
    let ghost before = crate::graph::node_views(nodes@);
    match find_node(nodes, hop.id.as_str()) {
        Some(i) => {
            assert(before[i as int] == nodes@[i as int]@);
            let ghost j = choose|j: int| 0 <= j < before.len() && (#[trigger] before[j]).id
                == hop@.id;
            assert(j == i) by {
                if j < i {
                    assert(before[j].id != before[i as int].id);
                } else if i < j {
                    assert(before[i as int].id != before[j].id);
                }
            }
            match (
                nodes[i].samples.checked_add(tally.total),
                nodes[i].off_cpu.checked_add(tally.off_cpu),
            ) {
                (Some(samples), Some(off_cpu)) => {
                    let node = GraphNode {
                        id: nodes[i].id.clone(),
                        crate_name: nodes[i].crate_name.clone(),
                        module: nodes[i].module.clone(),
                        samples,
                        off_cpu,
                    };
                    nodes[i] = node;
                    assert(crate::graph::node_views(nodes@) =~= after_visit(
                        before,
                        hop@,
                        tally@,
                    ));
                    true
                },
                _ => {
                    assert(before[i as int].id == hop@.id);
                    false
                },
            }
        },
        None => {
            let node = GraphNode {
                id: hop.id.clone(),
                crate_name: hop.crate_name.clone(),
                module: hop.module.clone(),
                samples: tally.total,
                off_cpu: tally.off_cpu,
            };
            nodes.push(node);
            assert(crate::graph::node_views(nodes@) =~= after_visit(before, hop@, tally@));
            true
        },
    }
}

/// No node stands before one that goes first.
pub open spec fn nodes_in_order(nodes: Seq<crate::graph::NodeView>) -> bool {
    forall|i: int, j: int|
        #![trigger nodes[i], nodes[j]]
        0 <= i < j < nodes.len() ==> !crate::graph::node_goes_first(nodes[j], nodes[i])
}

proof fn listing_order_is_transitive(
    a: crate::graph::NodeView,
    b: crate::graph::NodeView,
    c: crate::graph::NodeView,
)
    requires
        !crate::graph::node_goes_first(b, a),
        !crate::graph::node_goes_first(c, b),
    ensures
        !crate::graph::node_goes_first(c, a),
{
    let (x, y, z) = (
        crate::order::char_codes(a.id),
        crate::order::char_codes(b.id),
        crate::order::char_codes(c.id),
    );
    if crate::graph::node_goes_first(c, a) {
        assert(a.samples == b.samples && b.samples == c.samples);
        crate::order::precedes_is_total(y, x);
        crate::order::precedes_is_total(z, y);
        if crate::order::precedes(x, y) && crate::order::precedes(y, z) {
            crate::order::precedes_is_transitive(x, y, z);
        }
        crate::order::precedes_is_strict(x, z);
    }
}

/// Of two nodes with different ids, the one that does not go first goes second.
pub proof fn listing_order_is_total(a: crate::graph::NodeView, b: crate::graph::NodeView)
    requires
        a.id != b.id,
        !crate::graph::node_goes_first(b, a),
    ensures
        crate::graph::node_goes_first(a, b),
{
    crate::order::precedes_is_total(
        crate::order::char_codes(a.id),
        crate::order::char_codes(b.id),
    );
    if crate::order::char_codes(a.id) == crate::order::char_codes(b.id) {
        crate::order::char_codes_injective(a.id, b.id);
    }
}

fn goes_first(a: &GraphNode, b: &GraphNode) -> (yes: bool)
    ensures
        yes == crate::graph::node_goes_first(a@, b@),
{
    if a.samples != b.samples {
        return a.samples > b.samples;
    }
    let place = place_text(a.id.as_str(), b.id.as_str());
    proof {
        crate::order::precedes_is_strict(
            crate::order::char_codes(a.id@),
            crate::order::char_codes(b.id@),
        );
    }
    match place {
        Place::Before => true,
        _ => false,
    }
}

/// Sorts nodes into listing order.
pub fn sort_nodes(nodes: Vec<GraphNode>) -> (sorted: Vec<GraphNode>)
    ensures
        nodes_in_order(crate::graph::node_views(sorted@)),
        crate::graph::node_views(sorted@).to_multiset() == crate::graph::node_views(
            nodes@,
        ).to_multiset(),
{
    let mut rest = nodes;
    let mut sorted: Vec<GraphNode> = Vec::new();
    let ghost all = crate::graph::node_views(nodes@).to_multiset();
    proof {
        assert(crate::graph::node_views(sorted@) =~= Seq::empty());
        Seq::<crate::graph::NodeView>::empty().to_multiset_ensures();
        assert(crate::graph::node_views(rest@).to_multiset().add(
            crate::graph::node_views(sorted@).to_multiset(),
        ) =~= all);
    }
    while rest.len() > 0
        invariant
            nodes_in_order(crate::graph::node_views(sorted@)),
            crate::graph::node_views(rest@).to_multiset().add(
                crate::graph::node_views(sorted@).to_multiset(),
            ) == all,
        decreases rest@.len(),
    {
        let ghost rest_views = crate::graph::node_views(rest@);
        let ghost views = crate::graph::node_views(sorted@);
        match rest.pop() {
            None => {},
            Some(node) => {
                let mut pos: usize = 0;
                while pos < sorted.len() && goes_first(&sorted[pos], &node)
                    invariant
                        pos <= sorted@.len(),
                        views == crate::graph::node_views(sorted@),
                        forall|i: int|
                            0 <= i < pos ==> crate::graph::node_goes_first(
                                #[trigger] views[i],
                                node@,
                            ),
                    decreases sorted@.len() - pos,
                {
                    assert(views[pos as int] == sorted@[pos as int]@);
                    pos = pos + 1;
                }
                let ghost p = pos as int;
                sorted.insert(pos, node);
                proof {
                    let after = crate::graph::node_views(sorted@);
                    assert(after =~= views.insert(p, node@));
                    assert(p < views.len() ==> !crate::graph::node_goes_first(views[p], node@));
                    assert forall|i: int, j: int|
                        #![trigger after[i], after[j]]
                        0 <= i < j < after.len() implies !crate::graph::node_goes_first(
                        after[j],
                        after[i],
                    ) by {
                        if i < p && j < p {
                            assert(after[i] == views[i] && after[j] == views[j]);
                        } else if i < p && j == p {
                            assert(after[i] == views[i]);
                            first_is_not_second(views[i], node@);
                        } else if i < p {
                            assert(after[i] == views[i] && after[j] == views[j - 1]);
                        } else if i == p {
                            assert(after[j] == views[j - 1]);
                            if p < j - 1 {
                                listing_order_is_transitive(node@, views[p], views[j - 1]);
                            }
                        } else {
                            assert(after[i] == views[i - 1] && after[j] == views[j - 1]);
                        }
                    }
                    assert(crate::graph::node_views(rest@) =~= rest_views.drop_last());
                    assert(rest_views =~= rest_views.drop_last().push(node@));
                    vstd::seq_lib::to_multiset_build(rest_views.drop_last(), node@);
                    vstd::seq_lib::to_multiset_insert(views, p, node@);
                    assert(crate::graph::node_views(rest@).to_multiset().add(
                        after.to_multiset(),
                    ) =~= all);
                }
            },
        }
    }
    proof {
        assert(crate::graph::node_views(rest@) =~= Seq::empty());
        Seq::<crate::graph::NodeView>::empty().to_multiset_ensures();
        assert(crate::graph::node_views(sorted@).to_multiset() =~= all);
    }
    sorted
}

pub proof fn first_is_not_second(a: crate::graph::NodeView, b: crate::graph::NodeView)
    requires
        crate::graph::node_goes_first(a, b),
    ensures
        !crate::graph::node_goes_first(b, a),
{
    crate::order::precedes_is_strict(
        crate::order::char_codes(a.id),
        crate::order::char_codes(b.id),
    );
}

/// A reordered list has the same nodes, each once.
pub proof fn reordered_nodes(
    a: Seq<crate::graph::NodeView>,
    b: Seq<crate::graph::NodeView>,
)
    requires
        a.to_multiset() == b.to_multiset(),
        crate::graph::distinct_nodes(a),
    ensures
        crate::graph::distinct_nodes(b),
        forall|node: crate::graph::NodeView|
            #![trigger b.contains(node)]
            a.contains(node) <==> b.contains(node),
{
    a.to_multiset_ensures();
    b.to_multiset_ensures();
    assert forall|node: crate::graph::NodeView|
        #![trigger b.contains(node)]
        a.contains(node) <==> b.contains(node) by {
        assert(a.contains(node) <==> a.to_multiset().count(node) > 0);
    }
    a.lemma_multiset_has_no_duplicates();
    b.lemma_multiset_has_no_duplicates_conv();
    assert forall|i: int, j: int|
        #![trigger b[i], b[j]]
        0 <= i < j < b.len() implies b[i].id != b[j].id by {
        assert(b.contains(b[i]) && b.contains(b[j]));
        assert(a.contains(b[i]) && a.contains(b[j]));
        let p = choose|p: int| 0 <= p < a.len() && a[p] == b[i];
        let q = choose|q: int| 0 <= q < a.len() && a[q] == b[j];
        if p < q {
            assert(a[p].id != a[q].id);
        } else if q < p {
            assert(a[q].id != a[p].id);
        }
    }
}

} // verus!
