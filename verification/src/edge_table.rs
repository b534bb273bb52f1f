//! The edge table that a graph is accumulated in, stack by stack and hop by hop.
use vstd::prelude::*;

use crate::graph::GraphEdge;
use crate::order::same_text;

verus! {

/// The count of an edge after some stacks and the first hops of another one.
pub open spec fn partial_count(
    dict: Map<Seq<u8>, Seq<Seq<char>>>,
    prefixes: Seq<Seq<char>>,
    done: Seq<(Seq<u8>, crate::accum::Tally)>,
    part: Seq<crate::symbol::NodeKey>,
    tally: crate::accum::Tally,
    source: Seq<char>,
    target: Seq<char>,
) -> nat {
    crate::id_map::rows_sum(done, crate::graph::count_weight(dict, prefixes, source, target))
        + tally.total * crate::chain::crossings(part, source, target)
}

/// Some finished stack, or the first hops of the current one, take the edge.
pub open spec fn crossed(
    dict: Map<Seq<u8>, Seq<Seq<char>>>,
    prefixes: Seq<Seq<char>>,
    done: Seq<(Seq<u8>, crate::accum::Tally)>,
    part: Seq<crate::symbol::NodeKey>,
    source: Seq<char>,
    target: Seq<char>,
) -> bool {
    crate::graph::adjacent(part, source, target) || exists|r: int|
        0 <= r < done.len() && crate::graph::adjacent(
            #[trigger] crate::graph::stack_chain(dict, prefixes, done[r].0),
            source,
            target,
        )
}

/// The table holds exactly the edges taken so far, each with its count so far.
pub open spec fn edges_hold(
    edges: Seq<crate::graph::EdgeView>,
    dict: Map<Seq<u8>, Seq<Seq<char>>>,
    prefixes: Seq<Seq<char>>,
    done: Seq<(Seq<u8>, crate::accum::Tally)>,
    part: Seq<crate::symbol::NodeKey>,
    tally: crate::accum::Tally,
) -> bool {
    &&& crate::graph::distinct_edges(edges)
    &&& forall|i: int|
        #![trigger edges[i]]
        0 <= i < edges.len() ==> {
            &&& crossed(dict, prefixes, done, part, edges[i].source, edges[i].target)
            &&& edges[i].count == partial_count(
                dict,
                prefixes,
                done,
                part,
                tally,
                edges[i].source,
                edges[i].target,
            )
        }
    &&& forall|source: Seq<char>, target: Seq<char>| #[trigger]
        crossed(dict, prefixes, done, part, source, target) ==> crate::graph::has_edge(
            edges,
            source,
            target,
        )
}

/// The table after one more transition.
pub open spec fn after_crossing(
    edges: Seq<crate::graph::EdgeView>,
    source: Seq<char>,
    target: Seq<char>,
    total: nat,
) -> Seq<crate::graph::EdgeView> {
    if crate::graph::has_edge(edges, source, target) {
        let i = choose|i: int|
            0 <= i < edges.len() && (#[trigger] edges[i]).source == source && edges[i].target
                == target;
        edges.update(
            i,
            crate::graph::EdgeView { count: edges[i].count + total, ..edges[i] },
        )
    } else {
        edges.push(crate::graph::EdgeView { source, target, count: total })
    }
}

/// An edge that was never taken counts nothing.
pub proof fn uncrossed_counts_nothing(
    dict: Map<Seq<u8>, Seq<Seq<char>>>,
    prefixes: Seq<Seq<char>>,
    done: Seq<(Seq<u8>, crate::accum::Tally)>,
    part: Seq<crate::symbol::NodeKey>,
    tally: crate::accum::Tally,
    source: Seq<char>,
    target: Seq<char>,
)
    requires
        !crossed(dict, prefixes, done, part, source, target),
    ensures
        partial_count(dict, prefixes, done, part, tally, source, target) == 0,
{
    crate::chain::crossings_only_neighbours(part, source, target);
    let f = crate::graph::count_weight(dict, prefixes, source, target);
    assert forall|r: int| 0 <= r < done.len() implies f((#[trigger] done[r]).0, done[r].1)
        == 0 by {
        let chain = crate::graph::stack_chain(dict, prefixes, done[r].0);
        crate::chain::crossings_only_neighbours(chain, source, target);
        assert(!crate::graph::adjacent(chain, source, target));
        assert(f(done[r].0, done[r].1) == done[r].1.total * 0nat);
    }
    crate::id_map::rows_sum_of_nothing(done, f);
    assert(tally.total * 0nat == 0);
}

/// What one more hop means for the edges: only the one from the last hop to the new one is taken
/// once more.
proof fn one_more_hop(
    dict: Map<Seq<u8>, Seq<Seq<char>>>,
    prefixes: Seq<Seq<char>>,
    done: Seq<(Seq<u8>, crate::accum::Tally)>,
    part: Seq<crate::symbol::NodeKey>,
    tally: crate::accum::Tally,
    key: crate::symbol::NodeKey,
)
    ensures
        forall|s: Seq<char>, t: Seq<char>| #[trigger]
            partial_count(dict, prefixes, done, part.push(key), tally, s, t) == partial_count(
                dict,
                prefixes,
                done,
                part,
                tally,
                s,
                t,
            ) + if part.len() > 0 && s == part.last().id && t == key.id {
                tally.total
            } else {
                0
            },
        forall|s: Seq<char>, t: Seq<char>| #[trigger]
            crossed(dict, prefixes, done, part.push(key), s, t) <==> (crossed(
                dict,
                prefixes,
                done,
                part,
                s,
                t,
            ) || (part.len() > 0 && s == part.last().id && t == key.id)),
{
    let longer = part.push(key);
    let n = part.len() as int;
    assert(longer.drop_last() =~= part);
    assert forall|s: Seq<char>, t: Seq<char>| #[trigger]
        partial_count(dict, prefixes, done, longer, tally, s, t) == partial_count(
            dict,
            prefixes,
            done,
            part,
            tally,
            s,
            t,
        ) + if part.len() > 0 && s == part.last().id && t == key.id {
            tally.total
        } else {
            0
        } by {
        let c = crate::chain::crossings(part, s, t);
        assert(tally.total * (c + 1) == tally.total * c + tally.total) by (nonlinear_arith);
        if n > 0 {
            assert(longer[longer.len() - 2] == part.last());
        }
    }
    assert forall|s: Seq<char>, t: Seq<char>| #[trigger]
        crossed(dict, prefixes, done, longer, s, t) <==> (crossed(
            dict,
            prefixes,
            done,
            part,
            s,
            t,
        ) || (part.len() > 0 && s == part.last().id && t == key.id)) by {
        if crate::graph::adjacent(longer, s, t) {
            let k = choose|k: int|
                0 < k < longer.len() && longer[k - 1].id == s && (#[trigger] longer[k]).id == t;
            if k < n {
                assert(part[k].id == t && part[k - 1].id == s);
                assert(crate::graph::adjacent(part, s, t));
            }
        }
        if crate::graph::adjacent(part, s, t) {
            let k = choose|k: int|
                0 < k < part.len() && part[k - 1].id == s && (#[trigger] part[k]).id == t;
            assert(longer[k].id == t && longer[k - 1].id == s);
            assert(crate::graph::adjacent(longer, s, t));
        }
        if n > 0 && s == part.last().id && t == key.id {
            assert(longer[n].id == t && longer[n - 1].id == s);
            assert(crate::graph::adjacent(longer, s, t));
        }
    }
}

/// The first hop of a stack takes no edge.
pub proof fn first_hop_keeps_table(
    edges: Seq<crate::graph::EdgeView>,
    dict: Map<Seq<u8>, Seq<Seq<char>>>,
    prefixes: Seq<Seq<char>>,
    done: Seq<(Seq<u8>, crate::accum::Tally)>,
    tally: crate::accum::Tally,
    key: crate::symbol::NodeKey,
)
    requires
        edges_hold(edges, dict, prefixes, done, Seq::empty(), tally),
    ensures
        edges_hold(edges, dict, prefixes, done, Seq::empty().push(key), tally),
{
    let none = Seq::<crate::symbol::NodeKey>::empty();
    one_more_hop(dict, prefixes, done, none, tally, key);
    assert forall|i: int|
        #![trigger edges[i]]
        0 <= i < edges.len() implies crossed(
        dict,
        prefixes,
        done,
        none.push(key),
        edges[i].source,
        edges[i].target,
    ) by {
        assert(crossed(dict, prefixes, done, none, edges[i].source, edges[i].target));
    }
}

/// One more transition keeps the table right.
pub proof fn crossing_keeps_table(
    edges: Seq<crate::graph::EdgeView>,
    dict: Map<Seq<u8>, Seq<Seq<char>>>,
    prefixes: Seq<Seq<char>>,
    done: Seq<(Seq<u8>, crate::accum::Tally)>,
    part: Seq<crate::symbol::NodeKey>,
    tally: crate::accum::Tally,
    key: crate::symbol::NodeKey,
)
    requires
        part.len() > 0,
        edges_hold(edges, dict, prefixes, done, part, tally),
    ensures
        edges_hold(
            after_crossing(edges, part.last().id, key.id, tally.total),
            dict,
            prefixes,
            done,
            part.push(key),
            tally,
        ),
{
    let source = part.last().id;
    let target = key.id;
    let after = after_crossing(edges, source, target, tally.total);
    let longer = part.push(key);
    one_more_hop(dict, prefixes, done, part, tally, key);
    if crate::graph::has_edge(edges, source, target) {
        let i = choose|i: int|
            0 <= i < edges.len() && (#[trigger] edges[i]).source == source && edges[i].target
                == target;
        assert forall|j: int| 0 <= j < after.len() implies (#[trigger] after[j]).source
            == edges[j].source && after[j].target == edges[j].target by {}
        assert forall|j: int|
            #![trigger after[j]]
            0 <= j < after.len() implies {
            &&& crossed(dict, prefixes, done, longer, after[j].source, after[j].target)
            &&& after[j].count == partial_count(
                dict,
                prefixes,
                done,
                longer,
                tally,
                after[j].source,
                after[j].target,
            )
        } by {
            assert(crossed(dict, prefixes, done, part, edges[j].source, edges[j].target));
            if j < i {
                assert(edges[j].source != edges[i].source || edges[j].target != edges[i].target);
            } else if i < j {
                assert(edges[i].source != edges[j].source || edges[i].target != edges[j].target);
            }
        }
        assert forall|s: Seq<char>, t: Seq<char>| #[trigger]
            crossed(dict, prefixes, done, longer, s, t) implies crate::graph::has_edge(
            after,
            s,
            t,
        ) by {
            if s == source && t == target {
                assert(after[i].source == s && after[i].target == t);
            } else {
                assert(crossed(dict, prefixes, done, part, s, t));
                let j = choose|j: int|
                    0 <= j < edges.len() && (#[trigger] edges[j]).source == s && edges[j].target
                        == t;
                assert(after[j].source == s && after[j].target == t);
            }
        }
        assert forall|a: int, b: int|
            #![trigger after[a], after[b]]
            0 <= a < b < after.len() implies after[a].source != after[b].source
            || after[a].target != after[b].target by {
            assert(edges[a].source != edges[b].source || edges[a].target != edges[b].target);
        }
    } else {
        assert(!crossed(dict, prefixes, done, part, source, target));
        uncrossed_counts_nothing(dict, prefixes, done, part, tally, source, target);
        let n = edges.len() as int;
        assert forall|j: int|
            #![trigger after[j]]
            0 <= j < after.len() implies {
            &&& crossed(dict, prefixes, done, longer, after[j].source, after[j].target)
            &&& after[j].count == partial_count(
                dict,
                prefixes,
                done,
                longer,
                tally,
                after[j].source,
                after[j].target,
            )
        } by {
            if j < n {
                assert(after[j] == edges[j]);
                assert(crossed(dict, prefixes, done, part, edges[j].source, edges[j].target));
            }
        }
        assert forall|s: Seq<char>, t: Seq<char>| #[trigger]
            crossed(dict, prefixes, done, longer, s, t) implies crate::graph::has_edge(
            after,
            s,
            t,
        ) by {
            if s == source && t == target {
                assert(after[n].source == s && after[n].target == t);
            } else {
                assert(crossed(dict, prefixes, done, part, s, t));
                let j = choose|j: int|
                    0 <= j < edges.len() && (#[trigger] edges[j]).source == s && edges[j].target
                        == t;
                assert(after[j].source == s && after[j].target == t);
            }
        }
        assert forall|a: int, b: int|
            #![trigger after[a], after[b]]
            0 <= a < b < after.len() implies after[a].source != after[b].source
            || after[a].target != after[b].target by {
            assert(after[a] == edges[a]);
            if b < n {
                assert(edges[a].source != edges[b].source || edges[a].target != edges[b].target);
            }
        }
    }
}

/// Finishing a stack keeps the table right.
pub proof fn finish_stack_keeps_table(
    edges: Seq<crate::graph::EdgeView>,
    dict: Map<Seq<u8>, Seq<Seq<char>>>,
    prefixes: Seq<Seq<char>>,
    done: Seq<(Seq<u8>, crate::accum::Tally)>,
    stack: Seq<u8>,
    tally: crate::accum::Tally,
    next: crate::accum::Tally,
)
    requires
        edges_hold(
            edges,
            dict,
            prefixes,
            done,
            crate::graph::stack_chain(dict, prefixes, stack),
            tally,
        ),
    ensures
        edges_hold(edges, dict, prefixes, done.push((stack, tally)), Seq::empty(), next),
{
    let part = crate::graph::stack_chain(dict, prefixes, stack);
    let longer = done.push((stack, tally));
    let none = Seq::<crate::symbol::NodeKey>::empty();
    assert(longer.drop_last() =~= done);
    assert forall|s: Seq<char>, t: Seq<char>| #[trigger]
        partial_count(dict, prefixes, longer, none, next, s, t) == partial_count(
            dict,
            prefixes,
            done,
            part,
            tally,
            s,
            t,
        ) by {
        assert(next.total * 0nat == 0);
    }
    assert forall|s: Seq<char>, t: Seq<char>| #[trigger]
        crossed(dict, prefixes, longer, none, s, t) <==> crossed(
            dict,
            prefixes,
            done,
            part,
            s,
            t,
        ) by {
        assert(longer[done.len() as int] == (stack, tally));
        if crossed(dict, prefixes, done, part, s, t) && !crate::graph::adjacent(part, s, t) {
            let r = choose|r: int|
                0 <= r < done.len() && crate::graph::adjacent(
                    #[trigger] crate::graph::stack_chain(dict, prefixes, done[r].0),
                    s,
                    t,
                );
            assert(longer[r] == done[r]);
        }
        if crossed(dict, prefixes, longer, none, s, t) {
            let r = choose|r: int|
                0 <= r < longer.len() && crate::graph::adjacent(
                    #[trigger] crate::graph::stack_chain(dict, prefixes, longer[r].0),
                    s,
                    t,
                );
            if r < done.len() {
                assert(longer[r] == done[r]);
            }
        }
        if crate::graph::adjacent(part, s, t) {
            assert(crate::graph::adjacent(
                crate::graph::stack_chain(dict, prefixes, longer[done.len() as int].0),
                s,
                t,
            ));
        }
    }
    assert forall|i: int|
        #![trigger edges[i]]
        0 <= i < edges.len() implies crossed(
        dict,
        prefixes,
        longer,
        none,
        edges[i].source,
        edges[i].target,
    ) by {
        assert(crossed(dict, prefixes, done, part, edges[i].source, edges[i].target));
    }
}

/// Where an edge stands in the table.
fn find_edge(edges: &Vec<GraphEdge>, source: &str, target: &str) -> (found: Option<usize>)
    ensures
        match found {
            Some(i) => {
                &&& i < edges@.len()
                &&& crate::graph::edge_views(edges@)[i as int].source == source@
                &&& crate::graph::edge_views(edges@)[i as int].target == target@
            },
            None => !crate::graph::has_edge(
                crate::graph::edge_views(edges@),
                source@,
                target@,
            ),
        },
{
    let ghost views = crate::graph::edge_views(edges@);
    let mut i: usize = 0;
    while i < edges.len()
        invariant
            i <= edges@.len(),
            views == crate::graph::edge_views(edges@),
            forall|j: int|
                0 <= j < i ==> !((#[trigger] views[j]).source == source@ && views[j].target
                    == target@),
        decreases edges@.len() - i,
    {
        assert(views[i as int] == edges@[i as int]@);
        if same_text(edges[i].source.as_str(), source) && same_text(
            edges[i].target.as_str(),
            target,
        ) {
            return Some(i);
        }
        i = i + 1;
    }
    None
}

/// Adds one transition to the table. `false` when the count would leave the machine's range; the
/// table is unchanged then.
pub fn add_crossing(edges: &mut Vec<GraphEdge>, source: &String, target: &String, total: u64) -> (
    fits: bool)
    requires
        crate::graph::distinct_edges(crate::graph::edge_views(old(edges)@)),
    ensures
        fits ==> crate::graph::edge_views(final(edges)@) == after_crossing(
            crate::graph::edge_views(old(edges)@),
            source@,
            target@,
            total as nat,
        ),
        !fits ==> exists|i: int|
            #![trigger crate::graph::edge_views(old(edges)@)[i]]
            0 <= i < old(edges)@.len() && {
                let edge = crate::graph::edge_views(old(edges)@)[i];
                &&& edge.source == source@
                &&& edge.target == target@
                &&& edge.count + total > u64::MAX
            },
{
    let ghost before = crate::graph::edge_views(edges@);
    match find_edge(edges, source.as_str(), target.as_str()) {
        Some(i) => {
            assert(before[i as int] == edges@[i as int]@);
            let ghost j = choose|j: int|
                0 <= j < before.len() && (#[trigger] before[j]).source == source@
                    && before[j].target == target@;
            assert(j == i) by {
                if j < i {
                    assert(before[j].source != before[i as int].source || before[j].target
                        != before[i as int].target);
                } else if i < j {
                    assert(before[i as int].source != before[j].source || before[i as int].target
                        != before[j].target);
                }
            }
            match edges[i].count.checked_add(total) {
                Some(count) => {
                    let edge = GraphEdge {
                        source: edges[i].source.clone(),
                        target: edges[i].target.clone(),
                        count,
                    };
                    edges[i] = edge;
                    assert(crate::graph::edge_views(edges@) =~= after_crossing(
                        before,
                        source@,
                        target@,
                        total as nat,
                    ));
                    true
                },
                None => {
                    assert(before[i as int].source == source@);
                    false
                },
            }
        },
        None => {
            let edge = GraphEdge { source: source.clone(), target: target.clone(), count: total };
            edges.push(edge);
            assert(crate::graph::edge_views(edges@) =~= after_crossing(
                before,
                source@,
                target@,
                total as nat,
            ));
            true
        },
    }
}

/// No edge stands before one with a larger count.
pub open spec fn edges_in_order(edges: Seq<crate::graph::EdgeView>) -> bool {
    forall|i: int, j: int|
        #![trigger edges[i], edges[j]]
        0 <= i < j < edges.len() ==> edges[i].count >= edges[j].count
}

/// Sorts edges by count, largest first.
pub fn sort_edges(edges: Vec<GraphEdge>) -> (sorted: Vec<GraphEdge>)
    ensures
        edges_in_order(crate::graph::edge_views(sorted@)),
        crate::graph::edge_views(sorted@).to_multiset() == crate::graph::edge_views(
            edges@,
        ).to_multiset(),
{
    let mut rest = edges;
    let mut sorted: Vec<GraphEdge> = Vec::new();
    let ghost all = crate::graph::edge_views(edges@).to_multiset();
    proof {
        assert(crate::graph::edge_views(sorted@) =~= Seq::empty());
        Seq::<crate::graph::EdgeView>::empty().to_multiset_ensures();
        assert(crate::graph::edge_views(rest@).to_multiset().add(
            crate::graph::edge_views(sorted@).to_multiset(),
        ) =~= all);
    }
    while rest.len() > 0
        invariant
            edges_in_order(crate::graph::edge_views(sorted@)),
            crate::graph::edge_views(rest@).to_multiset().add(
                crate::graph::edge_views(sorted@).to_multiset(),
            ) == all,
        decreases rest@.len(),
    {
        let ghost rest_views = crate::graph::edge_views(rest@);
        let ghost views = crate::graph::edge_views(sorted@);
        match rest.pop() {
            None => {},
            Some(edge) => {
                let mut pos: usize = 0;
                while pos < sorted.len() && sorted[pos].count > edge.count
                    invariant
                        pos <= sorted@.len(),
                        views == crate::graph::edge_views(sorted@),
                        forall|i: int| 0 <= i < pos ==> (#[trigger] views[i]).count > edge.count,
                    decreases sorted@.len() - pos,
                {
                    assert(views[pos as int] == sorted@[pos as int]@);
                    pos = pos + 1;
                }
                let ghost p = pos as int;
                assert(p < views.len() ==> views[p] == sorted@[p]@);
                sorted.insert(pos, edge);
                proof {
                    let after = crate::graph::edge_views(sorted@);
                    assert(after =~= views.insert(p, edge@));
                    assert forall|i: int, j: int|
                        #![trigger after[i], after[j]]
                        0 <= i < j < after.len() implies after[i].count >= after[j].count by {
                        let a = if i < p { i } else { i - 1 };
                        let b = if j < p { j } else { j - 1 };
                        if i != p {
                            assert(after[i] == views[a]);
                        }
                        if j != p {
                            assert(after[j] == views[b]);
                        }
                        if i == p && p < b {
                            assert(views[p].count >= views[b].count);
                        }
                    }
                    assert(crate::graph::edge_views(rest@) =~= rest_views.drop_last());
                    assert(rest_views =~= rest_views.drop_last().push(edge@));
                    vstd::seq_lib::to_multiset_build(rest_views.drop_last(), edge@);
                    vstd::seq_lib::to_multiset_insert(views, p, edge@);
                    assert(crate::graph::edge_views(rest@).to_multiset().add(
                        after.to_multiset(),
                    ) =~= all);
                }
            },
        }
    }
    proof {
        assert(crate::graph::edge_views(rest@) =~= Seq::empty());
        Seq::<crate::graph::EdgeView>::empty().to_multiset_ensures();
        assert(crate::graph::edge_views(sorted@).to_multiset() =~= all);
    }
    sorted
}

/// A reordered list has the same edges, each once.
pub proof fn reordered_edges(
    a: Seq<crate::graph::EdgeView>,
    b: Seq<crate::graph::EdgeView>,
)
    requires
        a.to_multiset() == b.to_multiset(),
        crate::graph::distinct_edges(a),
    ensures
        crate::graph::distinct_edges(b),
        forall|edge: crate::graph::EdgeView|
            #![trigger b.contains(edge)]
            a.contains(edge) <==> b.contains(edge),
{
    a.to_multiset_ensures();
    b.to_multiset_ensures();
    assert forall|edge: crate::graph::EdgeView|
        #![trigger b.contains(edge)]
        a.contains(edge) <==> b.contains(edge) by {
        assert(a.contains(edge) <==> a.to_multiset().count(edge) > 0);
    }
    a.lemma_multiset_has_no_duplicates();
    b.lemma_multiset_has_no_duplicates_conv();
    assert forall|i: int, j: int|
        #![trigger b[i], b[j]]
        0 <= i < j < b.len() implies b[i].source != b[j].source || b[i].target
        != b[j].target by {
        assert(b.contains(b[i]) && b.contains(b[j]));
        assert(a.contains(b[i]) && a.contains(b[j]));
        let p = choose|p: int| 0 <= p < a.len() && a[p] == b[i];
        let q = choose|q: int| 0 <= q < a.len() && a[q] == b[j];
        if p < q {
            assert(a[p].source != a[q].source || a[p].target != a[q].target);
        } else if q < p {
            assert(a[q].source != a[p].source || a[q].target != a[p].target);
        }
    }
}

} // verus!
