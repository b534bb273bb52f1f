//! Stacks as chains of graph nodes, from the root to the leaf.
use vstd::prelude::*;

use crate::order::same_text;
use crate::symbol::node_id_for;

verus! {

/// The nodes that a stack passes through, from the root to the leaf. Frames are stored leaf
/// first; consecutive frames of the same node count once.
pub open spec fn chain(
    frames: Seq<Seq<char>>,
    prefixes: Seq<Seq<char>>,
) -> Seq<crate::symbol::NodeKey>
    decreases frames.len(),
{
    if frames.len() == 0 {
        Seq::empty()
    } else {
        let callers = chain(frames.drop_first(), prefixes);
        let node = crate::symbol::node_of(frames[0], prefixes);
        if callers.len() > 0 && callers.last().id == node.id {
            callers
        } else {
            callers.push(node)
        }
    }
}

/// How often a chain passes through a node.
pub open spec fn visits(chain: Seq<crate::symbol::NodeKey>, id: Seq<char>) -> nat
    decreases chain.len(),
{
    if chain.len() == 0 {
        0
    } else {
        visits(chain.drop_last(), id) + if chain.last().id == id {
            1nat
        } else {
            0nat
        }
    }
}

/// How often a chain goes from one node straight to another.
pub open spec fn crossings(
    chain: Seq<crate::symbol::NodeKey>,
    source: Seq<char>,
    target: Seq<char>,
) -> nat
    decreases chain.len(),
{
    if chain.len() < 2 {
        0
    } else {
        crossings(chain.drop_last(), source, target) + if chain[chain.len() - 2].id == source
            && chain.last().id == target {
            1nat
        } else {
            0nat
        }
    }
}

/// A chain visits exactly the nodes that stand in it.
pub proof fn visits_only_members(chain: Seq<crate::symbol::NodeKey>, id: Seq<char>)
    ensures
        visits(chain, id) > 0 <==> exists|k: int|
            0 <= k < chain.len() && (#[trigger] chain[k]).id == id,
    decreases chain.len(),
{
    if chain.len() > 0 {
        let rest = chain.drop_last();
        visits_only_members(rest, id);
        if visits(rest, id) > 0 {
            let k = choose|k: int| 0 <= k < rest.len() && (#[trigger] rest[k]).id == id;
            assert(chain[k].id == id);
        }
        if exists|k: int| 0 <= k < chain.len() && (#[trigger] chain[k]).id == id {
            let k = choose|k: int| 0 <= k < chain.len() && (#[trigger] chain[k]).id == id;
            if k < rest.len() {
                assert(rest[k].id == id);
            }
        }
    }
}

/// A chain crosses exactly between its neighbours.
pub proof fn crossings_only_neighbours(
    chain: Seq<crate::symbol::NodeKey>,
    source: Seq<char>,
    target: Seq<char>,
)
    ensures
        crossings(chain, source, target) > 0 <==> exists|k: int|
            0 < k < chain.len() && chain[k - 1].id == source && (#[trigger] chain[k]).id == target,
    decreases chain.len(),
{
    if chain.len() >= 2 {
        let rest = chain.drop_last();
        crossings_only_neighbours(rest, source, target);
        if crossings(rest, source, target) > 0 {
            let k = choose|k: int|
                0 < k < rest.len() && rest[k - 1].id == source && (#[trigger] rest[k]).id
                    == target;
            assert(chain[k].id == target && chain[k - 1].id == source);
        }
        if exists|k: int|
            0 < k < chain.len() && chain[k - 1].id == source && (#[trigger] chain[k]).id
                == target {
            let k = choose|k: int|
                0 < k < chain.len() && chain[k - 1].id == source && (#[trigger] chain[k]).id
                    == target;
            if k < rest.len() {
                assert(rest[k].id == target && rest[k - 1].id == source);
            } else {
                assert(chain[k] == chain.last());
                assert(chain[chain.len() - 2].id == source);
            }
        }
    }
}

/// Neighbours in a chain are different nodes: the graph has no edge from a node to itself.
pub proof fn neighbours_differ(frames: Seq<Seq<char>>, prefixes: Seq<Seq<char>>, k: int)
    requires
        0 < k < chain(frames, prefixes).len(),
    ensures
        chain(frames, prefixes)[k - 1].id != chain(frames, prefixes)[k].id,
    decreases frames.len(),
{
    let callers = chain(frames.drop_first(), prefixes);
    if k < callers.len() {
        neighbours_differ(frames.drop_first(), prefixes, k);
    }
}

/// A chain holds the nodes of the stack's frames and no others.
pub proof fn chain_members(
    frames: Seq<Seq<char>>,
    prefixes: Seq<Seq<char>>,
    node: crate::symbol::NodeKey,
)
    ensures
        chain(frames, prefixes).contains(node) <==> exists|k: int|
            0 <= k < frames.len() && crate::symbol::node_of(#[trigger] frames[k], prefixes)
                == node,
    decreases frames.len(),
{
    if frames.len() > 0 {
        let tail = frames.drop_first();
        let callers = chain(tail, prefixes);
        let whole = chain(frames, prefixes);
        let own = crate::symbol::node_of(frames[0], prefixes);
        chain_members(tail, prefixes, node);
        if callers.contains(node) {
            let i = choose|i: int| 0 <= i < callers.len() && callers[i] == node;
            assert(whole[i] == node);
            let k = choose|k: int|
                0 <= k < tail.len() && crate::symbol::node_of(#[trigger] tail[k], prefixes)
                    == node;
            assert(frames[k + 1] == tail[k]);
        }
        if callers.len() > 0 && callers.last().id == own.id {
            let last = callers.last();
            chain_members(tail, prefixes, last);
            assert(callers[callers.len() - 1] == last);
            let k = choose|k: int|
                0 <= k < tail.len() && crate::symbol::node_of(#[trigger] tail[k], prefixes)
                    == last;
            crate::symbol::node_id_determines_node(tail[k], prefixes, frames[0], prefixes);
            assert(whole[whole.len() - 1] == own);
        } else {
            assert(whole[whole.len() - 1] == own);
        }
        if whole.contains(node) {
            let i = choose|i: int| 0 <= i < whole.len() && whole[i] == node;
            if i < callers.len() {
                assert(callers[i] == node);
            }
        }
        if exists|k: int|
            0 <= k < frames.len() && crate::symbol::node_of(#[trigger] frames[k], prefixes)
                == node {
            let k = choose|k: int|
                0 <= k < frames.len() && crate::symbol::node_of(#[trigger] frames[k], prefixes)
                    == node;
            if k > 0 {
                assert(tail[k - 1] == frames[k]);
            }
        }
    }
}

/// One element of a chain.
pub struct Hop {
    /// `crate::module`, or `runtime`.
    pub id: String,
    /// The top-level crate.
    pub crate_name: String,
    /// The module within the crate.
    pub module: String,
}

impl View for Hop {
    type V = crate::symbol::NodeKey;

    open spec fn view(&self) -> crate::symbol::NodeKey {
        crate::symbol::NodeKey {
            id: self.id@,
            crate_name: self.crate_name@,
            module: self.module@,
        }
    }
}

/// The nodes of a list of hops.
pub open spec fn hop_nodes(hops: Seq<Hop>) -> Seq<crate::symbol::NodeKey> {
    hops.map_values(|hop: Hop| hop@)
}

/// The chain of a stack, from the root to the leaf.
pub fn chain_of(frames: &Vec<String>, app_prefixes: &[String]) -> (hops: Vec<Hop>)
    ensures
        hop_nodes(hops@) == chain(
            crate::columns::texts(frames@),
            crate::columns::texts(app_prefixes@),
        ),
{
    let ghost all = crate::columns::texts(frames@);
    let ghost prefixes = crate::columns::texts(app_prefixes@);
    let mut hops: Vec<Hop> = Vec::new();
    let mut j: usize = frames.len();
    assert(hop_nodes(hops@) =~= chain(all.skip(j as int), prefixes));
    while j > 0
        invariant
            j <= frames@.len(),
            all == crate::columns::texts(frames@),
            prefixes == crate::columns::texts(app_prefixes@),
            hop_nodes(hops@) == chain(all.skip(j as int), prefixes),
        decreases j,
    {
        let ghost before = hops@;
        let ghost callers = hop_nodes(hops@);
        j = j - 1;
        assert(all.skip(j as int).drop_first() =~= all.skip(j + 1));
        assert(all.skip(j as int)[0] == frames@[j as int]@);
        let (id, crate_name, module) = node_id_for(frames[j].as_str(), app_prefixes);
        let n = hops.len();
        let repeated = n > 0 && same_text(hops[n - 1].id.as_str(), id.as_str());
        assert(n > 0 ==> callers.last() == before[n - 1]@);
        if !repeated {
            hops.push(Hop { id, crate_name, module });
            assert(hop_nodes(hops@) =~= callers.push(hops@[n as int]@));
        }
    }
    assert(all.skip(0) =~= all);
    hops
}

} // verus!
