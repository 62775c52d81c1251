//! The graph resolver: from a set of nodes and directed connections to the
//! single linear execution chain, or to nothing when no chain exists.
//!
//! The chain starts at the first node, in insertion order, whose in-degree
//! is zero. From there it follows each node's successor: when a node is the
//! source of several connections, the last connection in insertion order
//! wins. The walk stops when the current node has no successor, or when the
//! successor has already been chained (a cycle reached from the start); a
//! chained identity never repeats.

use vstd::prelude::*;
use crate::flowchart::{Connection, Node};

verus! {

broadcast use vstd::set::group_set_axioms, vstd::seq_lib::seq_to_set_is_finite;

/// How many connections end at `id`.
pub open spec fn in_degree(edges: Seq<Connection>, id: usize) -> nat
    decreases edges.len(),
{
    if edges.len() == 0 {
        0
    } else {
        in_degree(edges.drop_last(), id) + if edges.last().to == id {
            1nat
        } else {
            0nat
        }
    }
}

/// The node `id` feeds into, taking the last connection from `id` in
/// insertion order when there are several.
pub open spec fn successor(edges: Seq<Connection>, id: usize) -> Option<usize>
    decreases edges.len(),
{
    if edges.len() == 0 {
        None
    } else if edges.last().from == id {
        Some(edges.last().to)
    } else {
        successor(edges.drop_last(), id)
    }
}

/// The identity of the first node, in insertion order, with in-degree zero,
/// if one exists.
pub open spec fn first_start(nodes: Seq<Node>, edges: Seq<Connection>) -> Option<usize>
    decreases nodes.len(),
{
    if nodes.len() == 0 {
        None
    } else if in_degree(edges, nodes.first().id) == 0 {
        Some(nodes.first().id)
    } else {
        first_start(nodes.drop_first(), edges)
    }
}

/// What it means for `chain` to be the resolved execution chain of the
/// graph: it begins at the start node, every consecutive pair follows the
/// successor mapping, no identity repeats, and the chain cannot be extended
/// (its last element either has no successor, or its successor is already
/// chained).
pub open spec fn is_resolved_chain(
    nodes: Seq<Node>,
    edges: Seq<Connection>,
    chain: Seq<usize>,
) -> bool {
    &&& chain.len() >= 1
    &&& first_start(nodes, edges) == Some(chain[0])
    &&& forall|i: int|
        0 <= i < chain.len() - 1 ==> successor(edges, #[trigger] chain[i]) == Some(chain[i + 1])
    &&& forall|i: int, j: int| 0 <= i < j < chain.len() ==> #[trigger] chain[i] != #[trigger] chain[j]
    &&& (successor(edges, chain.last()) matches Some(t) ==> chain.contains(t))
}

/// The set of identities that some connection ends at. The walk of the
/// resolver only ever extends the chain with elements of this finite set,
/// which is what bounds it.
pub open spec fn to_ids(edges: Seq<Connection>) -> Set<usize> {
    edges.map_values(|c: Connection| c.to).to_set()
}

/// A successor always comes from a connection: one from `id` to `t`.
proof fn lemma_successor_is_some_to(edges: Seq<Connection>, id: usize, t: usize)
    requires
        successor(edges, id) == Some(t),
    ensures
        exists|i: int|
            0 <= i < edges.len() && (#[trigger] edges[i]).from == id && edges[i].to == t,
    decreases edges.len(),
{
    if edges.len() == 0 {
    } else if edges.last().from == id {
        assert(edges[edges.len() - 1].from == id && edges[edges.len() - 1].to == t);
    } else {
        lemma_successor_is_some_to(edges.drop_last(), id, t);
        let i = choose|i: int|
            0 <= i < edges.drop_last().len() && (#[trigger] edges.drop_last()[i]).from == id
                && edges.drop_last()[i].to == t;
        assert(edges[i].from == id && edges[i].to == t);
    }
}

/// A resolved chain is a path in the graph: every consecutive pair of
/// chained identities is joined by a connection from the first to the
/// second.
pub proof fn lemma_resolved_chain_is_path(
    nodes: Seq<Node>,
    edges: Seq<Connection>,
    chain: Seq<usize>,
)
    requires
        is_resolved_chain(nodes, edges, chain),
    ensures
        forall|i: int|
            0 <= i < chain.len() - 1 ==> exists|e: int|
                0 <= e < edges.len() && (#[trigger] edges[e]).from == #[trigger] chain[i]
                    && edges[e].to == chain[i + 1],
{
    assert forall|i: int| 0 <= i < chain.len() - 1 implies exists|e: int|
        0 <= e < edges.len() && (#[trigger] edges[e]).from == #[trigger] chain[i] && edges[e].to
            == chain[i + 1] by {
        assert(successor(edges, chain[i]) == Some(chain[i + 1]));
        lemma_successor_is_some_to(edges, chain[i], chain[i + 1]);
    };
}

/// A successor target belongs to `to_ids`.
proof fn lemma_successor_target_in_to_ids(edges: Seq<Connection>, id: usize, t: usize)
    requires
        successor(edges, id) == Some(t),
    ensures
        to_ids(edges).contains(t),
{
    lemma_successor_is_some_to(edges, id, t);
    let i = choose|i: int|
        0 <= i < edges.len() && (#[trigger] edges[i]).from == id && edges[i].to == t;
    assert(edges.map_values(|c: Connection| c.to)[i] == t);
    assert(edges.map_values(|c: Connection| c.to).contains(t));
}

/// Appending one element to a sequence inserts it into the element set.
proof fn lemma_push_to_set(s: Seq<usize>, x: usize)
    ensures
        s.push(x).to_set() =~= s.to_set().insert(x),
{
    assert forall|y: usize| #[trigger] s.push(x).contains(y) implies (s.contains(y) || y == x) by {
        let k = choose|k: int| 0 <= k < s.push(x).len() && s.push(x)[k] == y;
        if k < s.len() {
            assert(s[k] == y);
        }
    };
    assert forall|y: usize| s.contains(y) implies #[trigger] s.push(x).contains(y) by {
        let k = choose|k: int| 0 <= k < s.len() && s[k] == y;
        assert(s.push(x)[k] == y);
    };
    assert(s.push(x)[s.len() as int] == x);
    assert(s.push(x).contains(x));
}

/// A node with an incoming connection has positive in-degree.
pub proof fn lemma_in_degree_positive(edges: Seq<Connection>, id: usize, i: int)
    requires
        0 <= i < edges.len(),
        edges[i].to == id,
    ensures
        in_degree(edges, id) >= 1,
    decreases edges.len(),
{
    if i == edges.len() - 1 {
    } else {
        assert(edges.drop_last()[i] == edges[i]);
        lemma_in_degree_positive(edges.drop_last(), id, i);
    }
}

/// A node with no incoming connection has in-degree zero.
pub proof fn lemma_in_degree_zero(edges: Seq<Connection>, id: usize)
    requires
        forall|i: int| 0 <= i < edges.len() ==> (#[trigger] edges[i]).to != id,
    ensures
        in_degree(edges, id) == 0,
    decreases edges.len(),
{
    if edges.len() > 0 {
        assert(forall|i: int|
            0 <= i < edges.drop_last().len() ==> (#[trigger] edges.drop_last()[i]).to != id)
            by {
            assert(forall|i: int|
                0 <= i < edges.drop_last().len() ==> edges.drop_last()[i] == #[trigger] edges[i]);
        }
        lemma_in_degree_zero(edges.drop_last(), id);
        assert(edges[edges.len() - 1].to != id);
    }
}

/// No connection leaves `id`: it has no successor.
pub proof fn lemma_successor_none(edges: Seq<Connection>, id: usize)
    requires
        forall|i: int| 0 <= i < edges.len() ==> (#[trigger] edges[i]).from != id,
    ensures
        successor(edges, id) is None,
    decreases edges.len(),
{
    if edges.len() > 0 {
        assert(forall|i: int|
            0 <= i < edges.drop_last().len() ==> edges.drop_last()[i] == #[trigger] edges[i]);
        lemma_successor_none(edges.drop_last(), id);
        assert(edges[edges.len() - 1].from != id);
    }
}

/// Exactly one connection leaves `id`: it decides the successor.
pub proof fn lemma_successor_unique_edge(edges: Seq<Connection>, id: usize, k: int)
    requires
        0 <= k < edges.len(),
        edges[k].from == id,
        forall|i: int| 0 <= i < edges.len() && i != k ==> (#[trigger] edges[i]).from != id,
    ensures
        successor(edges, id) == Some(edges[k].to),
    decreases edges.len(),
{
    if k == edges.len() - 1 {
    } else {
        assert(edges[edges.len() - 1].from != id);
        assert(forall|i: int|
            0 <= i < edges.drop_last().len() ==> edges.drop_last()[i] == #[trigger] edges[i]);
        lemma_successor_unique_edge(edges.drop_last(), id, k);
    }
}

/// Two resolved chains of the same graph agree wherever both are defined.
proof fn lemma_resolved_chain_prefix_agree(
    nodes: Seq<Node>,
    edges: Seq<Connection>,
    c1: Seq<usize>,
    c2: Seq<usize>,
    i: int,
)
    requires
        is_resolved_chain(nodes, edges, c1),
        is_resolved_chain(nodes, edges, c2),
        0 <= i < c1.len(),
        i < c2.len(),
    ensures
        c1[i] == c2[i],
    decreases i,
{
    if i > 0 {
        lemma_resolved_chain_prefix_agree(nodes, edges, c1, c2, i - 1);
        assert(successor(edges, c1[i - 1]) == Some(c1[i]));
        assert(successor(edges, c2[i - 1]) == Some(c2[i]));
    }
}

/// A resolved chain is never shorter than another resolved chain of the
/// same graph.
proof fn lemma_resolved_chain_len_ge(
    nodes: Seq<Node>,
    edges: Seq<Connection>,
    c1: Seq<usize>,
    c2: Seq<usize>,
)
    requires
        is_resolved_chain(nodes, edges, c1),
        is_resolved_chain(nodes, edges, c2),
    ensures
        c1.len() >= c2.len(),
{
    if c1.len() < c2.len() {
        let l1 = c1.len() as int;
        assert forall|i: int| 0 <= i < l1 implies c1[i] == #[trigger] c2[i] by {
            lemma_resolved_chain_prefix_agree(nodes, edges, c1, c2, i);
        };
        // c1 ends where c2 still continues, so c1's last element has the
        // successor c2[l1]; maximality then puts c2[l1] somewhere in c1,
        // which makes c2 repeat an identity.
        assert(c1.last() == c2[l1 - 1]);
        assert(successor(edges, c2[l1 - 1]) == Some(c2[l1]));
        assert(c1.contains(c2[l1]));
        let k = choose|k: int| 0 <= k < c1.len() && c1[k] == c2[l1];
        assert(c2[k] == c2[l1]);
    }
}

/// A graph has at most one resolved chain. Together with the
/// postcondition of [`resolve_chain`], the sequence it returns is exactly
/// the one chain the graph admits.
pub proof fn lemma_resolved_chain_unique(
    nodes: Seq<Node>,
    edges: Seq<Connection>,
    c1: Seq<usize>,
    c2: Seq<usize>,
)
    requires
        is_resolved_chain(nodes, edges, c1),
        is_resolved_chain(nodes, edges, c2),
    ensures
        c1 =~= c2,
{
    lemma_resolved_chain_len_ge(nodes, edges, c1, c2);
    lemma_resolved_chain_len_ge(nodes, edges, c2, c1);
    assert forall|i: int| 0 <= i < c1.len() implies c1[i] == #[trigger] c2[i] by {
        lemma_resolved_chain_prefix_agree(nodes, edges, c1, c2, i);
    };
}

/// With no connections at all, resolution starts at the first node and can
/// go nowhere: the chain is that node alone. With no nodes either, there is
/// no chain.
pub proof fn lemma_no_edges_chain(nodes: Seq<Node>, edges: Seq<Connection>, chain: Seq<usize>)
    requires
        edges.len() == 0,
        is_resolved_chain(nodes, edges, chain),
    ensures
        nodes.len() > 0,
        chain =~= seq![nodes[0].id],
{
    if chain.len() >= 2 {
        assert(successor(edges, chain[0]) == Some(chain[1]));
    }
}

/// With no connections, a chain exists exactly when a node exists.
pub proof fn lemma_no_edges_start(nodes: Seq<Node>, edges: Seq<Connection>)
    requires
        edges.len() == 0,
    ensures
        nodes.len() > 0 ==> first_start(nodes, edges) == Some(nodes[0].id),
        nodes.len() == 0 ==> first_start(nodes, edges) is None,
{
}

/// When every node has an incoming connection — in particular, when the
/// whole graph is a cycle with no entry point — no start node exists and
/// resolution fails.
pub proof fn lemma_no_entry_no_start(nodes: Seq<Node>, edges: Seq<Connection>)
    requires
        forall|j: int|
            0 <= j < nodes.len() ==> exists|i: int|
                0 <= i < edges.len() && (#[trigger] edges[i]).to == (#[trigger] nodes[j]).id,
    ensures
        first_start(nodes, edges) is None,
    decreases nodes.len(),
{
    if nodes.len() > 0 {
        assert(exists|i: int| 0 <= i < edges.len() && (#[trigger] edges[i]).to == nodes[0].id);
        let i = choose|i: int| 0 <= i < edges.len() && (#[trigger] edges[i]).to == nodes[0].id;
        lemma_in_degree_positive(edges, nodes.first().id, i);
        assert(forall|j: int|
            0 <= j < nodes.drop_first().len() ==> nodes.drop_first()[j] == #[trigger] nodes[j
                + 1]);
        lemma_no_entry_no_start(nodes.drop_first(), edges);
    }
}

/// An acyclic simple path resolves to exactly its own order: when the nodes
/// carry the distinct identities `ids` and the connections are precisely
/// the steps `ids[i] -> ids[i + 1]`, the whole of `ids` is the resolved
/// chain (and by [`lemma_resolved_chain_unique`] the only one).
pub proof fn lemma_simple_path_resolves(nodes: Seq<Node>, edges: Seq<Connection>, ids: Seq<usize>)
    requires
        ids.len() >= 1,
        nodes.len() == ids.len(),
        edges.len() == ids.len() - 1,
        forall|j: int| 0 <= j < nodes.len() ==> (#[trigger] nodes[j]).id == ids[j],
        forall|i: int|
            0 <= i < edges.len() ==> #[trigger] edges[i] == (Connection {
                from: ids[i],
                to: ids[i + 1],
            }),
        forall|i: int, j: int| 0 <= i < j < ids.len() ==> #[trigger] ids[i] != #[trigger] ids[j],
    ensures
        is_resolved_chain(nodes, edges, ids),
{
    assert(in_degree(edges, ids[0]) == 0) by {
        assert(forall|i: int| 0 <= i < edges.len() ==> (#[trigger] edges[i]).to != ids[0]);
        lemma_in_degree_zero(edges, ids[0]);
    }
    assert(first_start(nodes, edges) == Some(ids[0]));
    assert forall|j: int| 0 <= j < ids.len() - 1 implies successor(edges, #[trigger] ids[j])
        == Some(ids[j + 1]) by {
        assert(edges[j].from == ids[j]);
        assert(forall|i: int|
            0 <= i < edges.len() && i != j ==> (#[trigger] edges[i]).from != ids[j]);
        lemma_successor_unique_edge(edges, ids[j], j);
    };
    assert(successor(edges, ids.last()) is None) by {
        assert(forall|i: int| 0 <= i < edges.len() ==> (#[trigger] edges[i]).from != ids.last());
        lemma_successor_none(edges, ids.last());
    }
    assert(forall|i: int|
        0 <= i < ids.len() - 1 ==> successor(edges, #[trigger] ids[i]) == Some(ids[i + 1]));
}

/// Counts the connections ending at `id`.
fn in_degree_of(edges: &Vec<Connection>, id: usize) -> (r: usize)
    ensures
        r == in_degree(edges@, id),
{
    let mut count: usize = 0;
    let mut i: usize = 0;
    while i < edges.len()
        invariant
            i <= edges.len(),
            count == in_degree(edges@.take(i as int), id),
            count <= i,
        decreases edges.len() - i,
    {
        proof {
            assert(edges@.take(i + 1).drop_last() =~= edges@.take(i as int));
            assert(edges@.take(i + 1).last() == edges@[i as int]);
        }
        if edges[i].to == id {
            count = count + 1;
        }
        i = i + 1;
    }
    proof {
        assert(edges@.take(edges@.len() as int) =~= edges@);
    }
    count
}

/// Looks up the successor of `id`, the last connection from `id` winning.
fn successor_of(edges: &Vec<Connection>, id: usize) -> (r: Option<usize>)
    ensures
        r == successor(edges@, id),
{
    let mut sux: Option<usize> = None;
    let mut i: usize = 0;
    while i < edges.len()
        invariant
            i <= edges.len(),
            sux == successor(edges@.take(i as int), id),
        decreases edges.len() - i,
    {
        proof {
            assert(edges@.take(i + 1).drop_last() =~= edges@.take(i as int));
            assert(edges@.take(i + 1).last() == edges@[i as int]);
        }
        if edges[i].from == id {
            sux = Some(edges[i].to);
        }
        i = i + 1;
    }
    proof {
        assert(edges@.take(edges@.len() as int) =~= edges@);
    }
    sux
}

/// Finds the first node, in insertion order, with in-degree zero.
fn find_start(nodes: &Vec<Node>, edges: &Vec<Connection>) -> (r: Option<usize>)
    ensures
        r == first_start(nodes@, edges@),
{
    proof {
        assert(nodes@.skip(0) =~= nodes@);
    }
    let mut j: usize = 0;
    while j < nodes.len()
        invariant
            j <= nodes.len(),
            first_start(nodes@, edges@) == first_start(nodes@.skip(j as int), edges@),
        decreases nodes.len() - j,
    {
        proof {
            assert(nodes@.skip(j as int).first() == nodes@[j as int]);
        }
        if in_degree_of(edges, nodes[j].id) == 0 {
            return Some(nodes[j].id);
        }
        proof {
            assert(nodes@.skip(j as int).drop_first() =~= nodes@.skip(j + 1));
        }
        j = j + 1;
    }
    proof {
        assert(nodes@.skip(nodes@.len() as int) =~= Seq::<Node>::empty());
    }
    None
}

/// Whether `id` already occurs in `chain`.
fn chain_contains(chain: &Vec<usize>, id: usize) -> (r: bool)
    ensures
        r == chain@.contains(id),
{
    let mut i: usize = 0;
    while i < chain.len()
        invariant
            i <= chain.len(),
            forall|k: int| 0 <= k < i ==> #[trigger] chain@[k] != id,
        decreases chain.len() - i,
    {
        if chain[i] == id {
            return true;
        }
        i = i + 1;
    }
    false
}

/// Resolves the graph into its linear execution chain.
///
/// A chain exists exactly when some node has in-degree zero; the returned
/// chain is then the unique sequence characterised by
/// [`is_resolved_chain`]. Duplicate connections, connections mentioning
/// identities that no node carries, and nodes unreachable from the start
/// are all tolerated: the former only shape in-degrees and successors, the
/// latter are simply left out of the chain.
pub fn resolve_chain(nodes: &Vec<Node>, edges: &Vec<Connection>) -> (r: Option<Vec<usize>>)
    ensures
        r is Some <==> first_start(nodes@, edges@) is Some,
        r matches Some(c) ==> is_resolved_chain(nodes@, edges@, c@),
{
    let start = match find_start(nodes, edges) {
        None => {
            return None;
        },
        Some(s) => s,
    };
    let mut chain: Vec<usize> = Vec::new();
    chain.push(start);
    let mut current: usize = start;
    loop
        invariant
            chain@.len() >= 1,
            chain@[0] == start,
            first_start(nodes@, edges@) == Some(start),
            current == chain@.last(),
            forall|i: int|
                0 <= i < chain@.len() - 1 ==> successor(edges@, #[trigger] chain@[i]) == Some(
                    chain@[i + 1],
                ),
            forall|i: int, j: int|
                0 <= i < j < chain@.len() ==> #[trigger] chain@[i] != #[trigger] chain@[j],
        ensures
            (successor(edges@, chain@.last()) matches Some(t) ==> chain@.contains(t)),
            chain@.len() >= 1,
            chain@[0] == start,
            forall|i: int|
                0 <= i < chain@.len() - 1 ==> successor(edges@, #[trigger] chain@[i]) == Some(
                    chain@[i + 1],
                ),
            forall|i: int, j: int|
                0 <= i < j < chain@.len() ==> #[trigger] chain@[i] != #[trigger] chain@[j],
        decreases to_ids(edges@).difference(chain@.to_set()).len(),
    {
        match successor_of(edges, current) {
            None => {
                break ;
            },
            Some(next) => {
                if chain_contains(&chain, next) {
                    break ;
                }
                proof {
                    let all = to_ids(edges@);
                    let d = all.difference(chain@.to_set());
                    lemma_successor_target_in_to_ids(edges@, current, next);
                    assert(!chain@.to_set().contains(next));
                    assert(d.contains(next));
                    assert(all.finite());
                    assert(d.finite());
                    lemma_push_to_set(chain@, next);
                    assert(all.difference(chain@.push(next).to_set()) =~= d.remove(next));
                }
                chain.push(next);
                current = next;
            },
        }
    }
    Some(chain)
}

} // verus!
