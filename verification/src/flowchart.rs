//! The flow-chart: nodes carrying shell command lines, directed connections
//! between them, and the operations a caller performs on the graph.

use vstd::prelude::*;
use crate::decimal::decimal_string;
use crate::decimal::spec_decimal;
use crate::resolve::{first_start, is_resolved_chain, resolve_chain};
use crate::engine::{failure_produced, run_chain, stage_produced, views_of, RunFailure, StageOutcome};

verus! {

/// A node in the flow-chart: a stable identity, the shell command line it
/// stands for, and the output captured for it by the most recent pipeline
/// run (empty until a run has reached it).
#[derive(Debug)]
pub struct Node {
    pub id: usize,
    pub command: String,
    pub output: String,
}

/// A directed connection: the output of node `from` feeds node `to`.
#[derive(Debug, Clone, Copy, PartialEq, Eq, Structural)]
pub struct Connection {
    pub from: usize,
    pub to: usize,
}

/// Node identities are unique and all below `next_id`, so a fresh node
/// never collides with an existing one.
pub open spec fn nodes_wf(nodes: Seq<Node>, next_id: usize) -> bool {
    &&& forall|i: int| 0 <= i < nodes.len() ==> (#[trigger] nodes[i].id) < next_id
    &&& forall|i: int, j: int|
        0 <= i < j < nodes.len() ==> #[trigger] nodes[i].id != #[trigger] nodes[j].id
}

/// Filtering nodes keeps identities unique and below the bound, and every
/// kept node is one of the original nodes.
proof fn lemma_filter_nodes_wf(s: Seq<Node>, pred: spec_fn(Node) -> bool, bound: usize)
    requires
        nodes_wf(s, bound),
    ensures
        nodes_wf(s.filter(pred), bound),
        forall|i: int|
            0 <= i < s.filter(pred).len() ==> exists|k: int|
                0 <= k < s.len() && #[trigger] s.filter(pred)[i] == s[k],
    decreases s.len(),
{
    reveal(Seq::filter);
    if s.len() == 0 {
        assert(s.filter(pred) =~= Seq::<Node>::empty());
    } else {
        let d = s.drop_last();
        assert(forall|i: int| 0 <= i < d.len() ==> d[i] == #[trigger] s[i]);
        lemma_filter_nodes_wf(d, pred, bound);
        let fd = d.filter(pred);
        if pred(s.last()) {
            assert(s.filter(pred) == fd.push(s.last()));
            let f = fd.push(s.last());
            assert forall|i: int| 0 <= i < f.len() implies exists|k: int|
                0 <= k < s.len() && #[trigger] f[i] == s[k] by {
                if i < fd.len() {
                    assert(f[i] == fd[i]);
                    let k = choose|k: int| 0 <= k < d.len() && fd[i] == d[k];
                    assert(f[i] == s[k]);
                } else {
                    assert(f[i] == s[s.len() - 1]);
                }
            };
            assert forall|i: int, j: int| 0 <= i < j < f.len() implies #[trigger] f[i].id
                != #[trigger] f[j].id by {
                if j < fd.len() {
                    assert(fd[i].id != fd[j].id);
                } else {
                    assert(f[j] == s.last());
                    let k = choose|k: int| 0 <= k < d.len() && fd[i] == d[k];
                    assert(f[i] == s[k]);
                    assert(s[k].id != s[s.len() - 1].id);
                }
            };
            assert forall|i: int| 0 <= i < f.len() implies (#[trigger] f[i].id) < bound by {
                if i < fd.len() {
                    assert(fd[i].id < bound);
                } else {
                    assert(f[i] == s.last());
                    assert(s[s.len() - 1].id < bound);
                }
            };
        } else {
            assert(s.filter(pred) == fd);
        }
    }
}

/// The first node, in insertion order, carrying identity `id`.
pub open spec fn find_node(nodes: Seq<Node>, id: usize) -> Option<Node>
    decreases nodes.len(),
{
    if nodes.len() == 0 {
        None
    } else if nodes.first().id == id {
        Some(nodes.first())
    } else {
        find_node(nodes.drop_first(), id)
    }
}

/// The command lines of the chained nodes, in chain order; a chained
/// identity that no node carries contributes nothing.
pub open spec fn chain_commands(nodes: Seq<Node>, chain: Seq<usize>) -> Seq<Seq<char>>
    decreases chain.len(),
{
    if chain.len() == 0 {
        Seq::empty()
    } else {
        chain_commands(nodes, chain.drop_last()) + match find_node(nodes, chain.last()) {
            Some(n) => seq![n.command@],
            None => Seq::empty(),
        }
    }
}

/// The output recorded for stage `i`: the captured text when the run got
/// that far, and empty text otherwise.
pub open spec fn stage_value(outputs: Seq<Seq<char>>, i: int) -> Seq<char> {
    if 0 <= i < outputs.len() {
        outputs[i]
    } else {
        Seq::empty()
    }
}

/// When no node carries `id`, every node's identity differs from it.
proof fn lemma_find_node_none(nodes: Seq<Node>, id: usize)
    requires
        find_node(nodes, id) is None,
    ensures
        forall|j: int| 0 <= j < nodes.len() ==> (#[trigger] nodes[j]).id != id,
    decreases nodes.len(),
{
    if nodes.len() > 0 {
        lemma_find_node_none(nodes.drop_first(), id);
        assert forall|j: int| 0 <= j < nodes.len() implies (#[trigger] nodes[j]).id != id by {
            if j > 0 {
                assert(nodes.drop_first()[j - 1] == nodes[j]);
            } else {
                assert(nodes[0] == nodes.first());
            }
        };
    }
}

/// Finds the index of the first node carrying identity `id`.
fn find_node_index(nodes: &Vec<Node>, id: usize) -> (r: Option<usize>)
    ensures
        match r {
            Some(j) => {
                &&& j < nodes@.len()
                &&& nodes@[j as int].id == id
                &&& find_node(nodes@, id) == Some(nodes@[j as int])
            },
            None => find_node(nodes@, id) is None,
        },
{
    proof {
        assert(nodes@.skip(0) =~= nodes@);
    }
    let mut j: usize = 0;
    while j < nodes.len()
        invariant
            j <= nodes.len(),
            find_node(nodes@, id) == find_node(nodes@.skip(j as int), id),
            forall|k: int| 0 <= k < j ==> (#[trigger] nodes@[k]).id != id,
        decreases nodes.len() - j,
    {
        proof {
            assert(nodes@.skip(j as int).first() == nodes@[j as int]);
        }
        if nodes[j].id == id {
            return Some(j);
        }
        proof {
            assert(nodes@.skip(j as int).drop_first() =~= nodes@.skip(j + 1));
        }
        j = j + 1;
    }
    proof {
        assert(nodes@.skip(nodes@.len() as int) =~= Seq::<Node>::empty());
    }
    None
}

/// The whole chart.
pub struct FlowChart {
    nodes: Vec<Node>,
    connections: Vec<Connection>,
    next_id: usize,
    selected_node: Option<usize>,
    connection_start: Option<usize>,
}

impl FlowChart {
    /// The nodes, in insertion order.
    pub closed spec fn spec_nodes(&self) -> Seq<Node> {
        self.nodes@
    }

    /// The connections, in insertion order.
    pub closed spec fn spec_connections(&self) -> Seq<Connection> {
        self.connections@
    }

    /// The identity the next added node will receive.
    pub closed spec fn spec_next_id(&self) -> usize {
        self.next_id
    }

    /// The currently selected node, if any.
    pub closed spec fn spec_selected(&self) -> Option<usize> {
        self.selected_node
    }

    /// The node a connection is being drawn from, if any.
    pub closed spec fn spec_connection_start(&self) -> Option<usize> {
        self.connection_start
    }

    /// Well-formedness: node identities are unique and below `next_id`.
    pub open spec fn wf(&self) -> bool {
        nodes_wf(self.spec_nodes(), self.spec_next_id())
    }

    /// An empty chart.
    pub fn new() -> (r: FlowChart)
        ensures
            r.wf(),
            r.spec_nodes().len() == 0,
            r.spec_connections().len() == 0,
            r.spec_next_id() == 1,
            r.spec_selected() is None,
            r.spec_connection_start() is None,
    {
        FlowChart {
            nodes: Vec::new(),
            connections: Vec::new(),
            next_id: 1,
            selected_node: None,
            connection_start: None,
        }
    }
}

impl FlowChart {
    /// Adds a new node with the default command line `echo Node <id>`.
    pub fn add_node(&mut self)
        requires
            old(self).wf(),
            old(self).spec_next_id() < usize::MAX,
        ensures
            final(self).wf(),
            final(self).spec_nodes().len() == old(self).spec_nodes().len() + 1,
            forall|i: int|
                0 <= i < old(self).spec_nodes().len() ==> final(self).spec_nodes()[i] == old(self).spec_nodes()[i],
            final(self).spec_nodes().last().id == old(self).spec_next_id(),
            final(self).spec_nodes().last().command@ == "echo Node "@ + spec_decimal(
                old(self).spec_next_id() as nat,
            ),
            final(self).spec_nodes().last().output@ == Seq::<char>::empty(),
            final(self).spec_next_id() == old(self).spec_next_id() + 1,
            final(self).spec_connections() == old(self).spec_connections(),
            final(self).spec_selected() == old(self).spec_selected(),
            final(self).spec_connection_start() == old(self).spec_connection_start(),
    {
        let command = "echo Node ".to_owned().concat(decimal_string(self.next_id).as_str());
        let node = Node { id: self.next_id, command, output: String::new() };
        self.next_id = self.next_id + 1;
        self.nodes.push(node);
    }

    /// Adds a new node carrying the given command line.
    pub fn add_node_with_command(&mut self, command: &str)
        requires
            old(self).wf(),
            old(self).spec_next_id() < usize::MAX,
        ensures
            final(self).wf(),
            final(self).spec_nodes().len() == old(self).spec_nodes().len() + 1,
            forall|i: int|
                0 <= i < old(self).spec_nodes().len() ==> final(self).spec_nodes()[i] == old(self).spec_nodes()[i],
            final(self).spec_nodes().last().id == old(self).spec_next_id(),
            final(self).spec_nodes().last().command@ == command@,
            final(self).spec_nodes().last().output@ == Seq::<char>::empty(),
            final(self).spec_next_id() == old(self).spec_next_id() + 1,
            final(self).spec_connections() == old(self).spec_connections(),
            final(self).spec_selected() == old(self).spec_selected(),
            final(self).spec_connection_start() == old(self).spec_connection_start(),
    {
        let node = Node { id: self.next_id, command: command.to_owned(), output: String::new() };
        self.next_id = self.next_id + 1;
        self.nodes.push(node);
    }

    /// Records a directed connection from `from` to `to`.
    pub fn add_connection(&mut self, from: usize, to: usize)
        requires
            old(self).wf(),
        ensures
            final(self).wf(),
            final(self).spec_connections() == old(self).spec_connections().push(
                Connection { from, to },
            ),
            final(self).spec_nodes() == old(self).spec_nodes(),
            final(self).spec_next_id() == old(self).spec_next_id(),
            final(self).spec_selected() == old(self).spec_selected(),
            final(self).spec_connection_start() == old(self).spec_connection_start(),
    {
        self.connections.push(Connection { from, to });
    }

    /// A click on the connection handle of node `id`: the first click arms
    /// a pending connection, the second click completes it — unless both
    /// clicks hit the same node, which merely disarms it.
    pub fn handle_connect_click(&mut self, id: usize)
        requires
            old(self).wf(),
        ensures
            final(self).wf(),
            final(self).spec_nodes() == old(self).spec_nodes(),
            final(self).spec_next_id() == old(self).spec_next_id(),
            final(self).spec_selected() == old(self).spec_selected(),
            match old(self).spec_connection_start() {
                None => {
                    &&& final(self).spec_connection_start() == Some(id)
                    &&& final(self).spec_connections() == old(self).spec_connections()
                },
                Some(start) => {
                    &&& final(self).spec_connection_start() is None
                    &&& final(self).spec_connections() == if start != id {
                        old(self).spec_connections().push(Connection { from: start, to: id })
                    } else {
                        old(self).spec_connections()
                    }
                },
            },
    {
        match self.connection_start {
            None => {
                self.connection_start = Some(id);
            },
            Some(start) => {
                if start != id {
                    self.connections.push(Connection { from: start, to: id });
                }
                self.connection_start = None;
            },
        }
    }

    /// Selects the given node (or clears the selection).
    pub fn set_selected(&mut self, selection: Option<usize>)
        requires
            old(self).wf(),
        ensures
            final(self).wf(),
            final(self).spec_selected() == selection,
            final(self).spec_nodes() == old(self).spec_nodes(),
            final(self).spec_connections() == old(self).spec_connections(),
            final(self).spec_next_id() == old(self).spec_next_id(),
            final(self).spec_connection_start() == old(self).spec_connection_start(),
    {
        self.selected_node = selection;
    }

    /// Disarms a pending connection (for instance when the user cancels).
    pub fn clear_connection_start(&mut self)
        requires
            old(self).wf(),
        ensures
            final(self).wf(),
            final(self).spec_connection_start() is None,
            final(self).spec_nodes() == old(self).spec_nodes(),
            final(self).spec_connections() == old(self).spec_connections(),
            final(self).spec_next_id() == old(self).spec_next_id(),
            final(self).spec_selected() == old(self).spec_selected(),
    {
        self.connection_start = None;
    }

    /// Computes the linear execution chain of the current graph, or
    /// nothing when no node is free of incoming connections. See
    /// [`resolve_chain`] for the exact characterisation.
    pub fn get_pipeline_chain(&self) -> (r: Option<Vec<usize>>)
        ensures
            r is Some <==> first_start(self.spec_nodes(), self.spec_connections()) is Some,
            r matches Some(c) ==> is_resolved_chain(
                self.spec_nodes(),
                self.spec_connections(),
                c@,
            ),
    {
        resolve_chain(&self.nodes, &self.connections)
    }

    /// Deletes the selected node, if any, together with every connection
    /// touching it; the selection is cleared, and a pending connection
    /// armed on the deleted node is disarmed.
    pub fn delete_selected_node(&mut self)
        requires
            old(self).wf(),
        ensures
            final(self).wf(),
            final(self).spec_next_id() == old(self).spec_next_id(),
            match old(self).spec_selected() {
                None => {
                    &&& final(self).spec_nodes() == old(self).spec_nodes()
                    &&& final(self).spec_connections() == old(self).spec_connections()
                    &&& final(self).spec_selected() is None
                    &&& final(self).spec_connection_start() == old(self).spec_connection_start()
                },
                Some(sel) => {
                    &&& final(self).spec_nodes() =~= old(self).spec_nodes().filter(
                        |n: Node| n.id != sel,
                    )
                    &&& final(self).spec_connections() =~= old(self).spec_connections().filter(
                        |c: Connection| c.from != sel && c.to != sel,
                    )
                    &&& final(self).spec_selected() is None
                    &&& final(self).spec_connection_start() == if old(self).spec_connection_start() == Some(sel) {
                        None::<usize>
                    } else {
                        old(self).spec_connection_start()
                    }
                },
            },
    {
        let sel = match self.selected_node {
            None => {
                return ;
            },
            Some(s) => s,
        };
        let ghost orig_nodes = self.nodes@;
        let ghost npred = |n: Node| n.id != sel;
        let ghost mut k: int = 0;
        let mut i: usize = 0;
        proof {
            reveal(Seq::filter);
            assert(orig_nodes.take(0).filter(npred) =~= Seq::<Node>::empty());
            assert(orig_nodes.skip(0) =~= orig_nodes);
        }
        while i < self.nodes.len()
            invariant
                0 <= k <= orig_nodes.len(),
                i as int == orig_nodes.take(k).filter(npred).len(),
                self.nodes@ =~= orig_nodes.take(k).filter(npred) + orig_nodes.skip(k),
                npred == (|n: Node| n.id != sel),
                orig_nodes == old(self).spec_nodes(),
                old(self).spec_selected() == Some(sel),
                self.connections@ == old(self).spec_connections(),
                self.next_id == old(self).spec_next_id(),
                self.selected_node == old(self).spec_selected(),
                self.connection_start == old(self).spec_connection_start(),
            decreases orig_nodes.len() - k,
        {
            proof {
                reveal(Seq::filter);
                assert(self.nodes@[i as int] == orig_nodes.skip(k)[0]);
                assert(orig_nodes.skip(k)[0] == orig_nodes[k]);
                assert(orig_nodes.take(k + 1).drop_last() =~= orig_nodes.take(k));
                assert(orig_nodes.take(k + 1).last() == orig_nodes[k]);
            }
            if self.nodes[i].id != sel {
                proof {
                    reveal(Seq::filter);
                    assert(orig_nodes.take(k + 1).filter(npred) =~= orig_nodes.take(k).filter(
                        npred,
                    ).push(orig_nodes[k]));
                    assert(self.nodes@ =~= orig_nodes.take(k + 1).filter(npred) + orig_nodes.skip(
                        k + 1,
                    ));
                    k = k + 1;
                }
                i = i + 1;
            } else {
                self.nodes.remove(i);
                proof {
                    reveal(Seq::filter);
                    assert(orig_nodes.take(k + 1).filter(npred) =~= orig_nodes.take(k).filter(
                        npred,
                    ));
                    assert(self.nodes@ =~= orig_nodes.take(k + 1).filter(npred) + orig_nodes.skip(
                        k + 1,
                    ));
                    k = k + 1;
                }
            }
        }
        proof {
            reveal(Seq::filter);
            assert(k == orig_nodes.len());
            assert(orig_nodes.take(k) =~= orig_nodes);
            assert(orig_nodes.skip(k) =~= Seq::<Node>::empty());
            assert(self.nodes@ =~= orig_nodes.filter(npred));
            lemma_filter_nodes_wf(orig_nodes, npred, self.next_id);
        }
        let ghost orig_conns = self.connections@;
        let ghost cpred = |c: Connection| c.from != sel && c.to != sel;
        let mut kept: Vec<Connection> = Vec::new();
        let mut j: usize = 0;
        proof {
            reveal(Seq::filter);
            assert(orig_conns.take(0).filter(cpred) =~= Seq::<Connection>::empty());
        }
        while j < self.connections.len()
            invariant
                j <= self.connections.len(),
                self.connections@ == orig_conns,
                kept@ =~= orig_conns.take(j as int).filter(cpred),
                self.nodes@ == old(self).spec_nodes().filter(npred),
                npred == (|n: Node| n.id != sel),
                cpred == (|c: Connection| c.from != sel && c.to != sel),
                orig_conns == old(self).spec_connections(),
                old(self).spec_selected() == Some(sel),
                nodes_wf(self.nodes@, self.next_id),
                self.next_id == old(self).spec_next_id(),
                self.selected_node == old(self).spec_selected(),
                self.connection_start == old(self).spec_connection_start(),
            decreases self.connections.len() - j,
        {
            proof {
                reveal(Seq::filter);
                assert(orig_conns.take(j + 1).drop_last() =~= orig_conns.take(j as int));
                assert(orig_conns.take(j + 1).last() == orig_conns[j as int]);
            }
            let c = self.connections[j];
            if c.from != sel && c.to != sel {
                kept.push(c);
            }
            j = j + 1;
        }
        proof {
            reveal(Seq::filter);
            assert(orig_conns.take(orig_conns.len() as int) =~= orig_conns);
        }
        self.connections = kept;
        if let Some(cs) = self.connection_start {
            if cs == sel {
                self.connection_start = None;
            }
        }
        self.selected_node = None;
    }

    /// Collects the command lines for the chained identities, in chain
    /// order, skipping identities that no node carries.
    pub fn commands_for_chain(&self, chain: &Vec<usize>) -> (r: Vec<String>)
        ensures
            r.deep_view() =~= chain_commands(self.spec_nodes(), chain@),
    {
        let mut result: Vec<String> = Vec::new();
        let mut i: usize = 0;
        proof {
            assert(chain@.take(0) =~= Seq::<usize>::empty());
            assert(result.deep_view() =~= chain_commands(self.spec_nodes(), chain@.take(0)));
        }
        while i < chain.len()
            invariant
                i <= chain.len(),
                result.deep_view() =~= chain_commands(self.spec_nodes(), chain@.take(i as int)),
            decreases chain.len() - i,
        {
            proof {
                assert(chain@.take(i + 1).drop_last() =~= chain@.take(i as int));
                assert(chain@.take(i + 1).last() == chain@[i as int]);
            }
            let ghost before = result.deep_view();
            match find_node_index(&self.nodes, chain[i]) {
                Some(j) => {
                    result.push(self.nodes[j].command.clone());
                    proof {
                        assert(result.deep_view() =~= before + seq![
                            self.spec_nodes()[j as int].command@,
                        ]);
                    }
                },
                None => {
                    proof {
                        assert(result.deep_view() =~= before + Seq::<Seq<char>>::empty());
                    }
                },
            }
            i = i + 1;
        }
        proof {
            assert(chain@.take(chain@.len() as int) =~= chain@);
        }
        result
    }

    /// Writes the captured stage outputs back onto the chained nodes: the
    /// node carrying identity `chain[i]` receives `outputs[i]`, or empty
    /// text when the run produced fewer outputs than the chain has stages.
    /// Nodes outside the chain keep their previous output.
    pub fn apply_outputs(&mut self, chain: &Vec<usize>, outputs: &Vec<String>)
        requires
            old(self).wf(),
            forall|i: int, j: int|
                0 <= i < j < chain@.len() ==> #[trigger] chain@[i] != #[trigger] chain@[j],
        ensures
            final(self).wf(),
            final(self).spec_nodes().len() == old(self).spec_nodes().len(),
            forall|j: int|
                0 <= j < old(self).spec_nodes().len() ==> (#[trigger] final(self).spec_nodes()[j]).id == old(self).spec_nodes()[j].id && final(self).spec_nodes()[j].command == old(self).spec_nodes()[j].command,
            forall|i: int, j: int|
                0 <= i < chain@.len() && 0 <= j < old(self).spec_nodes().len() && #[trigger]
                    chain@[i] == (#[trigger] old(self).spec_nodes()[j]).id ==> final(self).spec_nodes()[j].output@ == stage_value(outputs.deep_view(), i),
            forall|j: int|
                0 <= j < old(self).spec_nodes().len() && !chain@.contains(
                    (#[trigger] old(self).spec_nodes()[j]).id,
                ) ==> final(self).spec_nodes()[j].output == old(self).spec_nodes()[j].output,
            final(self).spec_connections() == old(self).spec_connections(),
            final(self).spec_next_id() == old(self).spec_next_id(),
            final(self).spec_selected() == old(self).spec_selected(),
            final(self).spec_connection_start() == old(self).spec_connection_start(),
    {
        let mut i: usize = 0;
        while i < chain.len()
            invariant
                i <= chain.len(),
                old(self).wf(),
                forall|i1: int, i2: int|
                    0 <= i1 < i2 < chain@.len() ==> #[trigger] chain@[i1] != #[trigger] chain@[i2],
                self.nodes@.len() == old(self).spec_nodes().len(),
                self.next_id == old(self).spec_next_id(),
                forall|j: int|
                    0 <= j < old(self).spec_nodes().len() ==> (#[trigger] self.nodes@[j]).id
                        == old(self).spec_nodes()[j].id && self.nodes@[j].command == old(self).spec_nodes()[j].command,
                forall|i1: int, j: int|
                    0 <= i1 < i && 0 <= j < old(self).spec_nodes().len() && #[trigger] chain@[i1]
                        == (#[trigger] old(self).spec_nodes()[j]).id ==> self.nodes@[j].output@
                        == stage_value(outputs.deep_view(), i1),
                forall|j: int|
                    0 <= j < old(self).spec_nodes().len() && !chain@.take(i as int).contains(
                        (#[trigger] old(self).spec_nodes()[j]).id,
                    ) ==> self.nodes@[j].output == old(self).spec_nodes()[j].output,
                self.connections@ == old(self).spec_connections(),
                self.selected_node == old(self).spec_selected(),
                self.connection_start == old(self).spec_connection_start(),
            decreases chain.len() - i,
        {
            let ghost before = self.nodes@;
            match find_node_index(&self.nodes, chain[i]) {
                Some(j) => {
                    let val = if i < outputs.len() {
                        outputs[i].clone()
                    } else {
                        String::new()
                    };
                    self.nodes[j].output = val;
                    proof {
                        assert(self.nodes@ =~= before.update(
                            j as int,
                            self.nodes@[j as int],
                        ));
                        assert(self.nodes@[j as int].id == before[j as int].id);
                        assert(self.nodes@[j as int].command == before[j as int].command);
                        assert(self.nodes@[j as int].output@ == stage_value(
                            outputs.deep_view(),
                            i as int,
                        ));
                    }
                },
                None => {
                    proof {
                        lemma_find_node_none(self.nodes@, chain@[i as int]);
                    }
                },
            }
            proof {
                assert(chain@.take(i + 1).drop_last() =~= chain@.take(i as int));
                assert forall|j: int|
                    0 <= j < old(self).spec_nodes().len() && !chain@.take(i + 1).contains(
                        (#[trigger] old(self).spec_nodes()[j]).id,
                    ) implies self.nodes@[j].output == old(self).spec_nodes()[j].output by {
                    assert(!chain@.take(i as int).contains(old(self).spec_nodes()[j].id)) by {
                        if chain@.take(i as int).contains(old(self).spec_nodes()[j].id) {
                            let k = choose|k: int|
                                0 <= k < i && chain@.take(i as int)[k] == old(self).spec_nodes()[j].id;
                            assert(chain@.take(i + 1)[k] == chain@[k]);
                        }
                    }
                    assert(chain@.take(i + 1)[i as int] == chain@[i as int]);
                    assert(old(self).spec_nodes()[j].id != chain@[i as int]);
                };
            }
            i = i + 1;
        }
        proof {
            assert(chain@.take(chain@.len() as int) =~= chain@);
            assert forall|j: int|
                0 <= j < old(self).spec_nodes().len() && !chain@.contains(
                    (#[trigger] old(self).spec_nodes()[j]).id,
                ) implies self.nodes@[j].output == old(self).spec_nodes()[j].output by {
                if chain@.take(chain@.len() as int).contains(old(self).spec_nodes()[j].id) {
                    let k = choose|k: int|
                        0 <= k < chain@.len() && chain@.take(chain@.len() as int)[k] == old(self).spec_nodes()[j].id;
                    assert(chain@[k] == old(self).spec_nodes()[j].id);
                }
            };
        }
    }

    /// Runs the given command lines in sequence as a pipe chain, each
    /// stage's captured output feeding the next stage's standard input,
    /// and returns the captured output of every stage — or, at the first
    /// failure, that failure's descriptive line. The stage executor
    /// performs the outside process work; see [`run_chain`].
    pub fn run_pipeline_with_intermediates<F: Fn(String, String) -> StageOutcome>(
        &self,
        commands: Vec<String>,
        run_stage: F,
    ) -> (r: Result<Vec<String>, String>)
        requires
            forall|c: String, inp: String| #[trigger] call_requires(run_stage, (c, inp)),
        ensures
            commands@.len() == 0 ==> (r matches Ok(v) && v@.len() == 0),
            (r matches Ok(v) ==> v@.len() == commands@.len()),
            (r matches Ok(v) ==> forall|i: int|
                0 <= i < v@.len() ==> stage_produced(run_stage, commands@, views_of(v@), i)),
            (r matches Err(m) ==> commands@.len() > 0 && exists|f: RunFailure, k: int|
                0 <= k < commands@.len() && #[trigger] failure_produced(
                    run_stage,
                    commands@,
                    k,
                    f,
                ) && m@ == f.spec_message()),
    {
        match run_chain(commands, run_stage) {
            Ok(outputs) => Ok(outputs),
            Err(f) => Err(f.message()),
        }
    }

    /// The nodes, for display.
    pub fn nodes(&self) -> (r: &Vec<Node>)
        ensures
            r@ == self.spec_nodes(),
    {
        &self.nodes
    }

    /// The connections, for display.
    pub fn connections(&self) -> (r: &Vec<Connection>)
        ensures
            r@ == self.spec_connections(),
    {
        &self.connections
    }

    /// The identity the next added node will receive.
    pub fn next_id(&self) -> (r: usize)
        ensures
            r == self.spec_next_id(),
    {
        self.next_id
    }

    /// The current selection.
    pub fn selected(&self) -> (r: Option<usize>)
        ensures
            r == self.spec_selected(),
    {
        self.selected_node
    }

    /// The armed connection start, if a connection is being drawn.
    pub fn connection_start(&self) -> (r: Option<usize>)
        ensures
            r == self.spec_connection_start(),
    {
        self.connection_start
    }
}

impl Default for FlowChart {
    fn default() -> (r: FlowChart)
        ensures
            r.wf(),
            r.spec_nodes().len() == 0,
            r.spec_connections().len() == 0,
            r.spec_next_id() == 1,
            r.spec_selected() is None,
            r.spec_connection_start() is None,
    {
        FlowChart::new()
    }
}

} // verus!
