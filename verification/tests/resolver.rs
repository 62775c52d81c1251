//! Tests of the graph resolver: start-node choice, walking, cycles and
//! the tolerated malformed graphs.

use echoflow::flowchart::Connection;
use echoflow::flowchart::FlowChart;
use echoflow::flowchart::Node;
use echoflow::resolve_chain;

fn node(id: usize) -> Node {
    Node { id, command: String::new(), output: String::new() }
}

fn edge(from: usize, to: usize) -> Connection {
    Connection { from, to }
}

#[test]
fn empty_graph_has_no_chain() {
    assert_eq!(resolve_chain(&vec![], &vec![]), None);
}

#[test]
fn no_edges_yields_first_node_alone() {
    let nodes = vec![node(5), node(9), node(2)];
    assert_eq!(resolve_chain(&nodes, &vec![]), Some(vec![5]));
}

#[test]
fn single_node_chain() {
    let nodes = vec![node(1)];
    assert_eq!(resolve_chain(&nodes, &vec![]), Some(vec![1]));
}

#[test]
fn simple_path_resolves_in_order() {
    let nodes = vec![node(1), node(2), node(3)];
    let edges = vec![edge(1, 2), edge(2, 3)];
    assert_eq!(resolve_chain(&nodes, &edges), Some(vec![1, 2, 3]));
}

#[test]
fn simple_path_resolves_regardless_of_node_order() {
    let nodes = vec![node(3), node(2), node(1)];
    let edges = vec![edge(1, 2), edge(2, 3)];
    assert_eq!(resolve_chain(&nodes, &edges), Some(vec![1, 2, 3]));
}

#[test]
fn cycle_without_entry_has_no_chain() {
    let nodes = vec![node(1), node(2)];
    let edges = vec![edge(1, 2), edge(2, 1)];
    assert_eq!(resolve_chain(&nodes, &edges), None);
}

#[test]
fn three_cycle_without_entry_has_no_chain() {
    let nodes = vec![node(1), node(2), node(3)];
    let edges = vec![edge(1, 2), edge(2, 3), edge(3, 1)];
    assert_eq!(resolve_chain(&nodes, &edges), None);
}

#[test]
fn reachable_cycle_terminates_without_repeats() {
    let nodes = vec![node(1), node(2), node(3)];
    let edges = vec![edge(1, 2), edge(2, 3), edge(3, 2)];
    assert_eq!(resolve_chain(&nodes, &edges), Some(vec![1, 2, 3]));
}

#[test]
fn self_loop_after_start_terminates() {
    let nodes = vec![node(1), node(2)];
    let edges = vec![edge(1, 2), edge(2, 2)];
    assert_eq!(resolve_chain(&nodes, &edges), Some(vec![1, 2]));
}

#[test]
fn disconnected_nodes_are_excluded() {
    let nodes = vec![node(1), node(2), node(3)];
    let edges = vec![edge(1, 2)];
    assert_eq!(resolve_chain(&nodes, &edges), Some(vec![1, 2]));
}

#[test]
fn first_zero_in_degree_node_wins() {
    let nodes = vec![node(7), node(4), node(5)];
    let edges = vec![edge(4, 5)];
    // Both 7 and 4 have no incoming connection; 7 comes first.
    assert_eq!(resolve_chain(&nodes, &edges), Some(vec![7]));
}

#[test]
fn last_outgoing_edge_wins() {
    let nodes = vec![node(1), node(2), node(3)];
    let edges = vec![edge(1, 2), edge(1, 3)];
    assert_eq!(resolve_chain(&nodes, &edges), Some(vec![1, 3]));
}

#[test]
fn duplicate_edges_are_tolerated() {
    let nodes = vec![node(1), node(2)];
    let edges = vec![edge(1, 2), edge(1, 2)];
    assert_eq!(resolve_chain(&nodes, &edges), Some(vec![1, 2]));
}

#[test]
fn edges_to_unknown_identities_are_followed() {
    // A partial graph: the walk follows connections even when no node
    // carries the target identity; mapping identities to commands later
    // skips it.
    let nodes = vec![node(1)];
    let edges = vec![edge(1, 99)];
    assert_eq!(resolve_chain(&nodes, &edges), Some(vec![1, 99]));
}

#[test]
fn chain_through_flowchart_methods() {
    let mut chart = FlowChart::new();
    chart.add_node_with_command("echo a"); // id 1
    chart.add_node_with_command("tr a b"); // id 2
    chart.add_node_with_command("tr b c"); // id 3
    chart.handle_connect_click(1);
    chart.handle_connect_click(2);
    chart.handle_connect_click(2);
    chart.handle_connect_click(3);
    assert_eq!(chart.get_pipeline_chain(), Some(vec![1, 2, 3]));
}
