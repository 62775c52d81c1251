//! Tests of the flow-chart operations: adding and deleting nodes,
//! drawing connections, mapping a chain to command lines, and writing
//! captured outputs back onto nodes.

use echoflow::decimal::decimal_string;
use echoflow::flowchart::FlowChart;
use echoflow::FlowChartCommand;

#[test]
fn decimal_rendering() {
    assert_eq!(decimal_string(0), "0");
    assert_eq!(decimal_string(7), "7");
    assert_eq!(decimal_string(10), "10");
    assert_eq!(decimal_string(42), "42");
    assert_eq!(decimal_string(90125), "90125");
    assert_eq!(decimal_string(usize::MAX), "18446744073709551615");
}

#[test]
fn added_nodes_get_default_commands_and_fresh_identities() {
    let mut chart = FlowChart::new();
    chart.add_node();
    chart.add_node();
    let nodes = chart.nodes();
    assert_eq!(nodes.len(), 2);
    assert_eq!(nodes[0].id, 1);
    assert_eq!(nodes[0].command, "echo Node 1");
    assert_eq!(nodes[0].output, "");
    assert_eq!(nodes[1].id, 2);
    assert_eq!(nodes[1].command, "echo Node 2");
}

#[test]
fn added_node_keeps_the_given_command() {
    let mut chart = FlowChart::new();
    chart.add_node_with_command("wc -w");
    assert_eq!(chart.nodes()[0].command, "wc -w");
    assert_eq!(chart.nodes()[0].id, 1);
}

#[test]
fn connect_clicks_arm_and_complete_a_connection() {
    let mut chart = FlowChart::new();
    chart.add_node();
    chart.add_node();
    assert_eq!(chart.connection_start(), None);
    chart.handle_connect_click(1);
    assert_eq!(chart.connection_start(), Some(1));
    chart.handle_connect_click(2);
    assert_eq!(chart.connection_start(), None);
    let connections = chart.connections();
    assert_eq!(connections.len(), 1);
    assert_eq!(connections[0].from, 1);
    assert_eq!(connections[0].to, 2);
}

#[test]
fn clicking_the_same_handle_twice_disarms() {
    let mut chart = FlowChart::new();
    chart.add_node();
    chart.handle_connect_click(1);
    chart.handle_connect_click(1);
    assert_eq!(chart.connection_start(), None);
    assert_eq!(chart.connections().len(), 0);
}

#[test]
fn deleting_a_node_removes_its_connections() {
    let mut chart = FlowChart::new();
    chart.add_node(); // 1
    chart.add_node(); // 2
    chart.add_node(); // 3
    chart.add_connection(1, 2);
    chart.add_connection(2, 3);
    chart.set_selected(Some(2));
    chart.delete_selected_node();
    let ids: Vec<usize> = chart.nodes().iter().map(|n| n.id).collect();
    assert_eq!(ids, vec![1, 3]);
    assert_eq!(chart.connections().len(), 0);
    assert_eq!(chart.selected(), None);
}

#[test]
fn deleting_keeps_unrelated_connections() {
    let mut chart = FlowChart::new();
    chart.add_node(); // 1
    chart.add_node(); // 2
    chart.add_node(); // 3
    chart.add_connection(1, 2);
    chart.add_connection(2, 3);
    chart.set_selected(Some(3));
    chart.delete_selected_node();
    let ids: Vec<usize> = chart.nodes().iter().map(|n| n.id).collect();
    assert_eq!(ids, vec![1, 2]);
    assert_eq!(chart.connections().len(), 1);
    assert_eq!(chart.connections()[0].from, 1);
    assert_eq!(chart.connections()[0].to, 2);
}

#[test]
fn deleting_with_nothing_selected_changes_nothing() {
    let mut chart = FlowChart::new();
    chart.add_node();
    chart.delete_selected_node();
    assert_eq!(chart.nodes().len(), 1);
}

#[test]
fn deleting_the_armed_node_disarms_the_pending_connection() {
    let mut chart = FlowChart::new();
    chart.add_node();
    chart.handle_connect_click(1);
    chart.set_selected(Some(1));
    chart.delete_selected_node();
    assert_eq!(chart.connection_start(), None);
    assert_eq!(chart.nodes().len(), 0);
}

#[test]
fn commands_for_chain_follows_chain_order() {
    let mut chart = FlowChart::new();
    chart.add_node_with_command("echo a"); // 1
    chart.add_node_with_command("tr a b"); // 2
    let commands = chart.commands_for_chain(&vec![2, 1]);
    assert_eq!(commands, vec!["tr a b".to_string(), "echo a".to_string()]);
}

#[test]
fn commands_for_chain_skips_unknown_identities() {
    let mut chart = FlowChart::new();
    chart.add_node_with_command("echo a"); // 1
    let commands = chart.commands_for_chain(&vec![1, 99]);
    assert_eq!(commands, vec!["echo a".to_string()]);
}

#[test]
fn apply_outputs_writes_each_stage_onto_its_node() {
    let mut chart = FlowChart::new();
    chart.add_node(); // 1
    chart.add_node(); // 2
    chart.add_node(); // 3, not chained
    chart.apply_outputs(
        &vec![1, 2],
        &vec!["first\n".to_string(), "second\n".to_string()],
    );
    assert_eq!(chart.nodes()[0].output, "first\n");
    assert_eq!(chart.nodes()[1].output, "second\n");
    assert_eq!(chart.nodes()[2].output, "");
}

#[test]
fn apply_outputs_pads_missing_outputs_with_empty_text() {
    let mut chart = FlowChart::new();
    chart.add_node(); // 1
    chart.add_node(); // 2
    chart.apply_outputs(&vec![1, 2], &vec!["only\n".to_string()]);
    assert_eq!(chart.nodes()[0].output, "only\n");
    assert_eq!(chart.nodes()[1].output, "");
}

#[test]
fn apply_outputs_leaves_unchained_nodes_alone() {
    let mut chart = FlowChart::new();
    chart.add_node(); // 1
    chart.add_node(); // 2
    chart.apply_outputs(&vec![1], &vec!["a\n".to_string()]);
    chart.apply_outputs(&vec![2], &vec!["b\n".to_string()]);
    assert_eq!(chart.nodes()[0].output, "a\n");
    assert_eq!(chart.nodes()[1].output, "b\n");
}

#[test]
fn a_default_chart_is_empty_and_starts_identities_at_one() {
    let chart = FlowChart::default();
    assert_eq!(chart.nodes().len(), 0);
    assert_eq!(chart.connections().len(), 0);
    assert_eq!(chart.next_id(), 1);
    assert_eq!(chart.selected(), None);
    assert_eq!(chart.connection_start(), None);
    assert_eq!(chart.get_pipeline_chain(), None);
}

#[test]
fn every_command_kind_can_be_named() {
    // The dispatch enum a front end drives the application with.
    let all = [
        FlowChartCommand::AddNode,
        FlowChartCommand::RunPipeline,
        FlowChartCommand::DeleteSelectedNode,
        FlowChartCommand::PanLeft,
        FlowChartCommand::PanRight,
        FlowChartCommand::PanUp,
        FlowChartCommand::PanDown,
        FlowChartCommand::ZoomIn,
        FlowChartCommand::ZoomOut,
    ];
    assert_eq!(all.len(), 9);
    assert!(matches!(all[1], FlowChartCommand::RunPipeline));
}

#[test]
fn run_pipeline_with_intermediates_maps_failures_to_messages() {
    let chart = FlowChart::new();
    let result = chart.run_pipeline_with_intermediates(
        vec!["whatever".to_string()],
        |_c: String, _i: String| echoflow::StageOutcome::SpawnError {
            error: "shell missing".to_string(),
        },
    );
    assert_eq!(
        result,
        Err("Failed to run command 'whatever': shell missing".to_string())
    );
}

#[test]
fn run_pipeline_with_intermediates_empty_chain() {
    let chart = FlowChart::new();
    let result = chart.run_pipeline_with_intermediates(vec![], |_c: String, _i: String| {
        panic!("no stage may run")
    });
    assert_eq!(result, Ok(vec![]));
}
