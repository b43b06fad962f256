use std::sync::mpsc::channel;

use intermix::client::modal::graph::Graph;
use intermix::client::modal::new::{EdgeData, InputHandler, NodeData, UserAction};

#[test]
fn new_when_edge_matches_it_follows_it() {
    let mut graph: Graph<NodeData, EdgeData> = Graph::new();
    let n0_index = graph.add_node(NodeData { name: "n0".to_string() });
    let n1_index = graph.add_node(NodeData { name: "n1".to_string() });
    graph.add_edge(n0_index, n1_index, EdgeData { action: None, codes: vec![97], ..Default::default() });
    let (tx, _) = channel();
    let mut h = InputHandler::new(n0_index, graph, tx);

    h.write(&[97]).unwrap();
    assert_eq!(h.current_node, n1_index);
}

#[test]
fn new_when_edge_matches_it_follows_it_to_same_node() {
    let mut graph: Graph<NodeData, EdgeData> = Graph::new();
    let n0_index = graph.add_node(NodeData { name: "n0".to_string() });
    graph.add_edge(n0_index, n0_index, EdgeData { action: None, codes: vec![97], ..Default::default() });

    let (tx, _) = channel();
    let mut h = InputHandler::new(n0_index, graph, tx);

    h.write(&[97]).unwrap();
    assert_eq!(h.current_node, n0_index);
}

#[test]
fn new_when_no_edge_matches_it_sends_unknown_msg_to_channel() {
    let mut graph: Graph<NodeData, EdgeData> = Graph::new();
    let n0_index = graph.add_node(NodeData { name: "n0".to_string() });

    let (tx, rx) = channel();
    let mut h = InputHandler::new(n0_index, graph, tx);

    h.write(&[97]).unwrap();
    assert_eq!(rx.try_recv(), Result::Ok(UserAction::UnknownInput { bytes: vec![97] }));
}

#[test]
fn new_when_default_edge_exists_it_follow_it() {
    let mut graph: Graph<NodeData, EdgeData> = Graph::new();
    let n0_index = graph.add_node(NodeData { name: "n0".to_string() });
    let n1_index = graph.add_node(NodeData { name: "n1".to_string() });
    graph.add_edge(n0_index, n1_index, EdgeData { action: None, default: true, ..Default::default() });

    let (tx, _) = channel();
    let mut h = InputHandler::new(n0_index, graph, tx);

    h.write(&[97]).unwrap();
    assert_eq!(h.current_node, n1_index);
}

#[test]
fn new_when_edge_matches_it_follows_it_even_if_default_edge_exists() {
    let mut graph: Graph<NodeData, EdgeData> = Graph::new();
    let n0_index = graph.add_node(NodeData { name: "n0".to_string() });
    let n1_index = graph.add_node(NodeData { name: "n1".to_string() });
    let n2_index = graph.add_node(NodeData { name: "n2".to_string() });
    graph.add_edge(n0_index, n1_index, EdgeData { action: None, codes: vec![97], ..Default::default() });
    graph.add_edge(n0_index, n2_index, EdgeData { action: None, default: true, ..Default::default() });

    let (tx, _) = channel();
    let mut h = InputHandler::new(n0_index, graph, tx);

    h.write(&[97]).unwrap();
    assert_eq!(h.current_node, n1_index);
}

#[test]
fn new_when_matching_edge_has_a_blah_action_it_blah_blahs() {
    let mut graph: Graph<NodeData, EdgeData> = Graph::new();
    let n0_index = graph.add_node(NodeData { name: "n0".to_string() });
    let n1_index = graph.add_node(NodeData { name: "n1".to_string() });
    let n2_index = graph.add_node(NodeData { name: "n2".to_string() });
    graph.add_edge(n0_index, n1_index, EdgeData { action: None, codes: vec![97], ..Default::default() });
    graph.add_edge(n0_index, n2_index, EdgeData { action: None, default: true, ..Default::default() });

    let (tx, _) = channel();
    let mut h = InputHandler::new(n0_index, graph, tx);

    h.write(&[97]).unwrap();
    assert_eq!(h.current_node, n1_index);
}

#[test]
fn new_unknown_bytes_are_sent_one_by_one() {
    let mut graph: Graph<NodeData, EdgeData> = Graph::new();
    let n0_index = graph.add_node(NodeData { name: "n0".to_string() });
    let (tx, rx) = channel();
    let mut h = InputHandler::new(n0_index, graph, tx);

    assert_eq!(h.write(&[1, 2]).unwrap(), 1);
    assert_eq!(rx.try_recv(), Result::Ok(UserAction::UnknownInput { bytes: vec![1] }));
    assert_eq!(rx.try_recv(), Result::Ok(UserAction::UnknownInput { bytes: vec![2] }));
    assert!(rx.try_recv().is_err());
    h.flush().unwrap();
}

#[test]
fn new_unknown_input_carries_the_byte() {
    assert_eq!(intermix::client::modal::new::unknown_input(7), UserAction::UnknownInput { bytes: vec![7] });
}
