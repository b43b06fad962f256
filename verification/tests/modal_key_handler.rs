use intermix::client::modal::graph::Graph;
use intermix::client::modal::modal_key_handler::{ActionType, EdgeData, ModalKeyHandler, NodeData, UserAction};

#[test]
fn modal_key_handler_when_edge_matches_it_follows_it() {
    let mut graph: Graph<NodeData, EdgeData> = Graph::new();
    let n0_index = graph.add_node(NodeData { name: "n0".to_string() });
    let n1_index = graph.add_node(NodeData { name: "n1".to_string() });
    graph.add_edge(n0_index, n1_index, EdgeData { codes: "a".to_string().into_bytes(), ..Default::default() });
    let mut h = ModalKeyHandler::new(n0_index, graph);

    h.write("a".as_bytes()).unwrap();
    assert_eq!(h.current_node, n1_index);
}

#[test]
fn modal_key_handler_when_edge_matches_it_follows_it_to_same_node() {
    let mut graph: Graph<NodeData, EdgeData> = Graph::new();
    let n0_index = graph.add_node(NodeData { name: "n0".to_string() });
    graph.add_edge(n0_index, n0_index, EdgeData { codes: "a".to_string().into_bytes(), ..Default::default() });

    let mut h = ModalKeyHandler::new(n0_index, graph);

    h.write("a".as_bytes()).unwrap();
    assert_eq!(h.current_node, n0_index);
}

#[test]
fn modal_key_handler_when_no_edge_matches_it_sends_unknown_msg_to_channel() {
    let mut graph: Graph<NodeData, EdgeData> = Graph::new();
    let n0_index = graph.add_node(NodeData { name: "n0".to_string() });

    let mut h = ModalKeyHandler::new(n0_index, graph);

    h.write("a".as_bytes()).unwrap();
    assert_eq!(h.actions_queue.first(), Some(&UserAction::UnknownInput { bytes: "a".to_string().into_bytes() }));
}

#[test]
fn modal_key_handler_when_default_edge_exists_it_follow_it() {
    let mut graph: Graph<NodeData, EdgeData> = Graph::new();
    let n0_index = graph.add_node(NodeData { name: "n0".to_string() });
    let n1_index = graph.add_node(NodeData { name: "n1".to_string() });
    graph.add_edge(n0_index, n1_index, EdgeData { default: true, ..Default::default() });

    let mut h = ModalKeyHandler::new(n0_index, graph);

    h.write("a".as_bytes()).unwrap();
    assert_eq!(h.current_node, n1_index);
}

#[test]
fn modal_key_handler_when_edge_matches_it_follows_it_even_if_default_edge_exists() {
    let mut graph: Graph<NodeData, EdgeData> = Graph::new();
    let n0_index = graph.add_node(NodeData { name: "n0".to_string() });
    let n1_index = graph.add_node(NodeData { name: "n1".to_string() });
    let n2_index = graph.add_node(NodeData { name: "n2".to_string() });
    graph.add_edge(n0_index, n1_index, EdgeData { codes: "a".to_string().into_bytes(), ..Default::default() });
    graph.add_edge(n0_index, n2_index, EdgeData { default: true, ..Default::default() });

    let mut h = ModalKeyHandler::new(n0_index, graph);

    h.write("a".as_bytes()).unwrap();
    assert_eq!(h.current_node, n1_index);
}

#[test]
fn modal_key_handler_when_matching_edge_has_a_blah_action_it_blah_blahs() {
    let mut graph: Graph<NodeData, EdgeData> = Graph::new();
    let n0_index = graph.add_node(NodeData { name: "n0".to_string() });
    let n1_index = graph.add_node(NodeData { name: "n1".to_string() });
    let n2_index = graph.add_node(NodeData { name: "n2".to_string() });
    graph.add_edge(n0_index, n1_index, EdgeData { codes: "a".to_string().into_bytes(), ..Default::default() });
    graph.add_edge(n0_index, n2_index, EdgeData { default: true, ..Default::default() });

    let mut h = ModalKeyHandler::new(n0_index, graph);

    h.write("a".as_bytes()).unwrap();
    assert_eq!(h.current_node, n1_index);
}

#[test]
fn when_edge_with_multiple_bytes_matches_it_follows_it() {
    let mut graph: Graph<NodeData, EdgeData> = Graph::new();
    let n0_index = graph.add_node(NodeData { name: "n0".to_string() });
    let n1_index = graph.add_node(NodeData { name: "n1".to_string() });
    graph.add_edge(n0_index, n1_index, EdgeData { codes: "ab".to_string().into_bytes(), ..Default::default() });
    let mut h = ModalKeyHandler::new(n0_index, graph);

    h.write("ab".as_bytes()).unwrap();
    assert_eq!(h.current_node, n1_index);
}

#[test]
fn when_edge_with_multiple_bytes_matches_it_follows_it_across_writes() {
    let mut graph: Graph<NodeData, EdgeData> = Graph::new();
    let n0_index = graph.add_node(NodeData { name: "n0".to_string() });
    let n1_index = graph.add_node(NodeData { name: "n1".to_string() });
    graph.add_edge(n0_index, n1_index, EdgeData { codes: "ab".to_string().into_bytes(), ..Default::default() });
    let mut h = ModalKeyHandler::new(n0_index, graph);

    h.write("a".as_bytes()).unwrap();
    h.write("b".as_bytes()).unwrap();
    assert_eq!(h.current_node, n1_index);
}

#[test]
fn it_can_follow_edges_with_multibyte_codes_one_after_the_other() {
    let mut graph: Graph<NodeData, EdgeData> = Graph::new();
    let n0_index = graph.add_node(NodeData { name: "n0".to_string() });
    let n1_index = graph.add_node(NodeData { name: "n1".to_string() });
    let n2_index = graph.add_node(NodeData { name: "n2".to_string() });
    graph.add_edge(n0_index, n1_index, EdgeData { codes: "ab".to_string().into_bytes(), ..Default::default() });
    graph.add_edge(n1_index, n2_index, EdgeData { codes: "cd".to_string().into_bytes(), ..Default::default() });
    let mut h = ModalKeyHandler::new(n0_index, graph);

    h.write("abcd".as_bytes()).unwrap();
    assert_eq!(h.current_node, n2_index);
}

#[test]
fn it_can_follow_multiple_edges_in_a_single_write() {
    let mut graph: Graph<NodeData, EdgeData> = Graph::new();
    let n0_index = graph.add_node(NodeData { name: "n0".to_string() });
    let n1_index = graph.add_node(NodeData { name: "n1".to_string() });
    let n2_index = graph.add_node(NodeData { name: "n2".to_string() });
    graph.add_edge(n0_index, n1_index, EdgeData { codes: "a".to_string().into_bytes(), ..Default::default() });
    graph.add_edge(n1_index, n2_index, EdgeData { codes: "b".to_string().into_bytes(), ..Default::default() });
    let mut h = ModalKeyHandler::new(n0_index, graph);

    h.write("ab".as_bytes()).unwrap();
    assert_eq!(h.current_node, n2_index);
}

#[test]
fn when_matching_edge_has_a_program_input_action_it_adds_to_queue() {
    let mut graph: Graph<NodeData, EdgeData> = Graph::new();
    let n0_index = graph.add_node(NodeData { name: "n0".to_string() });
    graph.add_edge(n0_index, n0_index, EdgeData { action: Some(ActionType::ProgramInput), default: true, ..Default::default() });
    let mut h = ModalKeyHandler::new(n0_index, graph);

    h.write("a".as_bytes()).unwrap();
    assert_eq!(h.actions_queue.first(), Some(&UserAction::ProgramInput { bytes: "a".to_string().into_bytes() }));
}

#[test]
fn when_matching_edge_has_a_program_start_action_it_adds_to_queue() {
    let mut graph: Graph<NodeData, EdgeData> = Graph::new();
    let n0_index = graph.add_node(NodeData { name: "n0".to_string() });
    graph.add_edge(n0_index, n0_index, EdgeData { action: Some(ActionType::ProgramStart), default: true, ..Default::default() });
    let mut h = ModalKeyHandler::new(n0_index, graph);

    h.write("a".as_bytes()).unwrap();
    assert_eq!(h.actions_queue.first(), Some(&UserAction::ProgramStart));
}

#[test]
fn when_matching_edge_has_a_quit_action_it_adds_to_queue() {
    let mut graph: Graph<NodeData, EdgeData> = Graph::new();
    let n0_index = graph.add_node(NodeData { name: "n0".to_string() });
    graph.add_edge(n0_index, n0_index, EdgeData { action: Some(ActionType::Quit), default: true, ..Default::default() });
    let mut h = ModalKeyHandler::new(n0_index, graph);

    h.write("a".as_bytes()).unwrap();
    assert_eq!(h.actions_queue.first(), Some(&UserAction::Quit));
}

#[test]
fn modal_key_handler_mode_name_follows_the_current_node() {
    let mut graph: Graph<NodeData, EdgeData> = Graph::new();
    let n0_index = graph.add_node(NodeData { name: "n0".to_string() });
    let n1_index = graph.add_node(NodeData { name: "n1".to_string() });
    graph.add_edge(n0_index, n1_index, EdgeData { codes: "x".to_string().into_bytes(), ..Default::default() });
    let mut h = ModalKeyHandler::new(n0_index, graph);
    assert_eq!(h.mode_name(), "n0");
    h.write("x".as_bytes()).unwrap();
    assert_eq!(h.mode_name(), "n1");
    h.flush().unwrap();
}

#[test]
fn modal_key_handler_partial_code_waits_for_more() {
    let mut graph: Graph<NodeData, EdgeData> = Graph::new();
    let n0_index = graph.add_node(NodeData { name: "n0".to_string() });
    let n1_index = graph.add_node(NodeData { name: "n1".to_string() });
    graph.add_edge(n0_index, n1_index, EdgeData { codes: "ab".to_string().into_bytes(), ..Default::default() });
    let mut h = ModalKeyHandler::new(n0_index, graph);
    h.write("a".as_bytes()).unwrap();
    assert_eq!(h.current_node, n0_index);
    assert!(h.actions_queue.is_empty());
}
