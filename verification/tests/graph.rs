use intermix::client::modal::graph::Graph;

#[test]
fn it_works() {
    let mut graph: Graph<String, String> = Graph::new();

    let n0_index = graph.add_node("n0".to_string());
    let n1_index = graph.add_node("n1".to_string());

    graph.add_edge(n0_index, n1_index, "e1".to_string());
    graph.add_edge(n1_index, n0_index, "e2".to_string());

    assert_eq!(graph.nodes[n0_index].data, "n0".to_string());

    let next_node_index = graph.edges[graph.nodes[n0_index].edge_indexes.first().unwrap().clone()].target;
    assert_eq!(graph.nodes[next_node_index].data, "n1".to_string());
}

#[test]
fn graph_edges_are_kept_in_order_per_node() {
    let mut graph: Graph<u8, u8> = Graph::new();
    let a = graph.add_node(1);
    let b = graph.add_node(2);
    assert_eq!(a, 0);
    assert_eq!(b, 1);
    graph.add_edge(a, b, 10);
    graph.add_edge(a, a, 11);
    assert_eq!(graph.nodes[a].edge_indexes, vec![0, 1]);
    assert_eq!(graph.edges[1].target, a);
    assert_eq!(graph.edges[1].data, 11);
    assert!(graph.nodes[b].edge_indexes.is_empty());
}
