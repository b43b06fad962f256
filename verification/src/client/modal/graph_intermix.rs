use vstd::prelude::*;

use super::graph::{Graph, Edge};
use super::modal_key_handler::{ActionType, EdgeData, NodeData, ModeGraph};

verus! {

broadcast use vstd::string::group_string_axioms;

/// The byte that ctrl-b sends.
pub const CTRL_B: u8 = 2u8;

/// An edge of the given action, codes, default flag and target.
pub open spec fn is_edge(e: Edge<EdgeData>, action: Option<ActionType>, codes: Seq<u8>, default: bool, target: usize) -> bool {
    &&& e.data.action == action
    &&& e.data.codes@ == codes
    &&& e.data.default == default
    &&& e.target == target
}

/// The modes of intermix and the keys that move between them: `welcome` falls through to
/// `command`; in `command`, `c` starts a program, `q` quits and `i` focuses a program, entering
/// `program`; in `program` every key goes to the program (ctrl-b ctrl-b sends one ctrl-b), and
/// ctrl-b `c` returns to `command`.
pub open spec fn is_intermix_graph(g: ModeGraph) -> bool {
    &&& g.nodes@.len() == 3
    &&& g.nodes@[0].data.name@ == "welcome"@
    &&& g.nodes@[1].data.name@ == "command"@
    &&& g.nodes@[2].data.name@ == "program"@
    &&& g.nodes@[0].edge_indexes@ == seq![0usize]
    &&& g.nodes@[1].edge_indexes@ == seq![1usize, 2, 3]
    &&& g.nodes@[2].edge_indexes@ == seq![4usize, 5]
    &&& g.edges@.len() == 6
    &&& is_edge(g.edges@[0], None, seq![], true, 1)
    &&& is_edge(g.edges@[1], Some(ActionType::ProgramStart), seq![99u8], false, 1)
    &&& is_edge(g.edges@[2], Some(ActionType::Quit), seq![113u8], false, 1)
    &&& is_edge(g.edges@[3], Some(ActionType::ProgramFocus), seq![105u8], false, 2)
    &&& is_edge(g.edges@[4], Some(ActionType::ProgramInput), seq![CTRL_B, CTRL_B], true, 2)
    &&& is_edge(g.edges@[5], None, seq![CTRL_B, 99u8], false, 1)
}

pub fn graph() -> (g: ModeGraph)
    ensures
        is_intermix_graph(g),
        g.wf(),
{
    let mut graph: ModeGraph = Graph::new();

    let w = graph.add_node(NodeData { name: "welcome".to_string() });
    let c = graph.add_node(NodeData { name: "command".to_string() });
    let p = graph.add_node(NodeData { name: "program".to_string() });

    graph.add_edge(w, c, EdgeData { default: true, ..Default::default() });

    graph.add_edge(c, c, EdgeData { action: Some(ActionType::ProgramStart), codes: vec![99u8], ..Default::default() });
    graph.add_edge(c, c, EdgeData { action: Some(ActionType::Quit), codes: vec![113u8], ..Default::default() });
    graph.add_edge(c, p, EdgeData { action: Some(ActionType::ProgramFocus), codes: vec![105u8], ..Default::default() });

    graph.add_edge(p, p, EdgeData { action: Some(ActionType::ProgramInput), codes: vec![CTRL_B, CTRL_B], default: true, ..Default::default() });
    graph.add_edge(p, c, EdgeData { codes: escape(vec![99u8], CTRL_B), ..Default::default() });

    proof {
        assert(graph.nodes@[1].edge_indexes@ =~= seq![1usize, 2, 3]);
        assert(graph.nodes@[2].edge_indexes@ =~= seq![4usize, 5]);
        assert(graph.nodes@[0].edge_indexes@ =~= seq![0usize]);
        assert(graph.edges@[0].data.codes@ =~= seq![]);
        assert(graph.edges@[1].data.codes@ =~= seq![99u8]);
        assert(graph.edges@[2].data.codes@ =~= seq![113u8]);
        assert(graph.edges@[3].data.codes@ =~= seq![105u8]);
        assert(graph.edges@[4].data.codes@ =~= seq![CTRL_B, CTRL_B]);
        assert(graph.edges@[5].data.codes@ =~= seq![CTRL_B, 99u8]);
    }
    graph
}

/// The codes with the escape byte put in front.
pub fn escape(codes: Vec<u8>, escape_char: u8) -> (r: Vec<u8>)
    ensures
        r@ == seq![escape_char] + codes@,
{
    let ghost given = codes@;
    let mut codes = codes;
    codes.insert(0, escape_char);
    assert(codes@ =~= seq![escape_char] + given);
    codes
}

} // verus!
