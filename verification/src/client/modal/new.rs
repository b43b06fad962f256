use vstd::prelude::*;

use std::sync::mpsc::Sender;

use super::graph::{Graph, NodeIndex, EdgeIndex};

verus! {

pub struct NodeData {
    pub name: String,
}

pub enum Action {
    Foo,
    Bar,
}

#[derive(PartialEq, Debug)]
pub enum UserAction {
    UnknownInput { bytes: Vec<u8> },
}

pub struct EdgeData {
    pub action: Option<Action>,
    pub codes: Vec<u8>,
    pub default: bool,
}

impl Default for EdgeData {
    fn default() -> (r: EdgeData)
        ensures
            r.action is None,
            r.codes@ == Seq::<u8>::empty(),
            !r.default,
    {
        EdgeData { action: None, codes: Vec::new(), default: false }
    }
}

/// The bytes an action carries.
pub open spec fn action_bytes(a: UserAction) -> Seq<u8> {
    match a {
        UserAction::UnknownInput { bytes } => bytes@,
    }
}

/// The action that reports one byte that no edge takes.
pub fn unknown_input(byte: u8) -> (a: UserAction)
    ensures
        action_bytes(a) == seq![byte],
{
    UserAction::UnknownInput { bytes: vec![byte] }
}

/// Hands the action to the channel. Nothing is claimed of the outcome: `Sender::send` fails when
/// the receiver is gone, and that failure is ignored here.
#[verifier::external_body]
fn send_action(tx: &Sender<UserAction>, action: UserAction) {
    let _ = tx.send(action);
}

/// The first edge of `es` whose codes are the single byte `b`.
pub open spec fn first_code_edge(g: Graph<NodeData, EdgeData>, es: Seq<EdgeIndex>, b: u8) -> Option<EdgeIndex>
    decreases es.len(),
{
    if es.len() == 0 {
        None
    } else if g.edges@[es[0] as int].data.codes@ == seq![b] {
        Some(es[0])
    } else {
        first_code_edge(g, es.drop_first(), b)
    }
}

/// The first default edge of `es`.
pub open spec fn first_default_edge(g: Graph<NodeData, EdgeData>, es: Seq<EdgeIndex>) -> Option<EdgeIndex>
    decreases es.len(),
{
    if es.len() == 0 {
        None
    } else if g.edges@[es[0] as int].data.default {
        Some(es[0])
    } else {
        first_default_edge(g, es.drop_first())
    }
}

/// The node after one input byte, and whether the byte was unknown there.
pub open spec fn input_step(g: Graph<NodeData, EdgeData>, current: NodeIndex, b: u8) -> (NodeIndex, bool) {
    let es = g.nodes@[current as int].edge_indexes@;
    match first_code_edge(g, es, b) {
        Some(e) => (g.edges@[e as int].target, false),
        None => match first_default_edge(g, es) {
            Some(e) => (g.edges@[e as int].target, false),
            None => (current, true),
        },
    }
}

/// The node after the bytes of `buf`, in order.
pub open spec fn input_run(g: Graph<NodeData, EdgeData>, current: NodeIndex, buf: Seq<u8>) -> NodeIndex
    decreases buf.len(),
{
    if buf.len() == 0 {
        current
    } else {
        input_step(g, input_run(g, current, buf.drop_last()), buf.last()).0
    }
}

/// The bytes of `buf` that are unknown where they arrive, in order.
pub open spec fn input_unknown(g: Graph<NodeData, EdgeData>, current: NodeIndex, buf: Seq<u8>) -> Seq<u8>
    decreases buf.len(),
{
    if buf.len() == 0 {
        Seq::empty()
    } else {
        let before = input_unknown(g, current, buf.drop_last());
        if input_step(g, input_run(g, current, buf.drop_last()), buf.last()).1 {
            before.push(buf.last())
        } else {
            before
        }
    }
}

/// Follows single-byte edges through a graph of modes; bytes that no edge takes are sent on a
/// channel as unknown input.
pub struct InputHandler {
    pub current_node: NodeIndex,
    pub graph: Graph<NodeData, EdgeData>,
    pub tx: Sender<UserAction>,
    /// The bytes of the actions handed to the channel so far, in order.
    pub sent: Ghost<Seq<u8>>,
}

impl InputHandler {
    /// The graph is sound and the current node is one of its nodes.
    pub open spec fn wf(&self) -> bool {
        &&& self.graph.wf()
        &&& self.current_node < self.graph.nodes@.len()
    }

    pub fn new(first_node_index: NodeIndex, graph: Graph<NodeData, EdgeData>, tx: Sender<UserAction>) -> (r: InputHandler)
        ensures
            r.current_node == first_node_index,
            r.graph == graph,
            r.tx == tx,
            r.sent@ == Seq::<u8>::empty(),
    {
        InputHandler { current_node: first_node_index, graph: graph, tx: tx, sent: Ghost(Seq::empty()) }
    }

    /// Index of the first edge of `edge_indexes` whose codes are the single byte `b`.
    fn find_code_edge(&self, edge_indexes: &Vec<EdgeIndex>, b: u8) -> (r: Option<EdgeIndex>)
        requires
            forall|k: int| 0 <= k < edge_indexes@.len() ==> #[trigger] edge_indexes@[k] < self.graph.edges@.len(),
        ensures
            r == first_code_edge(self.graph, edge_indexes@, b),
            r matches Some(e) ==> edge_indexes@.contains(e),
    {
        let mut k: usize = 0;
        assert(edge_indexes@.skip(0) == edge_indexes@);
        while k < edge_indexes.len()
            invariant
                k <= edge_indexes@.len(),
                forall|j: int| 0 <= j < edge_indexes@.len() ==> #[trigger] edge_indexes@[j] < self.graph.edges@.len(),
                first_code_edge(self.graph, edge_indexes@, b) == first_code_edge(self.graph, edge_indexes@.skip(k as int), b),
            decreases edge_indexes@.len() - k,
        {
            let e = edge_indexes[k];
            proof {
                assert(edge_indexes@.skip(k as int)[0] == e);
                assert(edge_indexes@.skip(k as int).drop_first() == edge_indexes@.skip(k + 1));
            }
            let codes = &self.graph.edges[e].data.codes;
            if codes.len() == 1 && codes[0] == b {
                assert(codes@ =~= seq![b]);
                return Some(e);
            }
            assert(codes@ != seq![b]) by {
                if codes@ == seq![b] {
                    assert(codes@.len() == 1 && codes@[0] == b);
                }
            }
            k = k + 1;
        }
        None
    }

    /// Index of the first default edge of `edge_indexes`.
    fn find_default_edge(&self, edge_indexes: &Vec<EdgeIndex>) -> (r: Option<EdgeIndex>)
        requires
            forall|k: int| 0 <= k < edge_indexes@.len() ==> #[trigger] edge_indexes@[k] < self.graph.edges@.len(),
        ensures
            r == first_default_edge(self.graph, edge_indexes@),
            r matches Some(e) ==> edge_indexes@.contains(e),
    {
        let mut k: usize = 0;
        assert(edge_indexes@.skip(0) == edge_indexes@);
        while k < edge_indexes.len()
            invariant
                k <= edge_indexes@.len(),
                forall|j: int| 0 <= j < edge_indexes@.len() ==> #[trigger] edge_indexes@[j] < self.graph.edges@.len(),
                first_default_edge(self.graph, edge_indexes@) == first_default_edge(self.graph, edge_indexes@.skip(k as int)),
            decreases edge_indexes@.len() - k,
        {
            let e = edge_indexes[k];
            proof {
                assert(edge_indexes@.skip(k as int)[0] == e);
                assert(edge_indexes@.skip(k as int).drop_first() == edge_indexes@.skip(k + 1));
            }
            if self.graph.edges[e].data.default {
                return Some(e);
            }
            k = k + 1;
        }
        None
    }

    /// Follows the edges that the bytes of `buf` name; each byte that no edge takes is sent as
    /// unknown input. The count returned is always 1.
    pub fn write(&mut self, buf: &[u8]) -> (r: std::io::Result<usize>)
        requires
            old(self).wf(),
        ensures
            r matches Ok(n) && n == 1,
            final(self).wf(),
            final(self).graph == old(self).graph,
            final(self).current_node == input_run(old(self).graph, old(self).current_node, buf@),
            final(self).sent@ == old(self).sent@ + input_unknown(old(self).graph, old(self).current_node, buf@),
    {
        let mut i: usize = 0;
        while i < buf.len()
            invariant
                i <= buf@.len(),
                self.wf(),
                self.graph == old(self).graph,
                self.current_node == input_run(old(self).graph, old(self).current_node, buf@.take(i as int)),
                self.sent@ == old(self).sent@ + input_unknown(old(self).graph, old(self).current_node, buf@.take(i as int)),
            decreases buf@.len() - i,
        {
            let byte = buf[i];
            let ghost old_sent = self.sent@;
            proof {
                assert(buf@.take(i + 1).drop_last() == buf@.take(i as int));
                assert(buf@.take(i + 1).last() == byte);
            }
            let edge_indexes = self.graph.nodes[self.current_node].edge_indexes.clone();
            assert(edge_indexes@ == self.graph.nodes@[self.current_node as int].edge_indexes@);
            if let Some(e) = self.find_code_edge(&edge_indexes, byte) {
                self.current_node = self.graph.edges[e].target;
            } else if let Some(e) = self.find_default_edge(&edge_indexes) {
                self.current_node = self.graph.edges[e].target;
            } else {
                let action = unknown_input(byte);
                let ghost handed = action;
                send_action(&self.tx, action);
                proof {
                    self.sent@ = self.sent@ + action_bytes(handed);
                    assert(self.sent@ =~= old_sent.push(byte));
                }
            }
            i = i + 1;
            proof {
                assert(self.sent@ =~= old(self).sent@ + input_unknown(old(self).graph, old(self).current_node, buf@.take(i as int)));
            }
        }
        assert(buf@.take(buf@.len() as int) == buf@);
        Ok(1)
    }

    pub fn flush(&mut self) -> (r: std::io::Result<()>)
        ensures
            r is Ok,
            *final(self) == *old(self),
    {
        Ok(())
    }
}

} // verus!
