use vstd::prelude::*;

use super::graph::{Graph, NodeIndex, EdgeIndex};
use super::{bytes_eq, bytes_start_with, copy_bytes, is_prefix};
use super::graph_intermix::{self, is_intermix_graph};

verus! {

#[derive(PartialEq, Clone, Debug)]
pub struct NodeData {
    pub name: String,
}

#[derive(PartialEq, Eq, Clone, Copy, Debug, Structural)]
pub enum ActionType {
    ProgramFocus,
    ProgramInput,
    ProgramStart,
    ProgramSelectNext,
    ProgramSelectPrev,
    Quit,
}

#[derive(PartialEq, Clone, Debug)]
pub enum UserAction {
    UnknownInput { bytes: Vec<u8> },
    ProgramInput { bytes: Vec<u8> },
    ProgramStart,
    ProgramFocus,
    ProgramSelectNext,
    ProgramSelectPrev,
    ModeChange { name: String },
    Quit,
}

/// The mathematical value of a `UserAction`.
pub enum UserActionView {
    UnknownInput { bytes: Seq<u8> },
    ProgramInput { bytes: Seq<u8> },
    ProgramStart,
    ProgramFocus,
    ProgramSelectNext,
    ProgramSelectPrev,
    ModeChange { name: Seq<char> },
    Quit,
}

impl View for UserAction {
    type V = UserActionView;

    open spec fn view(&self) -> UserActionView {
        match self {
            UserAction::UnknownInput { bytes } => UserActionView::UnknownInput { bytes: bytes@ },
            UserAction::ProgramInput { bytes } => UserActionView::ProgramInput { bytes: bytes@ },
            UserAction::ProgramStart => UserActionView::ProgramStart,
            UserAction::ProgramFocus => UserActionView::ProgramFocus,
            UserAction::ProgramSelectNext => UserActionView::ProgramSelectNext,
            UserAction::ProgramSelectPrev => UserActionView::ProgramSelectPrev,
            UserAction::ModeChange { name } => UserActionView::ModeChange { name: name@ },
            UserAction::Quit => UserActionView::Quit,
        }
    }
}

/// The data of an edge: the bytes that follow it, whether it is followed when no other edge
/// matches, and the action that following it performs.
#[derive(PartialEq, Clone, Debug)]
pub struct EdgeData {
    pub action: Option<ActionType>,
    pub codes: Vec<u8>,
    pub default: bool,
}

impl Default for EdgeData {
    fn default() -> (r: EdgeData)
        ensures
            r.action is None,
            r.codes@ == Seq::<u8>::empty(),
            !r.default,
    {
        EdgeData { action: None, codes: Vec::new(), default: false }
    }
}

/// The graph of modes: nodes are named modes, edges are the key codes that move between them.
pub type ModeGraph = Graph<NodeData, EdgeData>;

/// The action that an edge's action type stands for, given the bytes that matched it.
pub open spec fn user_action_of(a: ActionType, bytes: Seq<u8>) -> UserActionView {
    match a {
        ActionType::ProgramInput => UserActionView::ProgramInput { bytes: bytes },
        ActionType::ProgramStart => UserActionView::ProgramStart,
        ActionType::ProgramFocus => UserActionView::ProgramFocus,
        ActionType::ProgramSelectPrev => UserActionView::ProgramSelectPrev,
        ActionType::ProgramSelectNext => UserActionView::ProgramSelectNext,
        ActionType::Quit => UserActionView::Quit,
    }
}

/// The state a `ModalKeyHandler` moves through: current node, pending bytes and queued actions.
pub struct KeyState {
    pub current_node: NodeIndex,
    pub match_buf: Seq<u8>,
    pub queue: Seq<UserActionView>,
}

/// The first edge of `es` whose codes are exactly `mb`.
pub open spec fn first_exact(g: ModeGraph, es: Seq<EdgeIndex>, mb: Seq<u8>) -> Option<EdgeIndex>
    decreases es.len(),
{
    if es.len() == 0 {
        None
    } else if g.edges@[es[0] as int].data.codes@ == mb {
        Some(es[0])
    } else {
        first_exact(g, es.drop_first(), mb)
    }
}

/// An edge that `first_exact` finds is one of `es`.
proof fn lemma_first_exact_in(g: ModeGraph, es: Seq<EdgeIndex>, mb: Seq<u8>)
    ensures
        first_exact(g, es, mb) matches Some(e) ==> es.contains(e),
    decreases es.len(),
{
    if es.len() > 0 && g.edges@[es[0] as int].data.codes@ != mb {
        lemma_first_exact_in(g, es.drop_first(), mb);
        if let Some(e) = first_exact(g, es.drop_first(), mb) {
            let k = choose|k: int| 0 <= k < es.drop_first().len() && es.drop_first()[k] == e;
            assert(es[k + 1] == e);
        }
    } else if es.len() > 0 {
        assert(es[0] == es[0]);
    }
}

/// An edge that `first_default` finds is one of `es`.
proof fn lemma_first_default_in(g: ModeGraph, es: Seq<EdgeIndex>)
    ensures
        first_default(g, es) matches Some(e) ==> es.contains(e),
    decreases es.len(),
{
    if es.len() > 0 && !g.edges@[es[0] as int].data.default {
        lemma_first_default_in(g, es.drop_first());
        if let Some(e) = first_default(g, es.drop_first()) {
            let k = choose|k: int| 0 <= k < es.drop_first().len() && es.drop_first()[k] == e;
            assert(es[k + 1] == e);
        }
    } else if es.len() > 0 {
        assert(es[0] == es[0]);
    }
}

/// Whether some edge of `es` has codes that start with `mb`.
pub open spec fn any_partial(g: ModeGraph, es: Seq<EdgeIndex>, mb: Seq<u8>) -> bool {
    exists|k: int| 0 <= k < es.len() && is_prefix(mb, #[trigger] g.edges@[es[k] as int].data.codes@)
}

/// The first default edge of `es`.
pub open spec fn first_default(g: ModeGraph, es: Seq<EdgeIndex>) -> Option<EdgeIndex>
    decreases es.len(),
{
    if es.len() == 0 {
        None
    } else if g.edges@[es[0] as int].data.default {
        Some(es[0])
    } else {
        first_default(g, es.drop_first())
    }
}

/// The state after one more input byte.
///
/// The pending bytes plus the new byte are matched against the edges of the current node: an
/// edge whose codes are exactly those bytes is followed; else, while some edge's codes start with
/// them, they stay pending; else the first default edge is followed; else they are reported as
/// unknown input. Following an edge queues its action, then a mode change if the node changes.
pub open spec fn key_step(g: ModeGraph, s: KeyState, b: u8) -> KeyState {
    let mb = s.match_buf.push(b);
    let es = g.nodes@[s.current_node as int].edge_indexes@;
    let followed: Option<EdgeIndex> = match first_exact(g, es, mb) {
        Some(e) => Some(e),
        None => if any_partial(g, es, mb) { None } else { first_default(g, es) },
    };
    match followed {
        Some(e) => {
            let edge = g.edges@[e as int];
            let q1 = match edge.data.action {
                Some(a) => s.queue.push(user_action_of(a, mb)),
                None => s.queue,
            };
            if edge.target != s.current_node {
                KeyState {
                    current_node: edge.target,
                    match_buf: Seq::empty(),
                    queue: q1.push(UserActionView::ModeChange { name: g.nodes@[edge.target as int].data.name@ }),
                }
            } else {
                KeyState { current_node: s.current_node, match_buf: Seq::empty(), queue: q1 }
            }
        },
        None => if first_exact(g, es, mb) is None && any_partial(g, es, mb) {
            KeyState { match_buf: mb, ..s }
        } else {
            KeyState {
                match_buf: Seq::empty(),
                queue: s.queue.push(UserActionView::UnknownInput { bytes: mb }),
                ..s
            }
        },
    }
}

/// The state after the bytes of `buf`, in order.
pub open spec fn key_run(g: ModeGraph, s: KeyState, buf: Seq<u8>) -> KeyState
    decreases buf.len(),
{
    if buf.len() == 0 {
        s
    } else {
        key_step(g, key_run(g, s, buf.drop_last()), buf.last())
    }
}

/// Writing `a` and then `b` leaves the handler as writing `a` followed by `b` at once does, so a
/// key code may arrive split across writes.
pub proof fn lemma_key_run_compose(g: ModeGraph, s: KeyState, a: Seq<u8>, b: Seq<u8>)
    ensures
        key_run(g, s, a + b) == key_run(g, key_run(g, s, a), b),
    decreases b.len(),
{
    if b.len() == 0 {
        assert(a + b =~= a);
    } else {
        lemma_key_run_compose(g, s, a, b.drop_last());
        assert((a + b).drop_last() =~= a + b.drop_last());
        assert((a + b).last() == b.last());
    }
}

/// Actions are only ever added to the end of the queue: what was queued stays, in order.
pub proof fn lemma_queue_only_grows(g: ModeGraph, s: KeyState, buf: Seq<u8>)
    ensures
        s.queue.is_prefix_of(key_run(g, s, buf).queue),
    decreases buf.len(),
{
    if buf.len() > 0 {
        lemma_queue_only_grows(g, s, buf.drop_last());
        let t = key_run(g, s, buf.drop_last());
        let u = key_step(g, t, buf.last());
        assert(t.queue.is_prefix_of(u.queue));
    }
}

/// After any byte, the bytes left pending are none, or the start of the codes of an edge of the
/// node the handler is at: bytes that can no longer match are never kept. In particular a byte
/// reported as unknown input leaves nothing pending, and the next key is matched afresh.
pub proof fn lemma_pending_bytes_can_match(g: ModeGraph, s: KeyState, b: u8)
    ensures
        ({
            let t = key_step(g, s, b);
            t.match_buf.len() > 0 ==> any_partial(g, g.nodes@[t.current_node as int].edge_indexes@, t.match_buf)
        }),
        key_step(g, s, b).queue.len() > s.queue.len() ==> key_step(g, s, b).match_buf.len() == 0,
        key_step(g, s, b).match_buf.len() == 0 || key_step(g, s, b).match_buf == s.match_buf.push(b),
{
}

/// After any bytes, the bytes left pending are none, or the start of the codes of an edge of the
/// node the handler is at.
pub proof fn lemma_run_pending_bytes_can_match(g: ModeGraph, s: KeyState, buf: Seq<u8>)
    requires
        buf.len() > 0,
    ensures
        ({
            let t = key_run(g, s, buf);
            t.match_buf.len() > 0 ==> any_partial(g, g.nodes@[t.current_node as int].edge_indexes@, t.match_buf)
        }),
{
    lemma_pending_bytes_can_match(g, key_run(g, s, buf.drop_last()), buf.last());
}

/// Follows key codes through a graph of modes and queues the actions they stand for.
pub struct ModalKeyHandler {
    pub current_node: NodeIndex,
    pub graph: ModeGraph,
    pub actions_queue: Vec<UserAction>,
    pub match_buf: Vec<u8>,
}

impl ModalKeyHandler {
    /// The graph is sound and the current node is one of its nodes.
    pub open spec fn wf(&self) -> bool {
        &&& self.graph.wf()
        &&& self.current_node < self.graph.nodes@.len()
    }

    /// The current node, pending bytes and queued actions.
    pub open spec fn key_state(&self) -> KeyState {
        KeyState {
            current_node: self.current_node,
            match_buf: self.match_buf@,
            queue: self.actions_queue@.map_values(|a: UserAction| a@),
        }
    }

    pub fn new(first_node_index: NodeIndex, graph: ModeGraph) -> (r: ModalKeyHandler)
        ensures
            r.current_node == first_node_index,
            r.graph == graph,
            r.actions_queue@.len() == 0,
            r.match_buf@.len() == 0,
    {
        ModalKeyHandler {
            current_node: first_node_index,
            graph: graph,
            actions_queue: Vec::new(),
            match_buf: Vec::new(),
        }
    }

    /// A handler in the welcome mode of the intermix mode graph.
    pub fn new_with_graph() -> (r: ModalKeyHandler)
        ensures
            r.wf(),
            is_intermix_graph(r.graph),
            r.current_node == 0,
            r.actions_queue@.len() == 0,
            r.match_buf@.len() == 0,
    {
        let graph = graph_intermix::graph();
        ModalKeyHandler::new(0, graph)
    }

    /// The name of the current mode.
    pub fn mode_name(&self) -> (r: &String)
        requires
            self.current_node < self.graph.nodes@.len(),
        ensures
            r@ == self.graph.nodes@[self.current_node as int].data.name@,
    {
        &self.graph.nodes[self.current_node].data.name
    }

    /// Index of the first edge of `edge_indexes` whose codes are exactly `mb`.
    fn find_exact(&self, edge_indexes: &Vec<EdgeIndex>, mb: &Vec<u8>) -> (r: Option<EdgeIndex>)
        requires
            forall|k: int| 0 <= k < edge_indexes@.len() ==> #[trigger] edge_indexes@[k] < self.graph.edges@.len(),
        ensures
            r == first_exact(self.graph, edge_indexes@, mb@),
    {
        let mut k: usize = 0;
        assert(edge_indexes@.skip(0) == edge_indexes@);
        while k < edge_indexes.len()
            invariant
                k <= edge_indexes@.len(),
                forall|j: int| 0 <= j < edge_indexes@.len() ==> #[trigger] edge_indexes@[j] < self.graph.edges@.len(),
                first_exact(self.graph, edge_indexes@, mb@) == first_exact(self.graph, edge_indexes@.skip(k as int), mb@),
            decreases edge_indexes@.len() - k,
        {
            let e = edge_indexes[k];
            proof {
                assert(edge_indexes@.skip(k as int)[0] == e);
                assert(edge_indexes@.skip(k as int).drop_first() == edge_indexes@.skip(k + 1));
            }
            if bytes_eq(&self.graph.edges[e].data.codes, mb) {
                return Some(e);
            }
            k = k + 1;
        }
        None
    }

    /// Whether some edge of `edge_indexes` has codes that start with `mb`.
    fn find_partial(&self, edge_indexes: &Vec<EdgeIndex>, mb: &Vec<u8>) -> (r: bool)
        requires
            forall|k: int| 0 <= k < edge_indexes@.len() ==> #[trigger] edge_indexes@[k] < self.graph.edges@.len(),
        ensures
            r == any_partial(self.graph, edge_indexes@, mb@),
    {
        let mut k: usize = 0;
        while k < edge_indexes.len()
            invariant
                k <= edge_indexes@.len(),
                forall|j: int| 0 <= j < edge_indexes@.len() ==> #[trigger] edge_indexes@[j] < self.graph.edges@.len(),
                forall|j: int| 0 <= j < k ==> !is_prefix(mb@, #[trigger] self.graph.edges@[edge_indexes@[j] as int].data.codes@),
            decreases edge_indexes@.len() - k,
        {
            let e = edge_indexes[k];
            if bytes_start_with(&self.graph.edges[e].data.codes, mb) {
                return true;
            }
            k = k + 1;
        }
        false
    }

    /// Index of the first default edge of `edge_indexes`.
    fn find_default(&self, edge_indexes: &Vec<EdgeIndex>) -> (r: Option<EdgeIndex>)
        requires
            forall|k: int| 0 <= k < edge_indexes@.len() ==> #[trigger] edge_indexes@[k] < self.graph.edges@.len(),
        ensures
            r == first_default(self.graph, edge_indexes@),
    {
        let mut k: usize = 0;
        assert(edge_indexes@.skip(0) == edge_indexes@);
        while k < edge_indexes.len()
            invariant
                k <= edge_indexes@.len(),
                forall|j: int| 0 <= j < edge_indexes@.len() ==> #[trigger] edge_indexes@[j] < self.graph.edges@.len(),
                first_default(self.graph, edge_indexes@) == first_default(self.graph, edge_indexes@.skip(k as int)),
            decreases edge_indexes@.len() - k,
        {
            let e = edge_indexes[k];
            proof {
                assert(edge_indexes@.skip(k as int)[0] == e);
                assert(edge_indexes@.skip(k as int).drop_first() == edge_indexes@.skip(k + 1));
            }
            if self.graph.edges[e].data.default {
                return Some(e);
            }
            k = k + 1;
        }
        None
    }

    /// Handles one input byte.
    fn write_byte(&mut self, byte: u8)
        requires
            old(self).wf(),
        ensures
            final(self).wf(),
            final(self).graph == old(self).graph,
            final(self).key_state() == key_step(old(self).graph, old(self).key_state(), byte),
    {
        let ghost s0 = self.key_state();
        let mut match_buf = copy_bytes(&self.match_buf);
        match_buf.push(byte);
        let match_buf = match_buf;

        let edge_indexes = self.graph.nodes[self.current_node].edge_indexes.clone();
        assert(edge_indexes@ == self.graph.nodes@[self.current_node as int].edge_indexes@);
        let mut next_node: Option<NodeIndex> = None;
        let mut action: Option<ActionType> = None;

        proof {
            lemma_first_exact_in(self.graph, edge_indexes@, match_buf@);
            lemma_first_default_in(self.graph, edge_indexes@);
        }
        let exact = self.find_exact(&edge_indexes, &match_buf);
        if let Some(i) = exact {
            self.match_buf.clear();
            action = self.graph.edges[i].data.action;
            next_node = Some(self.graph.edges[i].target);
        } else if self.find_partial(&edge_indexes, &match_buf) {
            self.match_buf = copy_bytes(&match_buf);
        } else if let Some(i) = self.find_default(&edge_indexes) {
            self.match_buf.clear();
            action = self.graph.edges[i].data.action;
            next_node = Some(self.graph.edges[i].target);
        } else {
            self.match_buf.clear();
            self.actions_queue.push(UserAction::UnknownInput { bytes: copy_bytes(&match_buf) });
        }

        if let Some(a) = action {
            let user_action = match a {
                ActionType::ProgramInput => UserAction::ProgramInput { bytes: copy_bytes(&match_buf) },
                ActionType::ProgramStart => UserAction::ProgramStart,
                ActionType::ProgramFocus => UserAction::ProgramFocus,
                ActionType::ProgramSelectPrev => UserAction::ProgramSelectPrev,
                ActionType::ProgramSelectNext => UserAction::ProgramSelectNext,
                ActionType::Quit => UserAction::Quit,
            };
            self.actions_queue.push(user_action);
        }

        if let Some(i) = next_node {
            if i != self.current_node {
                self.current_node = i;
                let name = self.graph.nodes[self.current_node].data.name.clone();
                self.actions_queue.push(UserAction::ModeChange { name: name });
            }
        }
        assert(self.key_state().queue =~= key_step(self.graph, s0, byte).queue);
    }

    /// Feeds the bytes of `buf`, one at a time, through the mode graph.
    pub fn write(&mut self, buf: &[u8]) -> (r: std::io::Result<usize>)
        requires
            old(self).wf(),
        ensures
            r matches Ok(n) && n == buf@.len(),
            final(self).wf(),
            final(self).graph == old(self).graph,
            final(self).key_state() == key_run(old(self).graph, old(self).key_state(), buf@),
    {
        let mut i: usize = 0;
        while i < buf.len()
            invariant
                i <= buf@.len(),
                self.wf(),
                self.graph == old(self).graph,
                self.key_state() == key_run(old(self).graph, old(self).key_state(), buf@.take(i as int)),
            decreases buf@.len() - i,
        {
            proof {
                assert(buf@.take(i + 1).drop_last() == buf@.take(i as int));
            }
            self.write_byte(buf[i]);
            i = i + 1;
        }
        assert(buf@.take(buf@.len() as int) == buf@);
        Ok(buf.len())
    }

    pub fn flush(&mut self) -> (r: std::io::Result<()>)
        ensures
            r is Ok,
            *final(self) == *old(self),
    {
        Ok(())
    }
}

} // verus!
