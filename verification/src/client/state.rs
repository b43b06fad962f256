use vstd::prelude::*;

use std::sync::mpsc::Sender;

use crate::geom::{Pos, ScreenSize};
use crate::server::ServerMsg;
use super::ids::{HasId, first_with_id, has_id, lemma_first_with_id, position_by_id};

verus! {

broadcast use vstd::string::group_string_axioms;

/// Represents the state of the client. Each thread will maintain their own representation which
/// will stay in sync through message passing.
#[derive(Default, Clone)]
pub struct State {
    pub windows: Vec<Window>,
    pub servers: Vec<Server>,
    pub mode_name: String,
}

/// The window or tty that the user sees
#[derive(Default, Clone)]
pub struct Window {
    pub id: String,
    pub panes: Vec<Pane>,
    pub size: ScreenSize,
}

/// a rectange within the window that displays output from a program
#[derive(Default, Clone, Debug)]
pub struct Pane {
    pub id: String,
    pub size: ScreenSize,
    pub offset: Pos,
    pub program_id: String,
}

/// A connection to an intermix server
#[derive(Clone)]
pub struct Server {
    pub id: String,
    pub programs: Vec<Program>,
    pub tx: Sender<ServerMsg>,
}

/// A program running on the server
#[derive(Default, Clone, Debug)]
pub struct Program {
    pub id: String,
    /// Whether the client is interested in msgs about this program. If its not visible, the answer
    /// is probably no.
    pub is_subscribed: bool,
}

impl HasId for Window {
    open spec fn spec_id(&self) -> Seq<char> {
        self.id@
    }

    fn id_ref(&self) -> (r: &String) {
        &self.id
    }
}

impl HasId for Pane {
    open spec fn spec_id(&self) -> Seq<char> {
        self.id@
    }

    fn id_ref(&self) -> (r: &String) {
        &self.id
    }
}

impl HasId for Server {
    open spec fn spec_id(&self) -> Seq<char> {
        self.id@
    }

    fn id_ref(&self) -> (r: &String) {
        &self.id
    }
}

impl HasId for Program {
    open spec fn spec_id(&self) -> Seq<char> {
        self.id@
    }

    fn id_ref(&self) -> (r: &String) {
        &self.id
    }
}

/// `after` is `before` with the pane added to the panes of window `i`.
pub open spec fn pane_added(before: Seq<Window>, after: Seq<Window>, i: int, pane: Pane) -> bool {
    &&& after.len() == before.len()
    &&& forall|j: int| 0 <= j < before.len() && j != i ==> after[j] == before[j]
    &&& after[i].id == before[i].id
    &&& after[i].size == before[i].size
    &&& after[i].panes@ == before[i].panes@.push(pane)
}

/// `after` is `before` with the program added to the programs of server `i`.
pub open spec fn program_added(before: Seq<Server>, after: Seq<Server>, i: int, program: Program) -> bool {
    &&& after.len() == before.len()
    &&& forall|j: int| 0 <= j < before.len() && j != i ==> after[j] == before[j]
    &&& after[i].id == before[i].id
    &&& after[i].tx == before[i].tx
    &&& after[i].programs@ == before[i].programs@.push(program)
}

impl State {
    /// Adds the window unless one with its id is already there.
    pub fn add_window(&mut self, window: Window)
        ensures
            !has_id(old(self).windows@, window.id@) ==> final(self).windows@ == old(self).windows@.push(window),
            has_id(old(self).windows@, window.id@) ==> final(self).windows@ == old(self).windows@,
            final(self).servers == old(self).servers,
            final(self).mode_name == old(self).mode_name,
    {
        proof {
            lemma_first_with_id(self.windows@, window.id@);
        }
        if position_by_id(&self.windows, &window.id).is_none() {
            self.windows.push(window);
        }
    }

    /// Removes the first window with the given id, if there is one.
    pub fn remove_window(&mut self, id: &str)
        ensures
            first_with_id(old(self).windows@, id@) matches Some(i)
                ==> final(self).windows@ == old(self).windows@.remove(i),
            first_with_id(old(self).windows@, id@) is None ==> final(self).windows@ == old(self).windows@,
            final(self).servers == old(self).servers,
            final(self).mode_name == old(self).mode_name,
    {
        let id = id.to_string();
        proof {
            lemma_first_with_id(self.windows@, id@);
        }
        if let Some(i) = position_by_id(&self.windows, &id) {
            self.windows.remove(i);
        }
    }

    /// Adds the pane to the first window with the given id, unless that window already has a pane
    /// with the pane's id. Nothing changes when no window has the id.
    pub fn add_pane(&mut self, window_id: &str, pane: Pane)
        ensures
            final(self).servers == old(self).servers,
            final(self).mode_name == old(self).mode_name,
            match first_with_id(old(self).windows@, window_id@) {
                Some(i) => if has_id(old(self).windows@[i].panes@, pane.id@) {
                    final(self).windows@ == old(self).windows@
                } else {
                    pane_added(old(self).windows@, final(self).windows@, i, pane)
                },
                None => final(self).windows@ == old(self).windows@,
            },
    {
        let window_id = window_id.to_string();
        proof {
            lemma_first_with_id(self.windows@, window_id@);
        }
        if let Some(i) = position_by_id(&self.windows, &window_id) {
            proof {
                lemma_first_with_id(self.windows@[i as int].panes@, pane.id@);
            }
            if position_by_id(&self.windows[i].panes, &pane.id).is_none() {
                let ghost before = self.windows@;
                let mut window = self.windows.remove(i);
                window.panes.push(pane);
                self.windows.insert(i, window);
                assert forall|j: int| 0 <= j < before.len() && j != i implies self.windows@[j] == before[j] by {
                    if j < i {
                        assert(self.windows@[j] == before.remove(i as int)[j]);
                    } else {
                        assert(self.windows@[j] == before.remove(i as int)[j - 1]);
                    }
                }
            }
        }
    }

    /// Adds the server unless one with its id is already there.
    pub fn add_server(&mut self, server: Server)
        ensures
            !has_id(old(self).servers@, server.id@) ==> final(self).servers@ == old(self).servers@.push(server),
            has_id(old(self).servers@, server.id@) ==> final(self).servers@ == old(self).servers@,
            final(self).windows == old(self).windows,
            final(self).mode_name == old(self).mode_name,
    {
        proof {
            lemma_first_with_id(self.servers@, server.id@);
        }
        if position_by_id(&self.servers, &server.id).is_none() {
            self.servers.push(server);
        }
    }

    /// Removes the first server with the given id, if there is one.
    pub fn remove_server(&mut self, id: &str)
        ensures
            first_with_id(old(self).servers@, id@) matches Some(i)
                ==> final(self).servers@ == old(self).servers@.remove(i),
            first_with_id(old(self).servers@, id@) is None ==> final(self).servers@ == old(self).servers@,
            final(self).windows == old(self).windows,
            final(self).mode_name == old(self).mode_name,
    {
        let id = id.to_string();
        proof {
            lemma_first_with_id(self.servers@, id@);
        }
        if let Some(i) = position_by_id(&self.servers, &id) {
            self.servers.remove(i);
        }
    }

    /// Adds the program to the first server with the given id, unless that server already has a
    /// program with the program's id. Nothing changes when no server has the id.
    pub fn add_program(&mut self, server_id: &str, program: Program)
        ensures
            final(self).windows == old(self).windows,
            final(self).mode_name == old(self).mode_name,
            match first_with_id(old(self).servers@, server_id@) {
                Some(i) => if has_id(old(self).servers@[i].programs@, program.id@) {
                    final(self).servers@ == old(self).servers@
                } else {
                    program_added(old(self).servers@, final(self).servers@, i, program)
                },
                None => final(self).servers@ == old(self).servers@,
            },
    {
        let server_id = server_id.to_string();
        proof {
            lemma_first_with_id(self.servers@, server_id@);
        }
        if let Some(i) = position_by_id(&self.servers, &server_id) {
            proof {
                lemma_first_with_id(self.servers@[i as int].programs@, program.id@);
            }
            if position_by_id(&self.servers[i].programs, &program.id).is_none() {
                let ghost before = self.servers@;
                let mut server = self.servers.remove(i);
                server.programs.push(program);
                self.servers.insert(i, server);
                assert forall|j: int| 0 <= j < before.len() && j != i implies self.servers@[j] == before[j] by {
                    if j < i {
                        assert(self.servers@[j] == before.remove(i as int)[j]);
                    } else {
                        assert(self.servers@[j] == before.remove(i as int)[j - 1]);
                    }
                }
            }
        }
    }
}

} // verus!
