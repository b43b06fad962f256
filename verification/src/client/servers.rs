use vstd::prelude::*;

use std::sync::mpsc::Sender;

use crate::server::ServerMsg;
use super::ids::{HasId, first_with_id, has_id, lemma_first_with_id, position_by_id};

verus! {

broadcast use vstd::string::group_string_axioms;

/// The intermix servers the client is connected to, each id at most once.
#[derive(Clone)]
pub struct Servers {
    servers: Vec<Server>,
}

/// A connection to an intermix server
#[derive(Clone)]
pub struct Server {
    pub id: String,
    pub programs: Vec<Program>,
    pub tx: Sender<ServerMsg>,
}

/// A program running on the server
#[derive(Default, Clone, Debug)]
pub struct Program {
    pub id: String,
    /// Whether the client is interested in msgs about this program. If its not visible, the answer
    /// is probably no.
    pub is_subscribed: bool,
}

/// `after` is what adding `program` to the first server with id `server_id` makes of `before`:
/// unchanged when no server has that id or that server already has a program with the
/// program's id; otherwise that server gets the program at the end of its programs.
pub open spec fn program_added(before: Seq<Server>, after: Seq<Server>, server_id: Seq<char>, program: Program) -> bool {
    match first_with_id(before, server_id) {
        Some(i) => if has_id(before[i].programs@, program.id@) {
            after == before
        } else {
            &&& after.len() == before.len()
            &&& forall|j: int| 0 <= j < before.len() && j != i ==> after[j] == before[j]
            &&& after[i].id == before[i].id
            &&& after[i].tx == before[i].tx
            &&& after[i].programs@ == before[i].programs@.push(program)
        },
        None => after == before,
    }
}

impl HasId for Server {
    open spec fn spec_id(&self) -> Seq<char> {
        self.id@
    }

    fn id_ref(&self) -> (r: &String) {
        &self.id
    }
}

impl HasId for Program {
    open spec fn spec_id(&self) -> Seq<char> {
        self.id@
    }

    fn id_ref(&self) -> (r: &String) {
        &self.id
    }
}

impl View for Servers {
    type V = Seq<Server>;

    closed spec fn view(&self) -> Seq<Server> {
        self.servers@
    }
}

impl Default for Servers {
    fn default() -> (r: Servers)
        ensures
            r@ == Seq::<Server>::empty(),
    {
        Servers { servers: Vec::new() }
    }
}

impl Servers {
    /// The servers, in the order they were added.
    pub fn iter(&self) -> (r: &Vec<Server>)
        ensures
            r@ == self@,
    {
        &self.servers
    }

    /// The servers, in the order they were added, to change them.
    pub fn iter_mut(&mut self) -> (r: &mut Vec<Server>)
        ensures
            r@ == old(self)@,
            final(self)@ == final(r)@,
    {
        &mut self.servers
    }

    /// The first server added, if any.
    pub fn first(&self) -> (r: Option<&Server>)
        ensures
            r matches Some(s) ==> self@.len() > 0 && *s == self@[0],
            r is None ==> self@.len() == 0,
    {
        if self.servers.len() > 0 {
            Some(&self.servers[0])
        } else {
            None
        }
    }

    /// Adds the server unless one with its id is already there.
    pub fn add_server(&mut self, server: Server)
        ensures
            !has_id(old(self)@, server.id@) ==> final(self)@ == old(self)@.push(server),
            has_id(old(self)@, server.id@) ==> final(self)@ == old(self)@,
    {
        proof {
            lemma_first_with_id(self.servers@, server.id@);
        }
        if position_by_id(&self.servers, &server.id).is_none() {
            self.servers.push(server);
        }
    }

    /// Removes the first server with the given id, if there is one.
    pub fn remove_server(&mut self, id: &str)
        ensures
            first_with_id(old(self)@, id@) matches Some(i) ==> final(self)@ == old(self)@.remove(i),
            first_with_id(old(self)@, id@) is None ==> final(self)@ == old(self)@,
    {
        let id = id.to_string();
        proof {
            lemma_first_with_id(self.servers@, id@);
        }
        if let Some(i) = position_by_id(&self.servers, &id) {
            self.servers.remove(i);
        }
    }

    /// Adds the program to the first server with the given id, unless that server already has a
    /// program with the program's id. Nothing changes when no server has the id.
    pub fn add_program(&mut self, server_id: &str, program: Program)
        ensures
            program_added(old(self)@, final(self)@, server_id@, program),
    {
        let server_id = server_id.to_string();
        proof {
            lemma_first_with_id(self.servers@, server_id@);
        }
        if let Some(i) = position_by_id(&self.servers, &server_id) {
            proof {
                lemma_first_with_id(self.servers@[i as int].programs@, program.id@);
            }
            if position_by_id(&self.servers[i].programs, &program.id).is_none() {
                let ghost before = self.servers@;
                let mut server = self.servers.remove(i);
                server.programs.push(program);
                self.servers.insert(i, server);
                assert forall|j: int| 0 <= j < before.len() && j != i implies self.servers@[j] == before[j] by {
                    if j < i {
                        assert(self.servers@[j] == before.remove(i as int)[j]);
                    } else {
                        assert(self.servers@[j] == before.remove(i as int)[j - 1]);
                    }
                }
            }
        }
    }
}

} // verus!
