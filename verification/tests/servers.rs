use std::sync::mpsc::channel;

use intermix::client::servers::{Program, Server, Servers};
use intermix::server::ServerMsg;

fn server(id: &str) -> Server {
    let (tx, _rx) = channel::<ServerMsg>();
    Server { id: id.to_string(), programs: vec![], tx: tx }
}

#[test]
fn servers_start_empty() {
    let servers: Servers = Default::default();
    assert!(servers.iter().is_empty());
    assert!(servers.first().is_none());
}

#[test]
fn servers_add_server_keeps_ids_unique() {
    let mut servers: Servers = Default::default();
    servers.add_server(server("a"));
    servers.add_server(server("b"));
    servers.add_server(server("a"));
    assert_eq!(servers.iter().len(), 2);
    assert_eq!(servers.first().unwrap().id, "a");
}

#[test]
fn servers_remove_server() {
    let mut servers: Servers = Default::default();
    servers.add_server(server("a"));
    servers.add_server(server("b"));
    servers.remove_server("a");
    servers.remove_server("zzz");
    assert_eq!(servers.iter().len(), 1);
    assert_eq!(servers.first().unwrap().id, "b");
}

#[test]
fn servers_add_program_to_known_server_once() {
    let mut servers: Servers = Default::default();
    servers.add_server(server("a"));
    servers.add_program("a", Program { id: "p".to_string(), is_subscribed: true });
    servers.add_program("a", Program { id: "p".to_string(), is_subscribed: false });
    servers.add_program("unknown", Program { id: "q".to_string(), is_subscribed: true });
    let programs = &servers.iter()[0].programs;
    assert_eq!(programs.len(), 1);
    assert_eq!(programs[0].id, "p");
    assert!(programs[0].is_subscribed);
}

#[test]
fn servers_iter_mut_changes_servers_in_place() {
    let mut servers: Servers = Default::default();
    servers.add_server(server("a"));
    servers.iter_mut()[0].programs.push(Program { id: "p".to_string(), is_subscribed: false });
    assert_eq!(servers.first().unwrap().programs.len(), 1);
}
