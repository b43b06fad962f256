use std::sync::mpsc::channel;

use intermix::client::state::{Pane, Program, Server, State, Window};
use intermix::server::ServerMsg;

fn new_server(id: &str) -> Server {
    let (dummy_tx, _dummy_rx) = channel::<ServerMsg>();

    Server { id: id.to_string(), programs: vec![], tx: dummy_tx }
}

#[test]
fn add_window_when_empty_adds_the_window() {
    let mut state: State = Default::default();
    let window = Window { id: "saguaro".to_string(), ..Default::default() };
    state.add_window(window);
    assert!(state.windows.iter().any(|w| w.id == "saguaro"));
}

#[test]
fn add_window_when_already_added_does_nothing() {
    let mut state: State = Default::default();
    let window = Window { id: "saguaro".to_string(), ..Default::default() };
    state.add_window(window);
    let window = Window { id: "saguaro".to_string(), ..Default::default() };
    state.add_window(window);
    assert_eq!(state.windows.iter().filter(|w| w.id == "saguaro").count(), 1);
}

#[test]
fn remove_window_when_empty_does_nothing() {
    let mut state: State = Default::default();
    state.remove_window("unknown");
}

#[test]
fn remove_window_when_window_exists_removes_it() {
    let mut state: State = Default::default();
    let window = Window { id: "saguaro".to_string(), ..Default::default() };
    state.add_window(window);

    state.remove_window("saguaro");
    assert!(!state.windows.iter().any(|w| w.id == "saguaro"));
}

#[test]
fn add_pane_when_window_doesnt_exist_does_nothing() {
    let mut state: State = Default::default();
    let pane = Pane { id: "saguaro".to_string(), ..Default::default() };
    state.add_pane("uknown", pane);
    assert!(state.windows.is_empty());
}

#[test]
fn add_pane_when_window_is_empty_adds_the_pane() {
    let mut state: State = Default::default();
    let window = Window { id: "red".to_string(), ..Default::default() };
    state.add_window(window);
    let pane = Pane { id: "blue".to_string(), ..Default::default() };
    state.add_pane("red", pane);
    assert!(state.windows.iter().find(|w| w.id == "red").unwrap().panes.iter().any(|w| w.id == "blue"));
}

#[test]
fn add_pane_when_already_exists_does_nothing() {
    let mut state: State = Default::default();
    let window = Window { id: "red".to_string(), ..Default::default() };
    state.add_window(window);
    let pane = Pane { id: "blue".to_string(), ..Default::default() };
    state.add_pane("red", pane);
    let pane = Pane { id: "blue".to_string(), ..Default::default() };
    state.add_pane("red", pane);
    assert_eq!(
        state.windows.iter().find(|w| w.id == "red").unwrap().panes.iter().filter(|w| w.id == "blue").count(),
        1
    );
}

#[test]
fn add_server_when_empty_adds_the_server() {
    let mut state: State = Default::default();
    let server = new_server("saguaro");
    state.add_server(server);
    assert!(state.servers.iter().any(|w| w.id == "saguaro"));
}

#[test]
fn add_server_when_already_added_does_nothing() {
    let mut state: State = Default::default();
    let server = new_server("saguaro");
    state.add_server(server);
    let server = new_server("saguaro");
    state.add_server(server);
    assert_eq!(state.servers.iter().filter(|w| w.id == "saguaro").count(), 1);
}

#[test]
fn remove_server_when_empty_does_nothing() {
    let mut state: State = Default::default();
    state.remove_server("unknown");
}

#[test]
fn remove_server_when_server_exists_removes_it() {
    let mut state: State = Default::default();
    let server = new_server("saguaro");
    state.add_server(server);

    state.remove_server("saguaro");
    assert!(!state.servers.iter().any(|w| w.id == "saguaro"));
}

#[test]
fn add_program_when_server_doesnt_exist_does_nothing() {
    let mut state: State = Default::default();
    let program = Program { id: "saguaro".to_string(), ..Default::default() };
    state.add_program("uknown", program);
    assert!(state.servers.is_empty());
}

#[test]
fn add_program_when_server_is_empty_adds_the_program() {
    let mut state: State = Default::default();
    let server = new_server("red");
    state.add_server(server);
    let program = Program { id: "blue".to_string(), ..Default::default() };
    state.add_program("red", program);
    assert!(state.servers.iter().find(|w| w.id == "red").unwrap().programs.iter().any(|w| w.id == "blue"));
}

#[test]
fn add_program_when_already_exists_does_nothing() {
    let mut state: State = Default::default();
    let server = new_server("red");
    state.add_server(server);
    let program = Program { id: "blue".to_string(), ..Default::default() };
    state.add_program("red", program);
    let program = Program { id: "blue".to_string(), ..Default::default() };
    state.add_program("red", program);
    assert_eq!(
        state.servers.iter().find(|w| w.id == "red").unwrap().programs.iter().filter(|w| w.id == "blue").count(),
        1
    );
}

#[test]
fn state_remove_window_removes_only_the_first_with_the_id() {
    let mut state: State = Default::default();
    state.add_window(Window { id: "a".to_string(), ..Default::default() });
    state.add_window(Window { id: "b".to_string(), ..Default::default() });
    state.remove_window("a");
    assert_eq!(state.windows.len(), 1);
    assert_eq!(state.windows[0].id, "b");
}
