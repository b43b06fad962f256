use intermix::client::modal::command_mode::CommandMode;
use intermix::client::modal::graph_intermix::{escape, graph};
use intermix::client::modal::modal_key_handler::{ModalKeyHandler, UserAction};
use intermix::client::modal::program_mode::ProgramMode;
use intermix::client::modal::{Mode, UserCmd};

#[test]
fn escape_puts_the_escape_byte_first() {
    assert_eq!(escape(vec![99], 2), vec![2, 99]);
    assert_eq!(escape(vec![], 2), vec![2]);
}

#[test]
fn intermix_graph_starts_in_welcome_and_goes_to_command() {
    let g = graph();
    assert_eq!(g.nodes.len(), 3);
    assert_eq!(g.nodes[0].data.name, "welcome");
    assert_eq!(g.nodes[1].data.name, "command");
    assert_eq!(g.nodes[2].data.name, "program");
    let mut h = ModalKeyHandler::new_with_graph();
    assert_eq!(h.mode_name(), "welcome");
    h.write(&[b'x']).unwrap();
    assert_eq!(h.mode_name(), "command");
    h.write(&[b'i']).unwrap();
    assert_eq!(h.mode_name(), "program");
    assert_eq!(
        h.actions_queue,
        vec![
            UserAction::ModeChange { name: "command".to_string() },
            UserAction::ProgramFocus,
            UserAction::ModeChange { name: "program".to_string() },
        ]
    );
    h.write(&[2, b'c']).unwrap();
    assert_eq!(h.mode_name(), "command");
    h.write(&[b'q']).unwrap();
    assert_eq!(h.actions_queue.last(), Some(&UserAction::Quit));
}

#[test]
fn command_mode_starts_a_program_on_s() {
    let mut m = CommandMode::new();
    assert!(matches!(m.input(vec![b's']), Some(UserCmd::ProgramStart)));
    assert!(m.input(vec![b'x']).is_none());
    assert_eq!(m.display(), "command-mode");
}

#[test]
fn program_mode_passes_input_through_until_the_key() {
    let mut m = ProgramMode::new("p1".to_string());
    match m.input("hi".as_bytes().to_vec()) {
        Some(UserCmd::ProgramInput { program_id, bytes }) => {
            assert_eq!(program_id, "p1");
            assert_eq!(bytes, b"hi".to_vec());
        },
        _ => panic!("expected program input"),
    }
    match m.input(vec![b'b', b'x']) {
        Some(UserCmd::ModeChange { new_mode }) => assert_eq!(new_mode, "command"),
        _ => panic!("expected a mode change"),
    }
    assert_eq!(m.display(), "program-mode");
}
