use std::sync::mpsc::{channel, Receiver};

use intermix::cell_buffer::cell::{ColorRGB, ScreenCell, ScreenCellAttr};
use intermix::client::layout::layout::Layout;
use intermix::client::main_worker::{MainWorker, Step};
use intermix::client::servers::Server;
use intermix::client::{ClientMsg, TtyIoCtlConfig};
use intermix::geom::{Pos, Rect, Size};
use intermix::server::ServerMsg;

fn worker() -> MainWorker {
    sized_worker(40, 100)
}

fn sized_worker(rows: usize, cols: usize) -> MainWorker {
    let mut w = MainWorker::new(TtyIoCtlConfig { rows: rows, cols: cols });
    assert_eq!(w.init(), Step::Paint);
    w
}

fn add_server(w: &mut MainWorker, id: &str) -> Receiver<ServerMsg> {
    let (tx, rx) = channel::<ServerMsg>();
    let step = w.handle(ClientMsg::ServerAdd { server: Server { id: id.to_string(), programs: vec![], tx: tx } });
    assert_eq!(step, Step::Continue);
    rx
}

fn screen_cell(ch: u8) -> ScreenCell {
    let black = ColorRGB { red: 0, green: 0, blue: 0 };
    ScreenCell {
        chars: vec![ch],
        width: 1,
        attrs: ScreenCellAttr {
            bold: true,
            underline: 0,
            italic: false,
            blink: false,
            reverse: false,
            strike: false,
            font: 0,
            dwl: false,
            dhl: 0,
        },
        fg_rgb: black,
        bg_rgb: black,
        fg_palette: 1,
        bg_palette: 0,
    }
}

fn status_text(w: &MainWorker, len: usize) -> Vec<u8> {
    let wraps = w.layout.wraps();
    let status = wraps.iter().find(|wrap| wrap.name() == "status_line").unwrap();
    let (x, y) = (status.computed_x().unwrap(), status.computed_y().unwrap());
    let mut text = vec![];
    for k in 0..len {
        text.extend(w.screen.index(Pos::new(x + k, y)).chars.iter());
    }
    text
}

fn program_origin(w: &MainWorker, name: &str) -> (usize, usize) {
    let wraps = w.layout.wraps();
    let wrap = wraps.iter().find(|wrap| wrap.name() == name).unwrap();
    (wrap.computed_x().unwrap(), wrap.computed_y().unwrap())
}

#[test]
fn main_worker_init_adds_the_status_line_and_shows_the_mode() {
    let w = worker();
    assert_eq!(w.layout.wraps().len(), 2);
    assert_eq!(w.layout.wraps()[1].name(), "status_line");
    assert_eq!(status_text(&w, 10), b"welcome".to_vec());
    assert!(w.selected_program_id.is_none());
}

#[test]
fn main_worker_quit_without_servers() {
    let mut w = worker();
    assert_eq!(w.handle(ClientMsg::Quit), Step::Quit);
}

#[test]
fn main_worker_quit_tells_every_server() {
    let mut w = worker();
    let a = add_server(&mut w, "a");
    let b = add_server(&mut w, "b");
    assert_eq!(w.handle(ClientMsg::Quit), Step::Quit);
    let msgs = w.take_outbox();
    assert_eq!(msgs.len(), 2);
    assert!(matches!(msgs[0], (0, ServerMsg::Quit)));
    assert!(matches!(msgs[1], (1, ServerMsg::Quit)));
    assert!(w.take_outbox().is_empty());
    drop((a, b));
}

#[test]
fn main_worker_quit_without_servers_queues_nothing() {
    let mut w = worker();
    assert_eq!(w.handle(ClientMsg::Quit), Step::Quit);
    assert!(w.take_outbox().is_empty());
}

#[test]
fn main_worker_server_add_keeps_ids_unique() {
    let mut w = worker();
    let _a = add_server(&mut w, "a");
    let _again = add_server(&mut w, "a");
    assert_eq!(w.servers.iter().len(), 1);
}

#[test]
fn main_worker_any_key_leaves_welcome_for_command_mode() {
    let mut w = worker();
    assert_eq!(w.handle(ClientMsg::UserInput { bytes: b"x".to_vec() }), Step::Paint);
    assert_eq!(w.modal_key_handler.mode_name(), "command");
    assert_eq!(status_text(&w, 10), b"command".to_vec());
    assert!(w.modal_key_handler.actions_queue.is_empty());
}

#[test]
fn main_worker_q_in_command_mode_quits() {
    let mut w = worker();
    let a = add_server(&mut w, "a");
    assert_eq!(w.handle(ClientMsg::UserInput { bytes: b"xq".to_vec() }), Step::Quit);
    let msgs = w.take_outbox();
    assert_eq!(msgs.len(), 1);
    assert!(matches!(msgs[0], (0, ServerMsg::Quit)));
    drop(a);
}

#[test]
fn main_worker_c_starts_bash_on_the_first_server() {
    let mut w = worker();
    let a = add_server(&mut w, "a");
    let b = add_server(&mut w, "b");
    assert_eq!(w.handle(ClientMsg::UserInput { bytes: b"xc".to_vec() }), Step::Paint);
    let msgs = w.take_outbox();
    assert_eq!(msgs.len(), 1);
    match &msgs[0] {
        (0, ServerMsg::ProgramStart { command_and_args, program_id }) => {
            assert_eq!(command_and_args, &vec!["bash".to_string()]);
            assert_eq!(program_id.len(), 36);
            assert_eq!(program_id.matches('-').count(), 4);
        },
        _ => panic!("no program start for the first server"),
    }
    drop((a, b));
}

#[test]
fn main_worker_start_without_servers_sends_nothing() {
    let mut w = worker();
    assert_eq!(w.handle(ClientMsg::UserInput { bytes: b"xc".to_vec() }), Step::Paint);
    assert!(w.take_outbox().is_empty());
}

#[test]
fn main_worker_program_add_adds_a_wrap_and_the_program() {
    let mut w = worker();
    let _a = add_server(&mut w, "a");
    let step = w.handle(ClientMsg::ProgramAdd { server_id: "a".to_string(), program_id: "p1".to_string() });
    assert_eq!(step, Step::Paint);
    assert_eq!(w.layout.wraps().len(), 3);
    assert_eq!(w.layout.wraps()[2].name(), "p1");
    assert_eq!(w.servers.iter()[0].programs.len(), 1);
    assert_eq!(w.servers.iter()[0].programs[0].id, "p1");
    assert!(w.servers.iter()[0].programs[0].is_subscribed);
}

#[test]
fn main_worker_focus_selects_a_program_and_input_goes_to_it() {
    let mut w = worker();
    let a = add_server(&mut w, "a");
    w.handle(ClientMsg::ProgramAdd { server_id: "a".to_string(), program_id: "p1".to_string() });
    assert_eq!(w.handle(ClientMsg::UserInput { bytes: b"xi".to_vec() }), Step::Paint);
    assert_eq!(w.selected_program_id, Some("p1".to_string()));
    assert_eq!(w.modal_key_handler.mode_name(), "program");
    assert!(w.layout.wraps()[2].has_border());
    assert_eq!(w.handle(ClientMsg::UserInput { bytes: b"a".to_vec() }), Step::Paint);
    let msgs = w.take_outbox();
    assert_eq!(msgs.len(), 1);
    match &msgs[0] {
        (0, ServerMsg::ProgramInput { program_id, bytes }) => {
            assert_eq!(program_id, "p1");
            assert_eq!(bytes, &b"a".to_vec());
        },
        _ => panic!("no program input for the first server"),
    }
    drop(a);
}

#[test]
fn main_worker_select_next_wraps_around() {
    let mut w = sized_worker(80, 100);
    let _a = add_server(&mut w, "a");
    w.handle(ClientMsg::ProgramAdd { server_id: "a".to_string(), program_id: "p1".to_string() });
    w.handle(ClientMsg::ProgramAdd { server_id: "a".to_string(), program_id: "p2".to_string() });
    assert!(w.program_select_next());
    assert_eq!(w.selected_program_id, Some("p1".to_string()));
    assert!(w.program_select_next());
    assert_eq!(w.selected_program_id, Some("p2".to_string()));
    assert!(w.program_select_next());
    assert_eq!(w.selected_program_id, Some("p1".to_string()));
    assert!(w.program_select_prev());
    assert_eq!(w.selected_program_id, Some("p1".to_string()));
}

#[test]
fn main_worker_programs_too_tall_for_the_screen_are_cut_to_fit() {
    let mut w = worker();
    assert_eq!(w.handle(ClientMsg::ProgramAdd { server_id: "a".to_string(), program_id: "p1".to_string() }), Step::Paint);
    assert_eq!(w.handle(ClientMsg::ProgramAdd { server_id: "a".to_string(), program_id: "p2".to_string() }), Step::Paint);
    // 49 rows asked of 40, cut in proportion: 0.82, 19.59 and 19.59, with the two spare rows
    // going to the status line and then to the first program
    let ws = w.layout.wraps();
    assert_eq!(ws[1].outside_height(), Some(1));
    assert_eq!(ws[2].outside_height(), Some(20));
    assert_eq!(ws[3].outside_height(), Some(19));
}

#[test]
fn main_worker_select_prev_undoes_select_next() {
    let mut w = sized_worker(80, 100);
    w.handle(ClientMsg::ProgramAdd { server_id: "a".to_string(), program_id: "p1".to_string() });
    w.handle(ClientMsg::ProgramAdd { server_id: "a".to_string(), program_id: "p2".to_string() });
    assert!(w.program_select_next());
    assert_eq!(w.selected_program_id, Some("p1".to_string()));
    assert!(w.program_select_next());
    assert!(w.program_select_prev());
    assert_eq!(w.selected_program_id, Some("p1".to_string()));
    assert!(w.program_select_next());
    assert_eq!(w.selected_program_id, Some("p2".to_string()));
    assert!(w.layout.wraps()[3].has_border());
    assert!(!w.layout.wraps()[2].has_border());
}

#[test]
fn main_worker_select_prev_without_programs_fails() {
    let mut w = worker();
    assert!(!w.program_select_prev());
    assert!(w.selected_program_id.is_none());
}

#[test]
fn main_worker_move_cursor_moves_to_the_wrap() {
    let mut w = worker();
    w.handle(ClientMsg::ProgramAdd { server_id: "a".to_string(), program_id: "p1".to_string() });
    let (x, y) = program_origin(&w, "p1");
    let step = w.handle(ClientMsg::ProgramMoveCursor {
        program_id: "p1".to_string(),
        new: Pos::new(2, 3),
        old: Pos::new(0, 0),
        is_visible: true,
    });
    assert_eq!(step, Step::MoveCursor { pos: Pos::new(x + 2, y + 3), is_visible: true });
    let step = w.handle(ClientMsg::ProgramMoveCursor {
        program_id: "nope".to_string(),
        new: Pos::new(2, 3),
        old: Pos::new(0, 0),
        is_visible: true,
    });
    assert_eq!(step, Step::Continue);
}

#[test]
fn main_worker_program_damage_copies_cells_into_the_wrap() {
    let mut w = worker();
    w.handle(ClientMsg::ProgramAdd { server_id: "a".to_string(), program_id: "p1".to_string() });
    let (x, y) = program_origin(&w, "p1");
    let step = w.handle(ClientMsg::ProgramDamage {
        program_id: "p1".to_string(),
        cells: vec![screen_cell(b'a'), screen_cell(b'b'), screen_cell(b'c')],
        rect: Rect::new(Pos::new(1, 1), Size::new(2, 1)),
    });
    assert_eq!(step, Step::Paint);
    let first = w.screen.index(Pos::new(x + 1, y + 1));
    assert_eq!(first.chars, b"a".to_vec());
    assert!(first.bold);
    assert!(first.dirty);
    assert_eq!(first.fg_palette, 1);
    assert_eq!(w.screen.index(Pos::new(x + 2, y + 1)).chars, b"b".to_vec());
    assert!(w.screen.index(Pos::new(x + 3, y + 1)).chars.is_empty());
}

#[test]
fn main_worker_program_damage_off_the_screen_fails() {
    let mut w = worker();
    w.handle(ClientMsg::ProgramAdd { server_id: "a".to_string(), program_id: "p1".to_string() });
    let step = w.handle(ClientMsg::ProgramDamage {
        program_id: "p1".to_string(),
        cells: vec![screen_cell(b'a')],
        rect: Rect::new(Pos::new(500, 0), Size::new(1, 1)),
    });
    assert_eq!(step, Step::Failed);
}

#[test]
fn main_worker_program_damage_of_an_unknown_program_changes_nothing() {
    let mut w = worker();
    let step = w.handle(ClientMsg::ProgramDamage {
        program_id: "p1".to_string(),
        cells: vec![screen_cell(b'a')],
        rect: Rect::new(Pos::new(0, 0), Size::new(1, 1)),
    });
    assert_eq!(step, Step::Paint);
    assert_eq!(status_text(&w, 7), b"welcome".to_vec());
}

#[test]
fn main_worker_clear_blanks_the_screen() {
    let mut w = worker();
    assert_eq!(w.handle(ClientMsg::Clear), Step::Paint);
    assert!(status_text(&w, 7).is_empty());
    assert!(w.screen.index(Pos::new(0, 0)).dirty);
    assert_eq!(w.handle(ClientMsg::StatusLineDamage), Step::Paint);
    assert_eq!(status_text(&w, 7), b"welcome".to_vec());
}

#[test]
fn main_worker_layout_swap_needs_the_same_size() {
    let mut w = worker();
    assert_eq!(w.handle(ClientMsg::LayoutSwap { layout: Layout::new(Size::new(10, 10)) }), Step::Failed);
    assert_eq!(w.layout.wraps().len(), 2);
    assert_eq!(w.handle(ClientMsg::LayoutSwap { layout: Layout::new(Size::new(100, 40)) }), Step::Continue);
    assert_eq!(w.layout.wraps().len(), 1);
    // a layout that was never computed cannot be drawn
    assert_eq!(w.handle(ClientMsg::LayoutDamage), Step::Failed);
    let mut computed = Layout::new(Size::new(100, 40));
    assert!(computed.try_flush_changes());
    assert_eq!(w.handle(ClientMsg::LayoutSwap { layout: computed }), Step::Continue);
    assert_eq!(w.handle(ClientMsg::LayoutDamage), Step::Paint);
}

#[test]
fn main_worker_ignores_updates_and_removals() {
    let mut w = worker();
    assert_eq!(w.handle(ClientMsg::ServerRemove { server_id: "a".to_string() }), Step::Continue);
    assert_eq!(
        w.handle(ClientMsg::ProgramRemove { server_id: "a".to_string(), program_id: "p".to_string() }),
        Step::Continue
    );
}

#[test]
fn main_worker_input_goes_to_the_server_that_runs_the_program() {
    let mut w = worker();
    let a = add_server(&mut w, "a");
    let b = add_server(&mut w, "b");
    assert_eq!(w.handle(ClientMsg::ProgramAdd { server_id: "b".to_string(), program_id: "p1".to_string() }), Step::Paint);
    assert_eq!(w.handle(ClientMsg::UserInput { bytes: b"xi".to_vec() }), Step::Paint);
    assert_eq!(w.handle(ClientMsg::UserInput { bytes: b"l".to_vec() }), Step::Paint);
    assert_eq!(w.handle(ClientMsg::UserInput { bytes: b"s".to_vec() }), Step::Paint);
    let msgs = w.take_outbox();
    assert_eq!(msgs.len(), 2);
    match (&msgs[0], &msgs[1]) {
        ((1, ServerMsg::ProgramInput { program_id: p, bytes: first }), (1, ServerMsg::ProgramInput { program_id: q, bytes: second })) => {
            assert_eq!((p.as_str(), q.as_str()), ("p1", "p1"));
            assert_eq!((first.clone(), second.clone()), (b"l".to_vec(), b"s".to_vec()));
        },
        _ => panic!("the input did not go to the second server"),
    }
    drop((a, b));
}

#[test]
fn main_worker_input_for_a_program_no_server_runs_queues_nothing() {
    let mut w = worker();
    assert_eq!(w.handle(ClientMsg::ProgramAdd { server_id: "gone".to_string(), program_id: "p1".to_string() }), Step::Paint);
    assert_eq!(w.handle(ClientMsg::UserInput { bytes: b"xi".to_vec() }), Step::Paint);
    assert_eq!(w.selected_program_id, Some("p1".to_string()));
    assert_eq!(w.handle(ClientMsg::UserInput { bytes: b"a".to_vec() }), Step::Paint);
    assert!(w.take_outbox().is_empty());
}
