use vstd::prelude::*;

use uuid::Uuid;

use crate::cell_buffer::cell::{Cell, ColorRGB, ScreenCell};
use crate::cell_buffer::cell_buffer::{index_pos, lemma_cell_index, CellBuffer};
use crate::geom::{Pos, Rect, Size};
use crate::server::{ServerMsg, ServerMsgView};
use super::ids::{has_id, lemma_first_with_id, position_by_id};
use super::layout::layout::{Layout, LayoutView};
use super::layout::passes::flushed;
use super::layout::wrap::WrapView;
use super::layout::wrap_builder::{WrapBuilder, WrapBuilderView};
use super::layout::GRID_COLUMNS_COUNT;
use super::node_box::{border_area, box_drawable, boxed_cell, draw_node_box, inside_area, node_box_fits, outside_area, screen_area};
use super::selection::{
    bordered, first_name_index, leaf_names, leaf_names_to, mark_selected, next_selection, opt_view,
    prev_selection, select_next, select_prev, string_views,
};
use super::servers::Program;
use super::modal::modal_key_handler::{key_run, ModalKeyHandler, UserAction, UserActionView};
use super::servers::{program_added, Server, Servers};
use super::{ClientMsg, TtyIoCtlConfig};

verus! {

broadcast use vstd::string::group_string_axioms;

/// `Uuid::new_v4`, hyphenated: a fresh random id for a program. Its hyphenated form always has
/// 36 characters (`Hyphenated::LENGTH`); which ones is left to chance and not claimed.
#[verifier::external_body]
fn new_program_id() -> (id: String)
    ensures
        id@.len() == 36,
{
    Uuid::new_v4().hyphenated().to_string()
}

/// The UTF-8 encoding of a character.
pub open spec fn utf8_of(c: char) -> Seq<u8> {
    let n = c as u32 as int;
    if n < 0x80 {
        seq![n as u8]
    } else if n < 0x800 {
        seq![(0xc0 + n / 64) as u8, (0x80 + n % 64) as u8]
    } else if n < 0x10000 {
        seq![(0xe0 + n / 4096) as u8, (0x80 + (n / 64) % 64) as u8, (0x80 + n % 64) as u8]
    } else {
        seq![
            (0xf0 + n / 262144) as u8,
            (0x80 + (n / 4096) % 64) as u8,
            (0x80 + (n / 64) % 64) as u8,
            (0x80 + n % 64) as u8,
        ]
    }
}

/// The wraps once the program `id` is selected and the layout is computed again.
pub open spec fn reselected(v: LayoutView, id: Seq<char>) -> Option<Seq<WrapView>> {
    flushed(v.size, Seq::new(v.wraps.len(), |i: int| bordered(v.wraps[i], id)), v.children)
}

/// The wrap a new program gets: a full row named after it, asking for 24 rows and 80 columns,
/// with a margin of 1.
pub open spec fn program_wrap(id: Seq<char>) -> WrapView {
    WrapBuilderView {
        name: Some(id),
        height: Some(24),
        width: Some(80),
        margin: Some(1),
        ..WrapBuilderView::with_grid_width(GRID_COLUMNS_COUNT)
    }.built()
}

/// The wrap of the status line: a full row one line high.
pub open spec fn status_line_wrap() -> WrapView {
    WrapBuilderView {
        name: Some("status_line"@),
        height: Some(1),
        ..WrapBuilderView::with_grid_width(GRID_COLUMNS_COUNT)
    }.built()
}

/// The `k`-th position of a rectangle, row after row.
pub open spec fn rect_pos(r: Rect, k: int) -> Pos {
    Pos {
        x: (r.origin.x + k % (r.size.width as int)) as usize,
        y: (r.origin.y + k / (r.size.width as int)) as usize,
    }
}

/// Two cells agree in everything but their glyph and whether they are dirty.
pub open spec fn same_look(a: Cell, b: Cell) -> bool {
    &&& a.bg_palette == b.bg_palette
    &&& a.bg_rgb == b.bg_rgb
    &&& a.blink == b.blink
    &&& a.bold == b.bold
    &&& a.dhl == b.dhl
    &&& a.dwl == b.dwl
    &&& a.fg_palette == b.fg_palette
    &&& a.fg_rgb == b.fg_rgb
    &&& a.font == b.font
    &&& a.italic == b.italic
    &&& a.pos == b.pos
    &&& a.reverse == b.reverse
    &&& a.strike == b.strike
    &&& a.underline == b.underline
    &&& a.width == b.width
}

/// A cell is left as it was.
pub open spec fn kept_cell(old: Cell, new: Cell) -> bool {
    &&& same_look(old, new)
    &&& new.dirty == old.dirty
    &&& new.chars@ == old.chars@
}

/// The area a wrap's computed values give, when they lie on a screen of the given size.
pub open spec fn area_on_screen(w: WrapView, size: Size) -> Option<Rect> {
    match (w.computed_x, w.computed_y, w.computed_width, w.computed_height) {
        (Some(x), Some(y), Some(cw), Some(ch)) => if x + cw <= size.width && y + ch <= size.height {
            Some(Rect { origin: Pos { x: x, y: y }, size: Size { width: cw, height: ch } })
        } else {
            None
        },
        _ => None,
    }
}

/// The cell at `p` once the mode name is written into the area `r`: every cell of the area is
/// dirty, and the `k`-th cell of the area, row after row, shows the `k`-th character of the name,
/// or nothing past its end; cells outside the area stay.
pub open spec fn status_cell(old: Cell, new: Cell, p: Pos, r: Rect, name: Seq<char>) -> bool {
    if r.holds(p) {
        let k = (p.y - r.origin.y) * r.size.width + (p.x - r.origin.x);
        &&& same_look(old, new)
        &&& new.dirty
        &&& new.chars@ == if k < name.len() {
            utf8_of(name[k])
        } else {
            Seq::empty()
        }
    } else {
        kept_cell(old, new)
    }
}

/// The cell at `p` once a program's damaged cells are copied in: the program's `k`-th damaged
/// cell, taken row after row from `rect`, goes to that position moved by (`x`, `y`), for the
/// first `m` of them; it is copied as `Cell::update_from_vterm_cell` does and marked dirty.
pub open spec fn damaged_cell(old: Cell, new: Cell, p: Pos, rect: Rect, x: int, y: int, m: int, cells: Seq<ScreenCell>) -> bool {
    let q = Pos { x: (p.x - x) as usize, y: (p.y - y) as usize };
    let k = (q.y - rect.origin.y) * rect.size.width + (q.x - rect.origin.x);
    if p.x >= x && p.y >= y && rect.holds(q) && k < m {
        let c = cells[k];
        &&& new.bg_palette == c.bg_palette
        &&& new.bg_rgb == c.bg_rgb
        &&& new.blink == c.attrs.blink
        &&& new.bold == c.attrs.bold
        &&& new.chars@ == c.chars@
        &&& new.dhl == c.attrs.dhl
        &&& new.dirty
        &&& new.dwl == c.attrs.dwl
        &&& new.fg_palette == c.fg_palette
        &&& new.fg_rgb == c.fg_rgb
        &&& new.font == c.attrs.font
        &&& new.italic == c.attrs.italic
        &&& new.pos == old.pos
        &&& new.reverse == c.attrs.reverse
        &&& new.strike == c.attrs.strike
        &&& new.underline == c.attrs.underline
        &&& new.width == c.width
    } else {
        kept_cell(old, new)
    }
}

/// The first `m` positions of `rect`, moved by (`x`, `y`), lie on a screen of the given size.
pub open spec fn damage_on_screen(rect: Rect, x: int, y: int, m: int, size: Size) -> bool {
    forall|k: int|
        0 <= k < m ==> {
            let p = #[trigger] rect_pos(rect, k);
            p.x + x < size.width && p.y + y < size.height
        }
}

/// The UTF-8 encoding of a character.
fn utf8_bytes(c: char) -> (r: Vec<u8>)
    ensures
        r@ == utf8_of(c),
{
    let n = c as u32;
    if n < 0x80 {
        let r = vec![n as u8];
        assert(r@ =~= utf8_of(c));
        r
    } else if n < 0x800 {
        let r = vec![(0xc0 + n / 64) as u8, (0x80 + n % 64) as u8];
        assert(r@ =~= utf8_of(c));
        r
    } else if n < 0x10000 {
        let r = vec![(0xe0 + n / 4096) as u8, (0x80 + (n / 64) % 64) as u8, (0x80 + n % 64) as u8];
        assert(r@ =~= utf8_of(c));
        r
    } else {
        assert(n <= 0x10ffff);
        let r = vec![
            (0xf0 + n / 262144) as u8,
            (0x80 + (n / 4096) % 64) as u8,
            (0x80 + (n / 64) % 64) as u8,
            (0x80 + n % 64) as u8,
        ];
        assert(r@ =~= utf8_of(c));
        r
    }
}

/// What the surroundings of the main worker do after it handled a message.
#[derive(Debug, Clone, Copy, PartialEq, Eq, Structural)]
pub enum Step {
    /// Keep listening.
    Continue,
    /// Paint the dirty cells of the screen, then keep listening.
    Paint,
    /// Move the terminal's cursor, then keep listening.
    MoveCursor { pos: Pos, is_visible: bool },
    /// Stop listening.
    Quit,
    /// The message could not be handled: the layout cannot be computed or drawn on the screen,
    /// or a swapped-in layout does not fit it.
    Failed,
}

/// The client's main worker: it handles user input and server state changes, and owns the
/// client state and the screen's cells.
pub struct MainWorker {
    pub servers: Servers,
    pub modal_key_handler: ModalKeyHandler,
    pub tty_ioctl_config: TtyIoCtlConfig,
    pub layout: Layout,
    pub selected_program_id: Option<String>,
    pub screen: CellBuffer,
    /// The messages for servers that handling has produced and that were not taken yet, each
    /// with the position of its server in `servers`, oldest first.
    pub outbox: Vec<(usize, ServerMsg)>,
}

/// The messages of a worker's outbox, each as its server's position and the message's value.
pub open spec fn outbox_of(w: MainWorker) -> Seq<(int, ServerMsgView)> {
    w.outbox@.map_values(|m: (usize, ServerMsg)| (m.0 as int, m.1@))
}

/// The worker states agree in everything but their key handlers.
pub open spec fn same_but_keys(a: MainWorker, b: MainWorker) -> bool {
    &&& a.servers == b.servers
    &&& a.layout == b.layout
    &&& a.selected_program_id == b.selected_program_id
    &&& a.screen == b.screen
    &&& a.outbox@ == b.outbox@
}

/// What `quit` does from `b` to `a`: a `Quit` for each server, in order, joins the outbox.
/// Nothing else changes.
pub open spec fn quit_done(b: MainWorker, a: MainWorker) -> bool {
    &&& a.servers == b.servers
    &&& a.layout == b.layout
    &&& a.selected_program_id == b.selected_program_id
    &&& a.screen == b.screen
    &&& outbox_of(a) == outbox_of(b) + quits(b.servers@.len() as int)
}

/// What `program_input_cmd` does from `b` to `a`: the bytes for the selected program join the
/// outbox, for the first server that runs it; nothing joins when no program is selected or no
/// server runs it. Nothing else changes.
pub open spec fn input_done(b: MainWorker, a: MainWorker, bytes: Seq<u8>) -> bool {
    &&& a.servers == b.servers
    &&& a.layout == b.layout
    &&& a.selected_program_id == b.selected_program_id
    &&& a.screen == b.screen
    &&& outbox_of(a) == match b.selected_program_id {
        Some(id) => match server_with_program(b.servers@, id@) {
            Some(i) => outbox_of(b).push((i, ServerMsgView::ProgramInput { program_id: id@, bytes: bytes })),
            None => outbox_of(b),
        },
        None => outbox_of(b),
    }
}

/// What `program_start_cmd` does from `b` to `a`: a request to the first server to start bash,
/// under a fresh id of 36 characters, joins the outbox; nothing joins when there is no server.
/// Nothing else changes.
pub open spec fn start_done(b: MainWorker, a: MainWorker) -> bool {
    &&& a.servers == b.servers
    &&& a.layout == b.layout
    &&& a.selected_program_id == b.selected_program_id
    &&& a.screen == b.screen
    &&& b.servers@.len() == 0 ==> outbox_of(a) == outbox_of(b)
    &&& b.servers@.len() > 0 ==> {
        &&& outbox_of(a).len() == outbox_of(b).len() + 1
        &&& outbox_of(a).drop_last() == outbox_of(b)
        &&& outbox_of(a).last().0 == 0
        &&& outbox_of(a).last().1 matches ServerMsgView::ProgramStart { command_and_args, program_id }
            && command_and_args == seq!["bash"@] && program_id.len() == 36
    }
}

/// The layout of `a` is that of `b` with the program `id` selected and computed again, and the
/// screen of `a` is that of `b` with the boxes of the new layout drawn.
pub open spec fn shown(b: MainWorker, a: MainWorker, id: Seq<char>) -> bool {
    &&& a.layout@ == (LayoutView { wraps: reselected(b.layout@, id).unwrap(), ..b.layout@ })
    &&& boxes_drawn(b.screen.cells(), a.screen.cells(), a.layout@.wraps, a.layout@.size)
}

/// The program `id` can be shown on the layout `v`: with it selected, the layout can be
/// computed again and every box of it drawn on the screen.
pub open spec fn shows(v: LayoutView, id: Seq<char>) -> bool {
    reselected(v, id) matches Some(ws) && boxes_drawable(LayoutView { wraps: ws, ..v })
}

/// The names of the programs of a worker's layout.
pub open spec fn program_names(w: MainWorker) -> Seq<Seq<char>> {
    leaf_names_to(w.layout@.wraps, w.layout@.wraps.len() as int)
}

/// What `program_select_next` does from `b` to `a`: the program after the selected one is
/// selected (see `next_selection`) and, when `ok`, shown. Servers and messages do not change.
pub open spec fn next_done(b: MainWorker, a: MainWorker, ok: bool) -> bool {
    &&& a.servers == b.servers
    &&& a.outbox@ == b.outbox@
    &&& opt_view(a.selected_program_id) == next_selection(program_names(b), opt_view(b.selected_program_id))
    &&& match a.selected_program_id {
        Some(id) => {
            &&& ok == shows(b.layout@, id@)
            &&& ok ==> shown(b, a, id@)
        },
        None => a.layout == b.layout && ok == boxes_drawable(b.layout@),
    }
}

/// What `program_select_prev` does from `b` to `a`: the program before the selected one is
/// selected (see `prev_selection`) and, when `ok`, shown; `ok` is `false`, with nothing changed,
/// when there is no program. Servers and messages do not change.
pub open spec fn prev_done(b: MainWorker, a: MainWorker, ok: bool) -> bool {
    &&& a.servers == b.servers
    &&& a.outbox@ == b.outbox@
    &&& if program_names(b).len() == 0 {
        &&& !ok
        &&& a.selected_program_id == b.selected_program_id
        &&& a.layout == b.layout
        &&& a.screen == b.screen
    } else {
        let id = prev_selection(program_names(b), opt_view(b.selected_program_id));
        &&& opt_view(a.selected_program_id) == Some(id)
        &&& ok == shows(b.layout@, id)
        &&& ok ==> shown(b, a, id)
    }
}

/// What `program_focus_cmd` does from `b` to `a`: a selection that is one of the programs stays
/// and nothing changes; otherwise the next program is selected, as `program_select_next` does.
pub open spec fn focus_done(b: MainWorker, a: MainWorker, ok: bool) -> bool {
    if b.selected_program_id matches Some(id) && first_name_index(program_names(b), id@) is Some {
        ok && same_but_keys(a, b)
    } else {
        next_done(b, a, ok)
    }
}

/// What `damage_status_line` does from `b` to `a`: the mode name is written into the status
/// line (see `status_line_shown`). Nothing else changes.
pub open spec fn status_done(b: MainWorker, a: MainWorker, name: Seq<char>, ok: bool) -> bool {
    &&& a.layout == b.layout
    &&& a.servers == b.servers
    &&& a.selected_program_id == b.selected_program_id
    &&& a.outbox@ == b.outbox@
    &&& a.screen.cells().len() == b.screen.cells().len()
    &&& status_line_shown(b.screen.cells(), a.screen.cells(), b.layout@, name, ok)
}

/// What handling a user action does from `b` to `a`, `name` being the current mode's name.
pub open spec fn action_done(b: MainWorker, a: MainWorker, action: UserActionView, name: Seq<char>, ok: bool) -> bool {
    match action {
        UserActionView::ModeChange { .. } => status_done(b, a, name, ok),
        UserActionView::ProgramFocus => focus_done(b, a, ok),
        UserActionView::ProgramInput { bytes } => ok && input_done(b, a, bytes),
        UserActionView::ProgramStart => ok && start_done(b, a),
        UserActionView::ProgramSelectPrev => prev_done(b, a, ok),
        UserActionView::ProgramSelectNext => next_done(b, a, ok),
        UserActionView::Quit => ok && quit_done(b, a),
        UserActionView::UnknownInput { .. } => ok && same_but_keys(a, b),
    }
}

/// The worker went through `states` handling the queued actions `q` from the last one down to
/// the one at `stop`: `states[k + 1]` is `states[k]` once the `k`-th action from the end was
/// handled, each of them successfully but the last one when `last_ok` is `false`.
pub open spec fn actions_run(states: Seq<MainWorker>, q: Seq<UserActionView>, stop: int, name: Seq<char>, last_ok: bool) -> bool {
    let m = q.len() - stop;
    &&& 0 <= stop <= q.len()
    &&& states.len() == m + 1
    &&& forall|k: int|
        0 <= k < m ==> action_done(#[trigger] states[k], states[k + 1], q[q.len() - 1 - k], name, k < m - 1 || last_ok)
}

/// The worker went from `b` to `a` through `states` when fed the bytes: the actions the key
/// handler queued were handled as `actions_run` says, the last one successfully unless `r` is
/// `Failed`.
pub open spec fn input_states(states: Seq<MainWorker>, b: MainWorker, a: MainWorker, bytes: Seq<u8>, r: Step) -> bool {
    &&& actions_run(
        states,
        key_run(b.modal_key_handler.graph, b.modal_key_handler.key_state(), bytes).queue,
        a.modal_key_handler.key_state().queue.len() as int,
        mode_name_of(a.modal_key_handler),
        r != Step::Failed,
    )
    &&& same_but_keys(states[0], b)
    &&& same_but_keys(states.last(), a)
}

/// An action done from one worker state is done from any state that agrees with it in
/// everything but the key handler.
proof fn lemma_action_done_same(b1: MainWorker, b2: MainWorker, a: MainWorker, action: UserActionView, name: Seq<char>, ok: bool)
    requires
        same_but_keys(b1, b2),
        action_done(b2, a, action, name, ok),
    ensures
        action_done(b1, a, action, name, ok),
{
}

/// One more action handled extends the run.
proof fn lemma_run_step(states: Seq<MainWorker>, q: Seq<UserActionView>, n: int, name: Seq<char>, a: MainWorker, ok: bool)
    requires
        actions_run(states, q, n, name, true),
        0 < n,
        action_done(states.last(), a, q[n - 1], name, ok),
    ensures
        actions_run(states.push(a), q, n - 1, name, ok),
{
    let m = q.len() - n;
    let next = states.push(a);
    assert forall|k: int| 0 <= k < m + 1 implies action_done(
        #[trigger] next[k],
        next[k + 1],
        q[q.len() - 1 - k],
        name,
        k < m || ok,
    ) by {
        if k < m {
            assert(next[k] == states[k]);
            assert(next[k + 1] == states[k + 1]);
        } else {
            assert(next[k] == states.last());
        }
    }
}

/// The screen `after` is `before` cleared, with the boxes of the layout drawn and the mode name
/// written into the status line.
pub open spec fn init_drawn(before: Seq<Cell>, after: Seq<Cell>, v: LayoutView, name: Seq<char>) -> bool {
    exists|blank: Seq<Cell>, boxed: Seq<Cell>|
        #[trigger] cleared(before, blank) && #[trigger] boxes_drawn(blank, boxed, v.wraps, v.size)
            && status_line_shown(boxed, after, v, name, true)
}

/// The position of the first server that runs a program with the given id.
pub open spec fn server_with_program(ss: Seq<Server>, id: Seq<char>) -> Option<int>
    decreases ss.len(),
{
    if ss.len() == 0 {
        None
    } else if has_id(ss[0].programs@, id) {
        Some(0)
    } else {
        match server_with_program(ss.drop_first(), id) {
            Some(i) => Some(i + 1),
            None => None,
        }
    }
}

/// The position of the first wrap with the given name.
pub open spec fn first_named(ws: Seq<WrapView>, name: Seq<char>) -> Option<int>
    decreases ws.len(),
{
    if ws.len() == 0 {
        None
    } else if ws[0].name == name {
        Some(0)
    } else {
        match first_named(ws.drop_first(), name) {
            Some(i) => Some(i + 1),
            None => None,
        }
    }
}

/// The messages that quitting queues: one `Quit` for each of the first `n` servers, in order.
pub open spec fn quits(n: int) -> Seq<(int, ServerMsgView)> {
    Seq::new(n as nat, |i: int| (i, ServerMsgView::Quit))
}

proof fn lemma_server_with_program(ss: Seq<Server>, id: Seq<char>)
    ensures
        server_with_program(ss, id) matches Some(i) ==> 0 <= i < ss.len() && has_id(ss[i].programs@, id)
            && forall|j: int| 0 <= j < i ==> !has_id(#[trigger] ss[j].programs@, id),
        server_with_program(ss, id) is None ==> forall|j: int| 0 <= j < ss.len() ==> !has_id(#[trigger] ss[j].programs@, id),
    decreases ss.len(),
{
    if ss.len() > 0 {
        let rest = ss.drop_first();
        lemma_server_with_program(rest, id);
        let first_has = has_id(ss[0].programs@, id);
        if first_has {
            assert(server_with_program(ss, id) == Some(0int));
        } else {
            assert forall|j: int| 1 <= j < ss.len() implies #[trigger] ss[j] == rest[j - 1] by {}
            match server_with_program(rest, id) {
                Some(i) => {
                    assert(server_with_program(ss, id) == Some(i + 1));
                    assert forall|j: int| 0 <= j < i + 1 implies !has_id(#[trigger] ss[j].programs@, id) by {
                        if j > 0 {
                            assert(ss[j] == rest[j - 1]);
                            assert(!has_id(rest[j - 1].programs@, id));
                        } else {
                            assert(!first_has);
                        }
                    }
                },
                None => {
                    assert(server_with_program(ss, id) is None);
                    assert forall|j: int| 0 <= j < ss.len() implies !has_id(#[trigger] ss[j].programs@, id) by {
                        if j > 0 {
                            assert(ss[j] == rest[j - 1]);
                            assert(!has_id(rest[j - 1].programs@, id));
                        } else {
                            assert(!first_has);
                        }
                    }
                },
            }
        }
    }
}

proof fn lemma_first_named(ws: Seq<WrapView>, name: Seq<char>)
    ensures
        first_named(ws, name) matches Some(i) ==> 0 <= i < ws.len() && ws[i].name == name && forall|j: int|
            0 <= j < i ==> (#[trigger] ws[j]).name != name,
        first_named(ws, name) is None ==> forall|j: int| 0 <= j < ws.len() ==> (#[trigger] ws[j]).name != name,
    decreases ws.len(),
{
    if ws.len() > 0 {
        lemma_first_named(ws.drop_first(), name);
        assert forall|j: int| 0 <= j < ws.len() - 1 implies #[trigger] ws.drop_first()[j] == ws[j + 1] by {}
        if let Some(i) = first_named(ws, name) {
            if i > 0 {
                assert forall|j: int| 0 <= j < i implies (#[trigger] ws[j]).name != name by {
                    if j > 0 {
                        assert(ws.drop_first()[j - 1] == ws[j]);
                    }
                }
            }
        } else {
            assert forall|j: int| 0 <= j < ws.len() implies (#[trigger] ws[j]).name != name by {
                if j > 0 {
                    assert(ws.drop_first()[j - 1] == ws[j]);
                }
            }
        }
    }
}

impl MainWorker {
    /// The layout, the key handler and the screen are well formed, and the screen is as large as
    /// the layout.
    pub open spec fn wf(&self) -> bool {
        &&& self.layout.wf()
        &&& self.modal_key_handler.wf()
        &&& self.screen.wf()
        &&& self.screen.size() == self.layout@.size
    }

    /// A worker for a tty of the given size: no servers, the intermix modes, a layout of just
    /// the root, no program selected, a blank screen.
    pub fn new(tty_ioctl_config: TtyIoCtlConfig) -> (r: MainWorker)
        requires
            tty_ioctl_config.cols * tty_ioctl_config.rows <= usize::MAX,
        ensures
            r.wf(),
            r.servers@ == Seq::<Server>::empty(),
            r.tty_ioctl_config == tty_ioctl_config,
            r.layout@.size == (Size { width: tty_ioctl_config.cols, height: tty_ioctl_config.rows }),
            r.layout@.wraps.len() == 1,
            r.selected_program_id is None,
            r.outbox@.len() == 0,
    {
        let size = Size::new(tty_ioctl_config.cols, tty_ioctl_config.rows);
        MainWorker {
            servers: Servers::default(),
            modal_key_handler: ModalKeyHandler::new_with_graph(),
            tty_ioctl_config: tty_ioctl_config,
            layout: Layout::new(size),
            selected_program_id: None,
            screen: CellBuffer::new(size),
            outbox: Vec::new(),
        }
    }

    /// Queues a `Quit` for every server, in order.
    pub fn quit(&mut self)
        requires
            old(self).wf(),
        ensures
            final(self).wf(),
            final(self).modal_key_handler == old(self).modal_key_handler,
            quit_done(*old(self), *final(self)),
    {
        let n = self.servers.iter().len();
        let mut i: usize = 0;
        assert(outbox_of(*self) =~= outbox_of(*old(self)) + quits(0));
        while i < n
            invariant
                n == self.servers@.len(),
                self.wf(),
                self.servers == old(self).servers,
                self.layout == old(self).layout,
                self.selected_program_id == old(self).selected_program_id,
                self.modal_key_handler == old(self).modal_key_handler,
                self.screen == old(self).screen,
                i <= n,
                outbox_of(*self) == outbox_of(*old(self)) + quits(i as int),
            decreases n - i,
        {
            let ghost before = outbox_of(*self);
            self.outbox.push((i, ServerMsg::Quit));
            proof {
                assert(outbox_of(*self) =~= before.push((i as int, ServerMsgView::Quit)));
                assert(outbox_of(*self) =~= outbox_of(*old(self)) + quits(i + 1));
            }
            i = i + 1;
        }
    }

    /// The position of the first server running the program.
    fn find_server_with_program(&self, id: &String) -> (r: Option<usize>)
        ensures
            match r {
                Some(i) => server_with_program(self.servers@, id@) == Some(i as int),
                None => server_with_program(self.servers@, id@) is None,
            },
    {
        let servers = self.servers.iter();
        proof {
            lemma_server_with_program(servers@, id@);
        }
        let mut i: usize = 0;
        while i < servers.len()
            invariant
                servers@ == self.servers@,
                i <= servers@.len(),
                forall|j: int| 0 <= j < i ==> !has_id(#[trigger] servers@[j].programs@, id@),
            decreases servers@.len() - i,
        {
            proof {
                lemma_first_with_id(servers@[i as int].programs@, id@);
            }
            if position_by_id(&servers[i].programs, id).is_some() {
                proof {
                    lemma_server_with_program(servers@, id@);
                    if let Some(f) = server_with_program(servers@, id@) {
                        assert(f >= i);
                        assert(f <= i);
                    }
                }
                return Some(i);
            }
            i = i + 1;
        }
        proof {
            lemma_server_with_program(servers@, id@);
            if let Some(f) = server_with_program(servers@, id@) {
                assert(has_id(servers@[f].programs@, id@));
            }
        }
        None
    }

    /// Queues the bytes for the selected program, for the first server that runs it; nothing is
    /// queued when no program is selected or no server runs it.
    pub fn program_input_cmd(&mut self, bytes: Vec<u8>)
        requires
            old(self).wf(),
        ensures
            final(self).wf(),
            final(self).modal_key_handler == old(self).modal_key_handler,
            input_done(*old(self), *final(self), bytes@),
    {
        let program_id = match &self.selected_program_id {
            Some(id) => id.clone(),
            None => return,
        };
        let i = match self.find_server_with_program(&program_id) {
            Some(i) => i,
            None => return,
        };
        let ghost before = outbox_of(*self);
        let msg = ServerMsg::ProgramInput { program_id: program_id, bytes: bytes };
        let ghost view = msg@;
        self.outbox.push((i, msg));
        proof {
            assert(outbox_of(*self) =~= before.push((i as int, view)));
        }
    }

    /// Queues a request to the first server to start a program running bash, under a fresh id;
    /// nothing is queued when there is no server.
    pub fn program_start_cmd(&mut self)
        requires
            old(self).wf(),
        ensures
            final(self).wf(),
            final(self).modal_key_handler == old(self).modal_key_handler,
            start_done(*old(self), *final(self)),
    {
        if self.servers.first().is_none() {
            return;
        }
        let command_and_args: Vec<String> = vec!["bash".to_string()];
        let program_id = new_program_id();
        let msg = ServerMsg::ProgramStart { command_and_args: command_and_args, program_id: program_id };
        let ghost view = msg@;
        let ghost before = outbox_of(*self);
        assert(view matches ServerMsgView::ProgramStart { command_and_args, .. } && command_and_args =~= seq!["bash"@]);
        self.outbox.push((0, msg));
        proof {
            assert(outbox_of(*self) =~= before.push((0, view)));
            assert(outbox_of(*self).drop_last() =~= before);
        }
    }

    /// Hands over the queued messages for servers, oldest first, and leaves the outbox empty.
    pub fn take_outbox(&mut self) -> (msgs: Vec<(usize, ServerMsg)>)
        ensures
            msgs@ == old(self).outbox@,
            final(self).outbox@.len() == 0,
            final(self).servers == old(self).servers,
            final(self).modal_key_handler == old(self).modal_key_handler,
            final(self).tty_ioctl_config == old(self).tty_ioctl_config,
            final(self).layout == old(self).layout,
            final(self).selected_program_id == old(self).selected_program_id,
            final(self).screen == old(self).screen,
    {
        let mut msgs: Vec<(usize, ServerMsg)> = Vec::new();
        std::mem::swap(&mut msgs, &mut self.outbox);
        msgs
    }
}


/// The layout once `w` is added as the last child of the root and the layout is computed
/// again; `None` when it cannot be computed.
pub open spec fn with_root_child(v: LayoutView, w: WrapView) -> Option<LayoutView> {
    let wraps = v.wraps.push(w);
    let children = v.children.update(0, v.children[0].push(v.wraps.len() as usize)).push(Seq::<usize>::empty());
    match flushed(v.size, wraps, children) {
        Some(ws) => Some(LayoutView { size: v.size, wraps: ws, children: children }),
        None => None,
    }
}

/// Every cell of `after` is blank at the position of the same cell of `before`, and dirty.
pub open spec fn cleared(before: Seq<Cell>, after: Seq<Cell>) -> bool {
    &&& after.len() == before.len()
    &&& forall|i: int| 0 <= i < after.len() ==> (#[trigger] after[i]).is_blank(before[i].pos) && after[i].dirty
}

/// `after` is `before` with the box of the wrap drawn: see `boxed_cell`.
pub open spec fn box_drawn(before: Seq<Cell>, after: Seq<Cell>, w: WrapView, size: Size) -> bool {
    &&& after.len() == before.len()
    &&& forall|i: int|
        0 <= i < before.len() ==> boxed_cell(
            #[trigger] before[i],
            after[i],
            index_pos(i, size.width as int),
            outside_area(w).meet(screen_area(size)),
            inside_area(w).meet(screen_area(size)),
            if w.has_border {
                Some(border_area(w).meet(screen_area(size)))
            } else {
                None
            },
        )
}

/// Each screen of `screens` is the one before it with the box of the next wrap drawn.
pub open spec fn drawn_through(screens: Seq<Seq<Cell>>, ws: Seq<WrapView>, size: Size) -> bool {
    &&& screens.len() == ws.len() + 1
    &&& forall|k: int| 0 <= k < ws.len() ==> box_drawn(#[trigger] screens[k], screens[k + 1], ws[k], size)
}

/// `after` is `before` with the boxes of the wraps drawn one after the other.
pub open spec fn boxes_drawn(before: Seq<Cell>, after: Seq<Cell>, ws: Seq<WrapView>, size: Size) -> bool {
    exists|screens: Seq<Seq<Cell>>|
        #[trigger] drawn_through(screens, ws, size) && screens[0] == before && screens.last() == after
}

/// Every wrap's box can be drawn on the screen.
pub open spec fn boxes_drawable(v: LayoutView) -> bool {
    forall|i: int| 0 <= i < v.wraps.len() ==> box_drawable(#[trigger] v.wraps[i], v.size)
}

/// Where the cursor of a program goes on the screen: its position moved to its wrap's computed
/// position. `Continue` when no wrap has the program's name; `Failed` when the wrap's position
/// is not computed or the moved position does not fit a `usize`.
pub open spec fn cursor_step(v: LayoutView, program_id: Seq<char>, pos: Pos, is_visible: bool) -> Step {
    match first_named(v.wraps, program_id) {
        Some(i) => {
            let w = v.wraps[i];
            match (w.computed_x, w.computed_y) {
                (Some(x), Some(y)) => if pos.x + x <= usize::MAX && pos.y + y <= usize::MAX {
                    Step::MoveCursor {
                        pos: Pos { x: (pos.x + x) as usize, y: (pos.y + y) as usize },
                        is_visible: is_visible,
                    }
                } else {
                    Step::Failed
                },
                _ => Step::Failed,
            }
        },
        None => Step::Continue,
    }
}

/// A program's cursor is moved to where it is inside the program's wrap, shifted by the wrap's
/// computed position, and is shown exactly when the program shows it.
pub proof fn lemma_cursor_follows_the_program(v: LayoutView, program_id: Seq<char>, pos: Pos, is_visible: bool)
    ensures
        cursor_step(v, program_id, pos, is_visible) matches Step::MoveCursor { pos: q, is_visible: shown } ==> {
            &&& shown == is_visible
            &&& first_named(v.wraps, program_id) matches Some(i)
            &&& v.wraps[i].computed_x matches Some(x)
            &&& v.wraps[i].computed_y matches Some(y)
            &&& q.x == pos.x + x
            &&& q.y == pos.y + y
        },
        first_named(v.wraps, program_id) matches Some(i) ==> (v.wraps[i].computed_x matches Some(x)
            && v.wraps[i].computed_y matches Some(y) && pos.x + x <= usize::MAX && pos.y + y <= usize::MAX
            ==> cursor_step(v, program_id, pos, is_visible) is MoveCursor),
{
}

impl MainWorker {
    /// Draws the box of every wrap, in node order; `false` when a wrap cannot be drawn on the
    /// screen, after drawing the ones before it.
    pub fn layout_damage(&mut self) -> (ok: bool)
        requires
            old(self).wf(),
        ensures
            final(self).wf(),
            final(self).layout == old(self).layout,
            final(self).servers == old(self).servers,
            final(self).selected_program_id == old(self).selected_program_id,
            final(self).modal_key_handler == old(self).modal_key_handler,
            final(self).outbox@ == old(self).outbox@,
            ok == boxes_drawable(old(self).layout@),
            ok ==> boxes_drawn(old(self).screen.cells(), final(self).screen.cells(), old(self).layout@.wraps, old(self).layout@.size),
            !ok ==> exists|j: int|
                0 <= j < old(self).layout@.wraps.len() && !box_drawable(old(self).layout@.wraps[j], old(self).layout@.size)
                    && #[trigger] boxes_drawn(
                    old(self).screen.cells(),
                    final(self).screen.cells(),
                    old(self).layout@.wraps.take(j),
                    old(self).layout@.size,
                ),
    {
        let size = self.layout.screen_size();
        let n = self.layout.wraps().len();
        let ghost mut screens = seq![self.screen.cells()];
        let mut i: usize = 0;
        while i < n
            invariant
                self.wf(),
                self.layout == old(self).layout,
                self.servers == old(self).servers,
                self.selected_program_id == old(self).selected_program_id,
                self.modal_key_handler == old(self).modal_key_handler,
                self.outbox@ == old(self).outbox@,
                size == self.layout@.size,
                n == self.layout@.wraps.len(),
                i <= n,
                forall|j: int| 0 <= j < i ==> box_drawable(#[trigger] self.layout@.wraps[j], size),
                drawn_through(screens, self.layout@.wraps.take(i as int), size),
                screens[0] == old(self).screen.cells(),
                screens.last() == self.screen.cells(),
            decreases n - i,
        {
            let wraps = self.layout.wraps();
            assert(wraps@[i as int]@ == self.layout@.wraps[i as int]);
            if !node_box_fits(&wraps[i], &size) {
                proof {
                    assert(drawn_through(screens, self.layout@.wraps.take(i as int), size));
                    assert(boxes_drawn(
                        old(self).screen.cells(),
                        self.screen.cells(),
                        old(self).layout@.wraps.take(i as int),
                        old(self).layout@.size,
                    ));
                    assert(!box_drawable(old(self).layout@.wraps[i as int], old(self).layout@.size));
                }
                return false;
            }
            let ghost before = self.screen.cells();
            draw_node_box(&mut self.screen, &wraps[i], &size);
            proof {
                let ws = self.layout@.wraps;
                let next = screens.push(self.screen.cells());
                assert(box_drawn(before, self.screen.cells(), ws[i as int], size));
                assert forall|k: int| 0 <= k < i + 1 implies box_drawn(
                    #[trigger] next[k],
                    next[k + 1],
                    ws.take(i + 1)[k],
                    size,
                ) by {
                    if k < i {
                        assert(next[k] == screens[k]);
                        assert(next[k + 1] == screens[k + 1]);
                        assert(ws.take(i + 1)[k] == ws.take(i as int)[k]);
                    }
                }
                screens = next;
            }
            i = i + 1;
        }
        proof {
            assert(self.layout@.wraps.take(n as int) =~= self.layout@.wraps);
        }
        true
    }

    /// Marks the selected program's wrap with a border, computes the layout again and draws the
    /// boxes; `false` when the layout cannot be computed or drawn.
    fn show_selection(&mut self) -> (ok: bool)
        requires
            old(self).wf(),
        ensures
            final(self).wf(),
            final(self).servers == old(self).servers,
            final(self).selected_program_id == old(self).selected_program_id,
            final(self).modal_key_handler == old(self).modal_key_handler,
            final(self).outbox@ == old(self).outbox@,
            ok ==> boxes_drawn(old(self).screen.cells(), final(self).screen.cells(), final(self).layout@.wraps, final(self).layout@.size),
            match old(self).selected_program_id {
                Some(id) => {
                    &&& ok == (reselected(old(self).layout@, id@) matches Some(ws) && boxes_drawable(
                        LayoutView { wraps: ws, ..old(self).layout@ },
                    ))
                    &&& ok ==> final(self).layout@ == (LayoutView {
                        wraps: reselected(old(self).layout@, id@).unwrap(),
                        ..old(self).layout@
                    })
                },
                None => final(self).layout == old(self).layout && ok == boxes_drawable(old(self).layout@),
            },
    {
        if let Some(id) = &self.selected_program_id {
            mark_selected(&mut self.layout, id);
            if !self.layout.try_flush_changes() {
                return false;
            }
        }
        self.layout_damage()
    }

    /// Selects the program after the selected one (see `next_selection`) and shows it.
    pub fn program_select_next(&mut self) -> (ok: bool)
        requires
            old(self).wf(),
        ensures
            final(self).wf(),
            final(self).modal_key_handler == old(self).modal_key_handler,
            next_done(*old(self), *final(self), ok),
    {
        let names = leaf_names(&self.layout);
        let next = select_next(&names, &self.selected_program_id);
        self.selected_program_id = next;
        self.show_selection()
    }

    /// Selects the program before the selected one (see `prev_selection`) and shows it; `false`,
    /// with nothing changed, when there is no program.
    pub fn program_select_prev(&mut self) -> (ok: bool)
        requires
            old(self).wf(),
        ensures
            final(self).wf(),
            final(self).modal_key_handler == old(self).modal_key_handler,
            prev_done(*old(self), *final(self), ok),
    {
        let names = leaf_names(&self.layout);
        if names.len() == 0 {
            return false;
        }
        let prev = select_prev(&names, &self.selected_program_id);
        self.selected_program_id = Some(prev);
        self.show_selection()
    }

    /// Makes sure a program is selected: a selection that is one of the programs stays; otherwise
    /// the next program is selected, as `program_select_next` does.
    pub fn program_focus_cmd(&mut self) -> (ok: bool)
        requires
            old(self).wf(),
        ensures
            final(self).wf(),
            final(self).modal_key_handler == old(self).modal_key_handler,
            focus_done(*old(self), *final(self), ok),
    {
        let names = leaf_names(&self.layout);
        if let Some(id) = &self.selected_program_id {
            proof {
                lemma_first_with_id(names@, id@);
                super::selection::lemma_first_name_index(names@, id@);
            }
            if position_by_id(&names, id).is_some() {
                return true;
            }
        }
        self.program_select_next()
    }

    /// Adds the program to the first server with the given id, and a wrap for it at the end of
    /// the root's children; computes the layout again and draws the boxes. `false` when the
    /// layout cannot be computed or drawn.
    pub fn add_program(&mut self, server_id: String, program_id: String) -> (ok: bool)
        requires
            old(self).wf(),
            old(self).layout@.wraps.len() < usize::MAX,
        ensures
            final(self).wf(),
            final(self).selected_program_id == old(self).selected_program_id,
            final(self).modal_key_handler == old(self).modal_key_handler,
            final(self).outbox@ == old(self).outbox@,
            program_added(
                old(self).servers@,
                final(self).servers@,
                server_id@,
                Program { id: program_id, is_subscribed: true },
            ),
            ok == (with_root_child(old(self).layout@, program_wrap(program_id@)) matches Some(v) && boxes_drawable(v)),
            ok ==> final(self).layout@ == with_root_child(old(self).layout@, program_wrap(program_id@)).unwrap(),
            ok ==> boxes_drawable(final(self).layout@),
            ok ==> boxes_drawn(old(self).screen.cells(), final(self).screen.cells(), final(self).layout@.wraps, final(self).layout@.size),
    {
        self.servers.add_program(&server_id, Program { id: program_id.clone(), is_subscribed: true });
        let wrap = WrapBuilder::row().name(program_id).height(24).width(80).margin(1).build();
        proof {
            self.layout.lemma_wf();
        }
        self.layout.append(0, wrap);
        if !self.layout.try_flush_changes() {
            return false;
        }
        self.layout_damage()
    }

    /// Blanks every cell of the screen and marks it dirty.
    pub fn clear(&mut self)
        requires
            old(self).wf(),
        ensures
            final(self).wf(),
            final(self).layout == old(self).layout,
            final(self).servers == old(self).servers,
            final(self).selected_program_id == old(self).selected_program_id,
            final(self).modal_key_handler == old(self).modal_key_handler,
            final(self).outbox@ == old(self).outbox@,
            cleared(old(self).screen.cells(), final(self).screen.cells()),
    {
        let size = self.layout.screen_size();
        proof {
            self.screen.lemma_cells();
        }
        let width = size.width;
        let n = size.width * size.height;
        let mut i: usize = 0;
        while i < n
            invariant
                self.wf(),
                self.layout == old(self).layout,
                self.servers == old(self).servers,
                self.selected_program_id == old(self).selected_program_id,
                self.modal_key_handler == old(self).modal_key_handler,
                self.outbox@ == old(self).outbox@,
                size == self.screen.size(),
                width == size.width,
                n == size.width * size.height,
                self.screen.cells().len() == n,
                old(self).screen.cells().len() == n,
                i <= n,
                forall|j: int| 0 <= j < n ==> (#[trigger] self.screen.cells()[j]).pos == old(self).screen.cells()[j].pos,
                forall|j: int|
                    0 <= j < i ==> (#[trigger] self.screen.cells()[j]).is_blank(old(self).screen.cells()[j].pos)
                        && self.screen.cells()[j].dirty,
            decreases n - i,
        {
            assert(width > 0) by (nonlinear_arith)
                requires
                    i < n,
                    n == width * size.height,
            ;
            let pos = Pos::new(i % width, i / width);
            proof {
                assert(i / width < size.height) by (nonlinear_arith)
                    requires
                        i < n,
                        n == width * size.height,
                ;
                lemma_cell_index(pos.x as int, pos.y as int, width as int, size.height as int);
                assert(pos.y * width + pos.x == i) by (nonlinear_arith)
                    requires
                        pos.x == i % width,
                        pos.y == i / width,
                        width > 0,
                ;
                self.screen.lemma_cells();
            }
            let mut cell = Cell::new(pos);
            cell.dirty = true;
            let ghost before = self.screen.cells();
            assert(before[i as int].pos == index_pos(i as int, width as int));
            assert(index_pos(i as int, width as int) == pos);
            assert(old(self).screen.cells()[i as int].pos == pos);
            screen_set(&mut self.screen, pos, cell);
            assert forall|j: int| 0 <= j < n implies (#[trigger] self.screen.cells()[j]).pos == old(self).screen.cells()[j].pos by {
                if j != i {
                    assert(self.screen.cells()[j] == before[j]);
                    assert(before[j].pos == old(self).screen.cells()[j].pos);
                }
            }
            assert forall|j: int| 0 <= j < i + 1 implies (#[trigger] self.screen.cells()[j]).is_blank(old(self).screen.cells()[j].pos)
                && self.screen.cells()[j].dirty by {
                if j != i {
                    assert(self.screen.cells()[j] == before[j]);
                }
            }
            i = i + 1;
        }
    }

    /// Where the cursor of the program goes on the screen: the program's position moved to its
    /// wrap. `Continue` when no wrap has the program's name.
    pub fn move_cursor(&self, program_id: &String, pos: Pos, is_visible: bool) -> (r: Step)
        requires
            self.wf(),
        ensures
            r == cursor_step(self.layout@, program_id@, pos, is_visible),
    {
        proof {
            lemma_first_named(self.layout@.wraps, program_id@);
        }
        match self.find_wrap(program_id) {
            Some(i) => {
                let wrap = &self.layout.wraps()[i];
                assert(wrap@ == self.layout@.wraps[i as int]);
                match (wrap.computed_x(), wrap.computed_y()) {
                    (Some(x), Some(y)) => if pos.x <= usize::MAX - x && pos.y <= usize::MAX - y {
                        Step::MoveCursor { pos: Pos::new(pos.x + x, pos.y + y), is_visible: is_visible }
                    } else {
                        Step::Failed
                    },
                    _ => Step::Failed,
                }
            },
            None => Step::Continue,
        }
    }

    /// The position of the first wrap with the given name.
    fn find_wrap(&self, name: &String) -> (r: Option<usize>)
        requires
            self.layout.wf(),
        ensures
            match r {
                Some(i) => first_named(self.layout@.wraps, name@) == Some(i as int),
                None => first_named(self.layout@.wraps, name@) is None,
            },
    {
        let wraps = self.layout.wraps();
        proof {
            lemma_first_named(self.layout@.wraps, name@);
        }
        let mut i: usize = 0;
        while i < wraps.len()
            invariant
                super::layout::layout::wrap_views(wraps@) == self.layout@.wraps,
                i <= wraps@.len(),
                forall|j: int| 0 <= j < i ==> (#[trigger] self.layout@.wraps[j]).name != name@,
            decreases wraps@.len() - i,
        {
            assert(wraps@[i as int]@ == self.layout@.wraps[i as int]);
            if *wraps[i].name() == *name {
                proof {
                    lemma_first_named(self.layout@.wraps, name@);
                    if let Some(f) = first_named(self.layout@.wraps, name@) {
                        assert(f >= i);
                        assert(f <= i);
                    }
                }
                return Some(i);
            }
            i = i + 1;
        }
        proof {
            lemma_first_named(self.layout@.wraps, name@);
            if let Some(f) = first_named(self.layout@.wraps, name@) {
                assert(self.layout@.wraps[f].name == name@);
            }
        }
        None
    }
}

/// Sets the cell at `pos` of a screen.
fn screen_set(screen: &mut CellBuffer, pos: Pos, cell: Cell)
    requires
        old(screen).wf(),
        pos.x < old(screen).size().width,
        pos.y < old(screen).size().height,
        cell.pos == pos,
    ensures
        final(screen).wf(),
        final(screen).size() == old(screen).size(),
        final(screen).cells() == old(screen).cells().update(pos.y * old(screen).size().width + pos.x, cell),
{
    screen.set_cell(pos, cell);
}

/// The name of the handler's current mode.
pub open spec fn mode_name_of(h: ModalKeyHandler) -> Seq<char> {
    h.graph.nodes@[h.current_node as int].data.name@
}

/// The screen `after` is `before` with the mode name written into the status line (see
/// `status_cell`); `ok` is `false`, with every cell kept, when the status line's area is not
/// computed or not on the screen; with no status line nothing changes.
pub open spec fn status_line_shown(before: Seq<Cell>, after: Seq<Cell>, v: LayoutView, name: Seq<char>, ok: bool) -> bool {
    let width = v.size.width as int;
    match first_named(v.wraps, "status_line"@) {
        Some(s) => match area_on_screen(v.wraps[s], v.size) {
            Some(r) => ok && forall|i: int|
                0 <= i < before.len() ==> status_cell(#[trigger] before[i], after[i], index_pos(i, width), r, name),
            None => !ok && forall|i: int| 0 <= i < before.len() ==> kept_cell(#[trigger] before[i], after[i]),
        },
        None => ok && forall|i: int| 0 <= i < before.len() ==> kept_cell(#[trigger] before[i], after[i]),
    }
}

impl MainWorker {
    /// Writes the name of the current mode into the status line: see `status_line_shown`.
    pub fn damage_status_line(&mut self) -> (ok: bool)
        requires
            old(self).wf(),
        ensures
            final(self).wf(),
            final(self).modal_key_handler == old(self).modal_key_handler,
            status_done(*old(self), *final(self), mode_name_of(old(self).modal_key_handler), ok),
    {
        let status = "status_line".to_string();
        proof {
            lemma_first_named(self.layout@.wraps, status@);
            self.screen.lemma_cells();
        }
        let s = match self.find_wrap(&status) {
            Some(s) => s,
            None => return true,
        };
        let size = self.layout.screen_size();
        let wrap = &self.layout.wraps()[s];
        assert(wrap@ == self.layout@.wraps[s as int]);
        let (x, y, cw, ch) = match (wrap.computed_x(), wrap.computed_y(), wrap.computed_width(), wrap.computed_height()) {
            (Some(x), Some(y), Some(cw), Some(ch)) => (x, y, cw, ch),
            _ => return false,
        };
        if x as u128 + cw as u128 > size.width as u128 || y as u128 + ch as u128 > size.height as u128 {
            return false;
        }
        let r = Rect::new(Pos::new(x, y), Size::new(cw, ch));
        let name = chars_of(self.modal_key_handler.mode_name());
        let width = size.width;
        let n = size.width * size.height;
        let mut i: usize = 0;
        while i < n
            invariant
                self.wf(),
                self.layout == old(self).layout,
                self.servers == old(self).servers,
                self.selected_program_id == old(self).selected_program_id,
                self.modal_key_handler == old(self).modal_key_handler,
                self.outbox@ == old(self).outbox@,
                size == self.screen.size(),
                size == old(self).layout@.size,
                width == size.width,
                n == size.width * size.height,
                self.screen.cells().len() == n,
                old(self).screen.cells().len() == n,
                r.origin.x + r.size.width <= size.width,
                r.origin.y + r.size.height <= size.height,
                name@ == mode_name_of(old(self).modal_key_handler),
                i <= n,
                forall|j: int| 0 <= j < n ==> (#[trigger] old(self).screen.cells()[j]).pos == index_pos(j, width as int),
                forall|j: int|
                    0 <= j < i ==> status_cell(
                        #[trigger] old(self).screen.cells()[j],
                        self.screen.cells()[j],
                        index_pos(j, width as int),
                        r,
                        name@,
                    ),
                forall|j: int| i <= j < n ==> #[trigger] self.screen.cells()[j] == old(self).screen.cells()[j],
            decreases n - i,
        {
            assert(width > 0) by (nonlinear_arith)
                requires
                    i < n,
                    n == width * size.height,
            ;
            let pos = Pos::new(i % width, i / width);
            proof {
                assert(i / width < size.height) by (nonlinear_arith)
                    requires
                        i < n,
                        n == width * size.height,
                ;
                lemma_cell_index(pos.x as int, pos.y as int, width as int, size.height as int);
                assert(pos.y * width + pos.x == i) by (nonlinear_arith)
                    requires
                        pos.x == i % width,
                        pos.y == i / width,
                        width > 0,
                ;
            }
            let old_cell = self.screen.index(pos);
            let chars: Vec<u8> = if r.contains(&pos) {
                proof {
                    lemma_wide_index(pos.y - r.origin.y, r.size.width as int, pos.x - r.origin.x);
                }
                let k: u128 = (pos.y - r.origin.y) as u128 * r.size.width as u128 + (pos.x - r.origin.x) as u128;
                if k < name.len() as u128 {
                    utf8_bytes(name[k as usize])
                } else {
                    Vec::new()
                }
            } else {
                old_cell.chars.clone()
            };
            let new_cell = Cell {
                bg_palette: old_cell.bg_palette,
                bg_rgb: old_cell.bg_rgb,
                blink: old_cell.blink,
                bold: old_cell.bold,
                chars: chars,
                dhl: old_cell.dhl,
                dirty: if r.contains(&pos) {
                    true
                } else {
                    old_cell.dirty
                },
                dwl: old_cell.dwl,
                fg_palette: old_cell.fg_palette,
                fg_rgb: old_cell.fg_rgb,
                font: old_cell.font,
                italic: old_cell.italic,
                pos: old_cell.pos,
                reverse: old_cell.reverse,
                strike: old_cell.strike,
                underline: old_cell.underline,
                width: old_cell.width,
            };
            let ghost before = self.screen.cells();
            screen_set(&mut self.screen, pos, new_cell);
            assert forall|j: int| 0 <= j < i + 1 implies status_cell(
                #[trigger] old(self).screen.cells()[j],
                self.screen.cells()[j],
                index_pos(j, width as int),
                r,
                name@,
            ) by {
                if j != i {
                    assert(self.screen.cells()[j] == before[j]);
                }
            }
            assert forall|j: int| i + 1 <= j < n implies #[trigger] self.screen.cells()[j] == old(self).screen.cells()[j] by {
                assert(self.screen.cells()[j] == before[j]);
            }
            i = i + 1;
        }
        true
    }
}

proof fn lemma_wide_index(a: int, b: int, c: int)
    requires
        0 <= a <= 0xffff_ffff_ffff_ffff,
        0 <= b <= 0xffff_ffff_ffff_ffff,
        0 <= c <= 0xffff_ffff_ffff_ffff,
    ensures
        a * b + c <= 0xffff_ffff_ffff_ffff_ffff_ffff_ffff_ffff,
        a * b + c >= 0,
{
    assert(a * b <= 0xffff_ffff_ffff_ffff * 0xffff_ffff_ffff_ffff) by (nonlinear_arith)
        requires
            0 <= a <= 0xffff_ffff_ffff_ffff,
            0 <= b <= 0xffff_ffff_ffff_ffff,
    ;
    assert(a * b >= 0) by (nonlinear_arith)
        requires
            0 <= a,
            0 <= b,
    ;
}

/// The smaller of two integers.
pub open spec fn min_of(a: int, b: int) -> int {
    if a < b { a } else { b }
}

/// The screen `after` is `before` with a program's damaged cells copied into its wrap's area,
/// as `damaged_cell` says, with the wrap's computed position and the first `m` cells of `rect`,
/// `m` being the fewer of the damaged cells and the cells of `rect`. Nothing changes when no wrap
/// has the program's name; `ok` is `false`, with every cell kept, when the wrap's position is not
/// computed, `rect` does not fit a `usize`, or a copied cell would fall off the screen.
pub open spec fn program_damaged(
    before: Seq<Cell>,
    after: Seq<Cell>,
    v: LayoutView,
    program_id: Seq<char>,
    cells: Seq<ScreenCell>,
    rect: Rect,
    ok: bool,
) -> bool {
    let width = v.size.width as int;
    let m = min_of(cells.len() as int, rect.size.width * rect.size.height);
    let kept = forall|i: int| 0 <= i < before.len() ==> kept_cell(#[trigger] before[i], after[i]);
    match first_named(v.wraps, program_id) {
        Some(s) => match (v.wraps[s].computed_x, v.wraps[s].computed_y) {
            (Some(x), Some(y)) => if rect.fits() && damage_on_screen(rect, x as int, y as int, m, v.size) {
                ok && forall|i: int|
                    0 <= i < before.len() ==> damaged_cell(
                        #[trigger] before[i],
                        after[i],
                        index_pos(i, width),
                        rect,
                        x as int,
                        y as int,
                        m,
                        cells,
                    )
            } else {
                !ok && kept
            },
            _ => !ok && kept,
        },
        None => ok && kept,
    }
}

impl MainWorker {
    /// Copies a program's damaged cells into its wrap's area: see `program_damaged`.
    pub fn program_damage(&mut self, program_id: &String, cells: &Vec<ScreenCell>, rect: Rect) -> (ok: bool)
        requires
            old(self).wf(),
        ensures
            final(self).wf(),
            final(self).layout == old(self).layout,
            final(self).servers == old(self).servers,
            final(self).selected_program_id == old(self).selected_program_id,
            final(self).modal_key_handler == old(self).modal_key_handler,
            final(self).outbox@ == old(self).outbox@,
            final(self).screen.cells().len() == old(self).screen.cells().len(),
            program_damaged(
                old(self).screen.cells(),
                final(self).screen.cells(),
                old(self).layout@,
                program_id@,
                cells@,
                rect,
                ok,
            ),
    {
        proof {
            lemma_first_named(self.layout@.wraps, program_id@);
            self.screen.lemma_cells();
        }
        let s = match self.find_wrap(program_id) {
            Some(s) => s,
            None => return true,
        };
        let size = self.layout.screen_size();
        let wrap = &self.layout.wraps()[s];
        assert(wrap@ == self.layout@.wraps[s as int]);
        let (x, y) = match (wrap.computed_x(), wrap.computed_y()) {
            (Some(x), Some(y)) => (x, y),
            _ => return false,
        };
        if rect.origin.x as u128 + rect.size.width as u128 > usize::MAX as u128 || rect.origin.y as u128
            + rect.size.height as u128 > usize::MAX as u128 {
            return false;
        }
        proof {
            lemma_wide_index(rect.size.width as int, rect.size.height as int, 0);
        }
        let area: u128 = rect.size.width as u128 * rect.size.height as u128;
        let m: u128 = if (cells.len() as u128) < area {
            cells.len() as u128
        } else {
            area
        };
        let ghost spec_m = min_of(cells@.len() as int, rect.size.width * rect.size.height);
        assert(m == spec_m);
        // every copied cell must land on the screen
        let mut k: u128 = 0;
        while k < m
            invariant
                self.wf(),
                self.layout == old(self).layout,
                self.servers == old(self).servers,
                self.selected_program_id == old(self).selected_program_id,
                self.modal_key_handler == old(self).modal_key_handler,
                self.outbox@ == old(self).outbox@,
                self.screen == old(self).screen,
                size == old(self).layout@.size,
                first_named(old(self).layout@.wraps, program_id@) == Some(s as int),
                s < old(self).layout@.wraps.len(),
                old(self).layout@.wraps[s as int].computed_x == Some(x),
                old(self).layout@.wraps[s as int].computed_y == Some(y),
                m == spec_m,
                spec_m == min_of(cells@.len() as int, rect.size.width * rect.size.height),
                m <= area,
                area == rect.size.width * rect.size.height,
                rect.fits(),
                k <= m,
                forall|j: int|
                    0 <= j < k ==> {
                        let p = #[trigger] rect_pos(rect, j);
                        p.x + x < size.width && p.y + y < size.height
                    },
            decreases m - k,
        {
            assert(rect.size.width > 0) by (nonlinear_arith)
                requires
                    k < m,
                    m <= area,
                    area == rect.size.width * rect.size.height,
            ;
            let w = rect.size.width as u128;
            proof {
                assert(k / w < rect.size.height) by (nonlinear_arith)
                    requires
                        k < area,
                        area == w * rect.size.height,
                        w > 0,
                ;
            }
            let px: u128 = rect.origin.x as u128 + k % w;
            let py: u128 = rect.origin.y as u128 + k / w;
            assert(px == rect_pos(rect, k as int).x && py == rect_pos(rect, k as int).y);
            if px + x as u128 >= size.width as u128 || py + y as u128 >= size.height as u128 {
                assert(!damage_on_screen(rect, x as int, y as int, spec_m, size));
                return false;
            }
            k = k + 1;
        }
        let width = size.width;
        let n = size.width * size.height;
        let mut i: usize = 0;
        while i < n
            invariant
                self.wf(),
                self.layout == old(self).layout,
                self.servers == old(self).servers,
                self.selected_program_id == old(self).selected_program_id,
                self.modal_key_handler == old(self).modal_key_handler,
                self.outbox@ == old(self).outbox@,
                size == self.screen.size(),
                size == old(self).layout@.size,
                width == size.width,
                n == size.width * size.height,
                self.screen.cells().len() == n,
                old(self).screen.cells().len() == n,
                m == spec_m,
                m <= cells@.len(),
                m <= usize::MAX,
                rect.fits(),
                i <= n,
                forall|j: int|
                    0 <= j < i ==> damaged_cell(
                        #[trigger] old(self).screen.cells()[j],
                        self.screen.cells()[j],
                        index_pos(j, width as int),
                        rect,
                        x as int,
                        y as int,
                        spec_m,
                        cells@,
                    ),
                forall|j: int| i <= j < n ==> #[trigger] self.screen.cells()[j] == old(self).screen.cells()[j],
            decreases n - i,
        {
            assert(width > 0) by (nonlinear_arith)
                requires
                    i < n,
                    n == width * size.height,
            ;
            let pos = Pos::new(i % width, i / width);
            proof {
                assert(i / width < size.height) by (nonlinear_arith)
                    requires
                        i < n,
                        n == width * size.height,
                ;
                lemma_cell_index(pos.x as int, pos.y as int, width as int, size.height as int);
                assert(pos.y * width + pos.x == i) by (nonlinear_arith)
                    requires
                        pos.x == i % width,
                        pos.y == i / width,
                        width > 0,
                ;
            }
            let old_cell = self.screen.index(pos);
            let ghost q_at = Pos { x: (pos.x - x) as usize, y: (pos.y - y) as usize };
            let ghost k_at = (q_at.y - rect.origin.y) * rect.size.width + (q_at.x - rect.origin.x);
            let mut source: Option<usize> = None;
            if pos.x >= x && pos.y >= y {
                let q = Pos::new(pos.x - x, pos.y - y);
                assert(q == q_at);
                if rect.contains(&q) {
                    proof {
                        lemma_wide_index(q.y - rect.origin.y, rect.size.width as int, q.x - rect.origin.x);
                    }
                    let k: u128 = (q.y - rect.origin.y) as u128 * rect.size.width as u128 + (q.x
                        - rect.origin.x) as u128;
                    assert(k == k_at);
                    if k < m {
                        let kk = k as usize;
                        assert(kk == k_at);
                        source = Some(kk);
                    }
                }
            }
            assert(source is Some <==> (pos.x >= x && pos.y >= y && rect.holds(q_at) && k_at < spec_m));
            assert(source matches Some(k) ==> k == k_at);
            let new_cell = match source {
                Some(k) => {
                    let c = &cells[k];
                    Cell {
                        bg_palette: c.bg_palette,
                        bg_rgb: c.bg_rgb,
                        blink: c.attrs.blink,
                        bold: c.attrs.bold,
                        chars: c.chars.clone(),
                        dhl: c.attrs.dhl,
                        dirty: true,
                        dwl: c.attrs.dwl,
                        fg_palette: c.fg_palette,
                        fg_rgb: c.fg_rgb,
                        font: c.attrs.font,
                        italic: c.attrs.italic,
                        pos: old_cell.pos,
                        reverse: c.attrs.reverse,
                        strike: c.attrs.strike,
                        underline: c.attrs.underline,
                        width: c.width,
                    }
                },
                None => Cell {
                    bg_palette: old_cell.bg_palette,
                    bg_rgb: old_cell.bg_rgb,
                    blink: old_cell.blink,
                    bold: old_cell.bold,
                    chars: old_cell.chars.clone(),
                    dhl: old_cell.dhl,
                    dirty: old_cell.dirty,
                    dwl: old_cell.dwl,
                    fg_palette: old_cell.fg_palette,
                    fg_rgb: old_cell.fg_rgb,
                    font: old_cell.font,
                    italic: old_cell.italic,
                    pos: old_cell.pos,
                    reverse: old_cell.reverse,
                    strike: old_cell.strike,
                    underline: old_cell.underline,
                    width: old_cell.width,
                },
            };
            assert(index_pos(i as int, width as int) == pos);
            assert(damaged_cell(old(self).screen.cells()[i as int], new_cell, pos, rect, x as int, y as int, spec_m, cells@));
            let ghost before = self.screen.cells();
            screen_set(&mut self.screen, pos, new_cell);
            assert forall|j: int| 0 <= j < i + 1 implies damaged_cell(
                #[trigger] old(self).screen.cells()[j],
                self.screen.cells()[j],
                index_pos(j, width as int),
                rect,
                x as int,
                y as int,
                spec_m,
                cells@,
            ) by {
                if j != i {
                    assert(self.screen.cells()[j] == before[j]);
                }
            }
            assert forall|j: int| i + 1 <= j < n implies #[trigger] self.screen.cells()[j] == old(self).screen.cells()[j] by {
                assert(self.screen.cells()[j] == before[j]);
            }
            i = i + 1;
        }
        true
    }
}

/// No action of `q` from position `j` on is `Quit`.
pub open spec fn no_quit_from(q: Seq<UserActionView>, j: int) -> bool {
    forall|t: int| j <= t < q.len() ==> #[trigger] q[t] != UserActionView::Quit
}

/// `a` is how `b` starts.
pub open spec fn starts(a: Seq<(int, ServerMsgView)>, b: Seq<(int, ServerMsgView)>) -> bool {
    a.len() <= b.len() && b.subrange(0, a.len() as int) == a
}

proof fn lemma_starts_refl(a: Seq<(int, ServerMsgView)>)
    ensures
        starts(a, a),
{
    assert(a.subrange(0, a.len() as int) =~= a);
}

proof fn lemma_starts_trans(a: Seq<(int, ServerMsgView)>, b: Seq<(int, ServerMsgView)>, c: Seq<(int, ServerMsgView)>)
    requires
        starts(a, b),
        starts(b, c),
    ensures
        starts(a, c),
{
    assert(c.subrange(0, a.len() as int) =~= b.subrange(0, a.len() as int));
}

/// Handling an action only adds messages to the end of the outbox.
proof fn lemma_action_keeps_outbox(b: MainWorker, a: MainWorker, action: UserActionView, name: Seq<char>, ok: bool)
    requires
        action_done(b, a, action, name, ok),
    ensures
        starts(outbox_of(b), outbox_of(a)),
{
    let n = outbox_of(b).len() as int;
    if outbox_of(a) == outbox_of(b) {
        lemma_starts_refl(outbox_of(b));
    } else {
        assert(outbox_of(a).subrange(0, n) =~= outbox_of(b));
    }
}

/// The key handler `after` is `before` fed the bytes, with the queued actions handled the last
/// first: `Paint` once the queue is empty, with no `Quit` in it; `Quit` at the last `Quit`
/// queued; `Failed` when the handling of an action failed. The actions left queued are the ones
/// queued before the one handled last.
pub open spec fn input_handled(before: ModalKeyHandler, after: ModalKeyHandler, bytes: Seq<u8>, r: Step) -> bool {
    let s = key_run(before.graph, before.key_state(), bytes);
    let left = after.key_state().queue;
    &&& after.graph == before.graph
    &&& after.current_node == s.current_node
    &&& after.match_buf@ == s.match_buf
    &&& left.len() <= s.queue.len()
    &&& left == s.queue.take(left.len() as int)
    &&& match r {
        Step::Paint => left.len() == 0 && no_quit_from(s.queue, 0),
        Step::Quit => {
            &&& left.len() < s.queue.len()
            &&& s.queue[left.len() as int] == UserActionView::Quit
            &&& no_quit_from(s.queue, left.len() as int + 1)
        },
        Step::Failed => left.len() < s.queue.len() && no_quit_from(s.queue, left.len() as int + 1),
        _ => false,
    }
}

impl MainWorker {
    /// Feeds the user's bytes to the key handler, then handles the actions it queued, the last
    /// queued first: a mode change redraws the status line, the program commands run, unknown
    /// input is dropped, and `Quit` queues a `Quit` for each server and stops. `Paint` once the queue
    /// is empty; `Quit` at a `Quit`; `Failed` when a command fails, with the actions queued
    /// before it left in the queue.
    pub fn user_input(&mut self, bytes: &[u8]) -> (r: Step)
        requires
            old(self).wf(),
        ensures
            final(self).wf(),
            final(self).servers == old(self).servers,
            starts(outbox_of(*old(self)), outbox_of(*final(self))),
            input_handled(old(self).modal_key_handler, final(self).modal_key_handler, bytes@, r),
            exists|states: Seq<MainWorker>| #[trigger] input_states(states, *old(self), *final(self), bytes@, r),
    {
        let _ = self.modal_key_handler.write(bytes);
        let ghost s = self.modal_key_handler.key_state();
        let ghost q = s.queue;
        let ghost name = mode_name_of(self.modal_key_handler);
        let ghost mut states: Seq<MainWorker> = seq![*self];
        proof {
            assert(outbox_of(*self).subrange(0, outbox_of(*self).len() as int) =~= outbox_of(*self));
            assert(q.take(q.len() as int) =~= q);
        }
        while self.modal_key_handler.actions_queue.len() > 0
            invariant
                self.wf(),
                self.servers == old(self).servers,
                starts(outbox_of(*old(self)), outbox_of(*self)),
                self.modal_key_handler.graph == old(self).modal_key_handler.graph,
                s == key_run(old(self).modal_key_handler.graph, old(self).modal_key_handler.key_state(), bytes@),
                q == s.queue,
                self.modal_key_handler.current_node == s.current_node,
                self.modal_key_handler.match_buf@ == s.match_buf,
                self.modal_key_handler.key_state().queue.len() <= q.len(),
                self.modal_key_handler.key_state().queue == q.take(self.modal_key_handler.key_state().queue.len() as int),
                no_quit_from(q, self.modal_key_handler.key_state().queue.len() as int),
                name == mode_name_of(self.modal_key_handler),
                actions_run(states, q, self.modal_key_handler.key_state().queue.len() as int, name, true),
                same_but_keys(states[0], *old(self)),
                states.last() == *self,
            decreases self.modal_key_handler.actions_queue@.len(),
        {
            let ghost n = self.modal_key_handler.actions_queue@.len();
            let ghost queued = self.modal_key_handler.actions_queue@;
            let action = match self.modal_key_handler.actions_queue.pop() {
                Some(a) => a,
                None => return Step::Paint,
            };
            proof {
                assert(q.take(n as int)[n - 1] == q[n - 1]);
                assert(queued.map_values(|a: UserAction| a@)[n - 1] == queued[n - 1]@);
                assert(q[n - 1] == queued[n - 1]@);
                assert(action@ == q[n - 1]);
                assert(self.modal_key_handler.key_state().queue =~= q.take(n - 1));
            }
            let ghost sent_before = outbox_of(*self);
            let ghost pre = *self;
            let ghost av = action@;
            let is_quit = matches!(action, UserAction::Quit);
            let ok = match action {
                UserAction::ModeChange { .. } => {
                    let ok = self.damage_status_line();
                    assert(action_done(pre, *self, av, name, ok));
                    ok
                },
                UserAction::ProgramFocus => {
                    let ok = self.program_focus_cmd();
                    assert(action_done(pre, *self, av, name, ok));
                    ok
                },
                UserAction::ProgramInput { bytes } => {
                    self.program_input_cmd(bytes);
                    assert(action_done(pre, *self, av, name, true));
                    true
                },
                UserAction::ProgramStart => {
                    self.program_start_cmd();
                    assert(action_done(pre, *self, av, name, true));
                    true
                },
                UserAction::ProgramSelectPrev => {
                    let ok = self.program_select_prev();
                    assert(action_done(pre, *self, av, name, ok));
                    ok
                },
                UserAction::ProgramSelectNext => {
                    let ok = self.program_select_next();
                    assert(action_done(pre, *self, av, name, ok));
                    ok
                },
                UserAction::Quit => {
                    self.quit();
                    assert(action_done(pre, *self, av, name, true));
                    true
                },
                UserAction::UnknownInput { .. } => {
                    assert(action_done(pre, *self, av, name, true));
                    true
                },
            };
            proof {
                lemma_action_keeps_outbox(pre, *self, av, name, ok);
                lemma_starts_trans(outbox_of(*old(self)), sent_before, outbox_of(*self));
                lemma_action_done_same(states.last(), pre, *self, av, name, ok);
                lemma_run_step(states, q, n as int, name, *self, ok);
                states = states.push(*self);
                assert(self.modal_key_handler.key_state().queue.len() == n - 1);
                if !ok {
                    assert(input_states(states, *old(self), *self, bytes@, Step::Failed));
                } else if is_quit {
                    assert(input_states(states, *old(self), *self, bytes@, Step::Quit));
                }
            }
            if !ok {
                return Step::Failed;
            }
            if is_quit {
                return Step::Quit;
            }
        }
        proof {
            assert(input_states(states, *old(self), *self, bytes@, Step::Paint));
        }
        Step::Paint
    }
}

impl MainWorker {
    /// Adds the status line as the last child of the root and computes the layout, then clears
    /// the screen, draws the boxes and writes the mode name into the status line. `Failed` when
    /// the layout cannot be computed or drawn.
    pub fn init(&mut self) -> (r: Step)
        requires
            old(self).wf(),
            old(self).layout@.wraps.len() < usize::MAX,
        ensures
            final(self).wf(),
            final(self).servers == old(self).servers,
            final(self).selected_program_id == old(self).selected_program_id,
            final(self).modal_key_handler == old(self).modal_key_handler,
            final(self).outbox@ == old(self).outbox@,
            r == Step::Paint || r == Step::Failed,
            r == Step::Paint <==> (with_root_child(old(self).layout@, status_line_wrap()) matches Some(v) && boxes_drawable(v)
                && (first_named(v.wraps, "status_line"@) matches Some(s) ==> area_on_screen(v.wraps[s], v.size) is Some)),
            r == Step::Paint ==> final(self).layout@ == with_root_child(old(self).layout@, status_line_wrap()).unwrap(),
            r == Step::Paint ==> boxes_drawable(final(self).layout@),
            r == Step::Paint ==> init_drawn(
                old(self).screen.cells(),
                final(self).screen.cells(),
                final(self).layout@,
                mode_name_of(old(self).modal_key_handler),
            ),
    {
        let wrap = WrapBuilder::row().name("status_line".to_string()).height(1).build();
        proof {
            self.layout.lemma_wf();
        }
        self.layout.append(0, wrap);
        if !self.layout.try_flush_changes() {
            return Step::Failed;
        }
        let ghost before = self.screen.cells();
        self.clear();
        let ghost blank = self.screen.cells();
        if !self.layout_damage() {
            return Step::Failed;
        }
        let ghost boxed = self.screen.cells();
        if !self.damage_status_line() {
            return Step::Failed;
        }
        assert(cleared(before, blank) && boxes_drawn(blank, boxed, self.layout@.wraps, self.layout@.size));
        Step::Paint
    }

    /// Handles one message: the decisions of the worker's listening loop, whose surroundings
    /// perform the returned step; the messages it queues for servers are in the outbox. Messages
    /// about updated or removed servers and programs are not handled and change nothing. A
    /// layout swapped in must have the size of the screen, whose cells the worker draws on; one
    /// of another size is refused (`Failed`) and nothing changes.
    pub fn handle(&mut self, msg: ClientMsg) -> (r: Step)
        requires
            old(self).wf(),
            msg matches ClientMsg::LayoutSwap { layout } ==> layout.wf(),
        ensures
            final(self).wf(),
            starts(outbox_of(*old(self)), outbox_of(*final(self))),
            match msg {
                ClientMsg::Quit => {
                    &&& r == Step::Quit
                    &&& quit_done(*old(self), *final(self))
                },
                ClientMsg::ServerAdd { server } => {
                    &&& r == Step::Continue
                    &&& !has_id(old(self).servers@, server.id@) ==> final(self).servers@ == old(self).servers@.push(server)
                    &&& has_id(old(self).servers@, server.id@) ==> final(self).servers@ == old(self).servers@
                    &&& final(self).layout == old(self).layout
                    &&& final(self).screen == old(self).screen
                    &&& final(self).outbox@ == old(self).outbox@
                },
                ClientMsg::ProgramAdd { server_id, program_id } => {
                    let grown = with_root_child(old(self).layout@, program_wrap(program_id@));
                    &&& r == Step::Paint || r == Step::Failed
                    &&& old(self).layout@.wraps.len() < usize::MAX ==> program_added(
                        old(self).servers@,
                        final(self).servers@,
                        server_id@,
                        Program { id: program_id, is_subscribed: true },
                    )
                    &&& old(self).layout@.wraps.len() == usize::MAX ==> r == Step::Failed
                    &&& old(self).layout@.wraps.len() < usize::MAX ==> (r == Step::Paint <==> (grown matches Some(v)
                        && boxes_drawable(v)))
                    &&& r == Step::Paint ==> final(self).layout@ == grown.unwrap() && boxes_drawable(final(self).layout@)
                    &&& r == Step::Paint ==> boxes_drawn(
                        old(self).screen.cells(),
                        final(self).screen.cells(),
                        final(self).layout@.wraps,
                        final(self).layout@.size,
                    )
                },
                ClientMsg::ProgramDamage { program_id, cells, rect } => {
                    &&& r == Step::Paint || r == Step::Failed
                    &&& final(self).layout == old(self).layout
                    &&& final(self).servers == old(self).servers
                    &&& final(self).outbox@ == old(self).outbox@
                    &&& final(self).screen.cells().len() == old(self).screen.cells().len()
                    &&& program_damaged(
                        old(self).screen.cells(),
                        final(self).screen.cells(),
                        old(self).layout@,
                        program_id@,
                        cells@,
                        rect,
                        r == Step::Paint,
                    )
                },
                ClientMsg::Clear => {
                    &&& r == Step::Paint
                    &&& final(self).layout == old(self).layout
                    &&& final(self).servers == old(self).servers
                    &&& cleared(old(self).screen.cells(), final(self).screen.cells())
                },
                ClientMsg::LayoutDamage => {
                    &&& r == if boxes_drawable(old(self).layout@) { Step::Paint } else { Step::Failed }
                    &&& r == Step::Paint ==> boxes_drawn(
                        old(self).screen.cells(),
                        final(self).screen.cells(),
                        old(self).layout@.wraps,
                        old(self).layout@.size,
                    )
                    &&& final(self).layout == old(self).layout
                    &&& final(self).servers == old(self).servers
                },
                ClientMsg::ProgramMoveCursor { program_id, new, is_visible, .. } => {
                    &&& r == cursor_step(old(self).layout@, program_id@, new, is_visible)
                    &&& *final(self) == *old(self)
                },
                ClientMsg::LayoutSwap { layout } => if layout@.size == old(self).layout@.size {
                    &&& r == Step::Continue
                    &&& final(self).layout == layout
                    &&& final(self).screen == old(self).screen
                    &&& final(self).servers == old(self).servers
                } else {
                    &&& r == Step::Failed
                    &&& *final(self) == *old(self)
                },
                ClientMsg::StatusLineDamage => {
                    &&& r == Step::Paint || r == Step::Failed
                    &&& final(self).layout == old(self).layout
                    &&& final(self).servers == old(self).servers
                    &&& final(self).screen.cells().len() == old(self).screen.cells().len()
                    &&& status_line_shown(
                        old(self).screen.cells(),
                        final(self).screen.cells(),
                        old(self).layout@,
                        mode_name_of(old(self).modal_key_handler),
                        r == Step::Paint,
                    )
                },
                ClientMsg::UserInput { bytes } => {
                    &&& final(self).servers == old(self).servers
                    &&& input_handled(old(self).modal_key_handler, final(self).modal_key_handler, bytes@, r)
                    &&& exists|states: Seq<MainWorker>| #[trigger] input_states(states, *old(self), *final(self), bytes@, r)
                },
                _ => r == Step::Continue && *final(self) == *old(self),
            },
    {
        proof {
            lemma_starts_refl(outbox_of(*self));
        }
        match msg {
            ClientMsg::Quit => {
                self.quit();
                proof {
                    assert(outbox_of(*self).subrange(0, outbox_of(*old(self)).len() as int) =~= outbox_of(*old(self)));
                }
                Step::Quit
            },
            ClientMsg::ServerAdd { server } => {
                self.servers.add_server(server);
                Step::Continue
            },
            ClientMsg::ProgramAdd { server_id, program_id } => {
                if self.layout.wraps().len() == usize::MAX {
                    return Step::Failed;
                }
                if self.add_program(server_id, program_id) {
                    Step::Paint
                } else {
                    Step::Failed
                }
            },
            ClientMsg::ProgramDamage { program_id, cells, rect } => if self.program_damage(&program_id, &cells, rect) {
                Step::Paint
            } else {
                Step::Failed
            },
            ClientMsg::Clear => {
                self.clear();
                Step::Paint
            },
            ClientMsg::LayoutDamage => if self.layout_damage() {
                Step::Paint
            } else {
                Step::Failed
            },
            ClientMsg::ProgramMoveCursor { program_id, new, is_visible, .. } => self.move_cursor(
                &program_id,
                new,
                is_visible,
            ),
            ClientMsg::LayoutSwap { layout } => {
                let size = layout.screen_size();
                let current = self.layout.screen_size();
                if size.width == current.width && size.height == current.height {
                    self.layout = layout;
                    Step::Continue
                } else {
                    Step::Failed
                }
            },
            ClientMsg::StatusLineDamage => if self.damage_status_line() {
                Step::Paint
            } else {
                Step::Failed
            },
            ClientMsg::UserInput { bytes } => self.user_input(&bytes),
            _ => Step::Continue,
        }
    }
}

/// The characters of a string.
fn chars_of(s: &String) -> (r: Vec<char>)
    ensures
        r@ == s@,
{
    let mut v: Vec<char> = Vec::new();
    for c in it: s.chars()
        invariant
            v@ == it.seq().take(it.index() as int),
    {
        v.push(c);
    }
    v
}

} // verus!
