use vstd::prelude::*;

use crate::cell_buffer::cell::ScreenCell;
use crate::geom::{Pos, Rect};
use self::layout::layout::Layout;
use self::servers::Server;

pub mod draw_worker;
pub mod layout;
pub mod layout2;
pub mod main_worker;
pub mod ids;
pub mod modal;
pub mod node_box;
pub mod paint;
pub mod selection;
pub mod servers;
pub mod state;

verus! {

/// The messages the client's main worker handles.
pub enum ClientMsg {
    Quit,
    ServerAdd { server: Server },
    ServerUpdate { server: Server },
    ServerRemove { server_id: String },
    ProgramAdd { server_id: String, program_id: String },
    ProgramUpdate { server_id: String, program_id: String },
    ProgramRemove { server_id: String, program_id: String },
    ProgramDamage { program_id: String, cells: Vec<ScreenCell>, rect: Rect },
    ProgramMoveCursor { program_id: String, new: Pos, old: Pos, is_visible: bool },
    UserInput { bytes: Vec<u8> },
    Clear,
    LayoutDamage,
    LayoutSwap { layout: Layout },
    StatusLineDamage,
}

/// The size of the tty the client draws on, in rows and columns.
#[derive(Debug, Clone, Copy, PartialEq, Eq, Structural)]
pub struct TtyIoCtlConfig {
    pub rows: usize,
    pub cols: usize,
}

impl Default for TtyIoCtlConfig {
    fn default() -> (r: TtyIoCtlConfig)
        ensures
            r == (TtyIoCtlConfig { rows: 24, cols: 80 }),
    {
        TtyIoCtlConfig { rows: 24, cols: 80 }
    }
}

} // verus!
