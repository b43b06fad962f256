use vstd::prelude::*;

verus! {

/// The messages that a client sends to an intermix server.
#[derive(Debug, Clone)]
pub enum ServerMsg {
    Quit,
    ProgramInput { program_id: String, bytes: Vec<u8> },
    ProgramStart { command_and_args: Vec<String>, program_id: String },
}

/// The mathematical value of a `ServerMsg`.
pub enum ServerMsgView {
    Quit,
    ProgramInput { program_id: Seq<char>, bytes: Seq<u8> },
    ProgramStart { command_and_args: Seq<Seq<char>>, program_id: Seq<char> },
}

impl View for ServerMsg {
    type V = ServerMsgView;

    open spec fn view(&self) -> ServerMsgView {
        match self {
            ServerMsg::Quit => ServerMsgView::Quit,
            ServerMsg::ProgramInput { program_id, bytes } => ServerMsgView::ProgramInput {
                program_id: program_id@,
                bytes: bytes@,
            },
            ServerMsg::ProgramStart { command_and_args, program_id } => ServerMsgView::ProgramStart {
                command_and_args: command_and_args@.map_values(|s: String| s@),
                program_id: program_id@,
            },
        }
    }
}

} // verus!
