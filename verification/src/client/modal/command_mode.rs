use vstd::prelude::*;

use super::{Mode, UserCmd};

verus! {

broadcast use vstd::string::group_string_axioms;

/// The mode in which typed keys are commands.
#[derive(Debug)]
pub struct CommandMode {
    pub accumulator: Vec<u8>,
}

impl CommandMode {
    pub fn new() -> (r: CommandMode)
        ensures
            r.accumulator@.len() == 0,
    {
        CommandMode { accumulator: Vec::new() }
    }
}

impl Default for CommandMode {
    fn default() -> (r: CommandMode)
        ensures
            r.accumulator@.len() == 0,
    {
        CommandMode::new()
    }
}

impl Mode for CommandMode {
    /// `s` starts a program; any other input is no command.
    fn input(&mut self, bytes: Vec<u8>) -> (r: Option<UserCmd>)
        ensures
            bytes@ == seq![115u8] ==> r matches Some(UserCmd::ProgramStart),
            bytes@ != seq![115u8] ==> r is None,
            final(self).accumulator@ == old(self).accumulator@,
    {
        if bytes.len() == 1 && bytes[0] == 115u8 {
            assert(bytes@ =~= seq![115u8]);
            Some(UserCmd::ProgramStart)
        } else {
            None
        }
    }

    fn display(&self) -> (r: String)
        ensures
            r@ == "command-mode"@,
    {
        "command-mode".to_string()
    }
}

} // verus!
