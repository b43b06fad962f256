use vstd::prelude::*;

use super::{Mode, UserCmd};
use super::inband_key_detector::{InbandKeyDetector, InbandKeyDetectorView};

verus! {

broadcast use vstd::string::group_string_axioms;

/// The mode in which typed keys go to a program, until the mode key is pressed.
#[derive(Debug)]
pub struct ProgramMode {
    pub program_id: String,
    pub detector: InbandKeyDetector,
}

impl ProgramMode {
    pub fn new(program_id: String) -> (r: ProgramMode)
        ensures
            r.program_id@ == program_id@,
            r.detector@.key == 'b',
            r.detector@.bytes.len() == 0,
            !r.detector@.key_found,
            !r.detector@.is_possible,
    {
        let key = 'b';
        ProgramMode { program_id: program_id, detector: InbandKeyDetector::new(key) }
    }
}

impl Mode for ProgramMode {
    /// Watches the input for the mode key: once it is pressed the mode changes to `command`;
    /// until then all buffered input goes to the program.
    fn input(&mut self, bytes: Vec<u8>) -> (r: Option<UserCmd>)
        ensures
            final(self).program_id == old(self).program_id,
            old(self).detector@.after_write(bytes@).key_found ==> {
                &&& r matches Some(UserCmd::ModeChange { new_mode }) && new_mode@ == "command"@
                &&& final(self).detector@ == old(self).detector@.after_write(bytes@)
            },
            !old(self).detector@.after_write(bytes@).key_found ==> {
                &&& r matches Some(UserCmd::ProgramInput { program_id, bytes: out })
                    && program_id@ == old(self).program_id@
                    && out@ == old(self).detector@.after_write(bytes@).bytes
                &&& final(self).detector@ == (InbandKeyDetectorView {
                    bytes: Seq::empty(),
                    ..old(self).detector@.after_write(bytes@)
                })
            },
    {
        let _ = self.detector.write(bytes.as_slice());
        if self.detector.key_found() {
            Some(UserCmd::ModeChange { new_mode: "command".to_string() })
        } else {
            let mut out: Vec<u8> = Vec::new();
            let _ = self.detector.read_to_end(&mut out);
            assert(out@ =~= old(self).detector@.after_write(bytes@).bytes);
            Some(UserCmd::ProgramInput { program_id: self.program_id.clone(), bytes: out })
        }
    }

    fn display(&self) -> (r: String)
        ensures
            r@ == "program-mode"@,
    {
        "program-mode".to_string()
    }
}

} // verus!
