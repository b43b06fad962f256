use vstd::prelude::*;

verus! {

/// What the pty reader of a program reports.
#[derive(Debug, Clone)]
pub enum ProgramMsg {
    PtyRead { bytes: Vec<u8> },
    PtyReadZero,
    PtyReadError,
}

} // verus!
