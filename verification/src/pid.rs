//! Process identity as the kernel hands it to a probe: one 64-bit word
//! holding the thread-group id in the upper half.

use vstd::prelude::*;

verus! {

/// The packed pid/tgid word of the current task.
#[derive(Clone, Copy, Debug, Eq, Hash, PartialEq, Structural)]
pub struct PidTgid(pub u64);

impl PidTgid {
    /// Process id: the upper 32 bits of the packed word.
    pub open spec fn spec_pid(self) -> u32 {
        (self.0 >> 32) as u32
    }

    /// Thread-group bits of the packed word.
    pub open spec fn spec_tgid(self) -> u32 {
        (self.0 & 0xf) as u32
    }

    pub fn pid(&self) -> (r: u32)
        ensures
            r == self.spec_pid(),
    {
        (self.0 >> 32) as u32
    }

    pub fn tgid(&self) -> (r: u32)
        ensures
            r == self.spec_tgid(),
    {
        (self.0 & 0xf) as u32
    }
}

} // verus!
