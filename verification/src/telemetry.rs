//! Progress counters surfaced to callers.

use vstd::prelude::*;

verus! {

/// Work completed so far by an operation.
#[derive(Debug, Clone, PartialEq, Eq, Structural)]
pub struct Progress {
    pub files: u64,
    pub bytes: u64,
}

impl Default for Progress {
    fn default() -> (r: Self)
        ensures
            r.files == 0,
            r.bytes == 0,
    {
        Progress { files: 0, bytes: 0 }
    }
}

impl Progress {
    /// Account one more finished file of the given size, saturating
    /// rather than wrapping.
    pub fn record(&mut self, bytes: u64)
        ensures
            final(self).files == if old(self).files == u64::MAX {
                u64::MAX
            } else {
                (old(self).files + 1) as u64
            },
            final(self).bytes == if old(self).bytes + bytes > u64::MAX {
                u64::MAX
            } else {
                (old(self).bytes + bytes) as u64
            },
    {
        self.files = if self.files == u64::MAX {
            u64::MAX
        } else {
            self.files + 1
        };
        self.bytes = if self.bytes > u64::MAX - bytes {
            u64::MAX
        } else {
            self.bytes + bytes
        };
    }
}

} // verus!
