use vstd::prelude::*;

verus! {

/// A write destination that discards bytes and only accumulates a running
/// count of how many were handed to it. It exists to measure sizes without
/// retaining any data.
#[derive(Debug)]
pub struct WriteCount {
    written: u64,
}

impl Default for WriteCount {
    /// A fresh counter that has seen no bytes.
    fn default() -> (w: Self)
        ensures
            w.count() == 0,
    {
        WriteCount { written: 0 }
    }
}

impl WriteCount {
    /// The number of bytes written so far.
    pub closed spec fn count(self) -> u64 {
        self.written
    }

    /// Accepts a chunk unconditionally, adding its whole length to the
    /// counter; the chunk itself is discarded.
    pub fn write(&mut self, buf: &[u8]) -> (n: usize)
        requires
            old(self).count() + buf@.len() <= u64::MAX,
        ensures
            n == buf@.len(),
            final(self).count() == old(self).count() + buf@.len(),
    {
        self.written = self.written + buf.len() as u64;
        buf.len()
    }

    /// Flushing is a no-op: nothing is buffered, the counter is unchanged.
    pub fn flush(&mut self)
        ensures
            final(self).count() == old(self).count(),
    {
    }

    /// The current counter value.
    pub fn written(&self) -> (n: u64)
        ensures
            n == self.count(),
    {
        self.written
    }
}

} // verus!
