//! Benchmark-only access to the path from fed bytes to a snapshot. The caller
//! owns the engine and makes the calls that are asked for here.

use vstd::prelude::*;

use crate::terminal::{TerminalSize, DEFAULT_SCROLLBACK_BYTES};

verus! {

/// A call on the virtual-terminal engine.
#[derive(Clone, Copy, Debug, PartialEq, Eq)]
pub enum EngineCall<'a> {
    /// Open a terminal whose replies to the program go nowhere.
    Open { size: TerminalSize, scrollback_bytes: usize },
    /// Take the bytes in, and give a snapshot where one is due.
    Feed(&'a [u8]),
    /// Take the bytes in.
    Write(&'a [u8]),
    /// Give a snapshot of what has been taken in, where one is due.
    SnapshotAfterFeed,
}

/// A terminal under measurement.
#[derive(Debug)]
pub struct VtBench {
    size: TerminalSize,
}

impl View for VtBench {
    type V = TerminalSize;

    closed spec fn view(&self) -> TerminalSize {
        self.size
    }
}

impl VtBench {
    /// A terminal of this size, with the default scrollback.
    pub fn new<'a>(size: TerminalSize) -> (r: (Self, EngineCall<'a>))
        ensures
            r.0@ == size,
            r.1 == (EngineCall::Open { size, scrollback_bytes: DEFAULT_SCROLLBACK_BYTES }),
    {
        (VtBench { size }, EngineCall::Open { size, scrollback_bytes: DEFAULT_SCROLLBACK_BYTES })
    }

    /// Exactly these bytes are fed, and the engine's answer is the result.
    pub fn feed<'a>(&mut self, bytes: &'a [u8]) -> (r: EngineCall<'a>)
        ensures
            r == EngineCall::Feed(bytes),
            final(self)@ == old(self)@,
    {
        EngineCall::Feed(bytes)
    }

    /// Exactly these bytes are written, without a snapshot.
    pub fn write<'a>(&mut self, bytes: &'a [u8]) -> (r: EngineCall<'a>)
        ensures
            r == EngineCall::Write(bytes),
            final(self)@ == old(self)@,
    {
        EngineCall::Write(bytes)
    }

    /// A snapshot of what was written, and the engine's answer is the result.
    pub fn snapshot<'a>(&mut self) -> (r: EngineCall<'a>)
        ensures
            r == EngineCall::<'a>::SnapshotAfterFeed,
            final(self)@ == old(self)@,
    {
        EngineCall::SnapshotAfterFeed
    }
}

} // verus!
