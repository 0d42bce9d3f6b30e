//! What a virtual terminal is opened with, and the benchmark access to it.

use vstd::prelude::*;

pub mod bench;

verus! {

/// Scrollback storage budget per terminal, in bytes (allocated as history grows).
pub const DEFAULT_SCROLLBACK_BYTES: usize = 104_857_600;

#[derive(Clone, Copy, Debug, PartialEq, Eq, Structural)]
pub struct TerminalConfig {
    pub scrollback_bytes: usize,
}

impl Default for TerminalConfig {
    fn default() -> (r: Self)
        ensures
            r.scrollback_bytes == DEFAULT_SCROLLBACK_BYTES,
    {
        TerminalConfig { scrollback_bytes: DEFAULT_SCROLLBACK_BYTES }
    }
}

#[derive(Clone, Copy, Debug, PartialEq, Eq, Structural)]
pub struct TerminalSize {
    pub columns: u16,
    pub rows: u16,
}

} // verus!
