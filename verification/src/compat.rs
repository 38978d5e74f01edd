//! Compatibility modes: how a line is rewritten before it is parsed.
use vstd::prelude::*;

pub mod bash_mode;
pub mod posix_mode;

verus! {

/// The dialect a line is read in.
#[derive(Debug, Clone, Copy, PartialEq, Eq, Structural)]
pub enum CompatMode {
    /// The native dialect.
    Oxide,
    /// Strict `sh`.
    Posix,
    /// Bash emulation.
    Bash,
}

impl Default for CompatMode {
    fn default() -> (r: Self)
        ensures
            r == CompatMode::Oxide,
    {
        CompatMode::Oxide
    }
}

} // verus!
