//! Key bindings.
use vstd::prelude::*;

use crate::strmap::StrMap;

verus! {

/// What a key sequence does.
pub enum ShellAction {
    /// Tab.
    Complete,
    /// Ctrl+R.
    HistorySearch,
    /// Ctrl+L.
    ClearScreen,
    /// Ctrl+U.
    KillLine,
    /// A custom macro.
    Custom(String),
}

/// Maps key sequences such as `\C-l` to actions.
pub struct BindManager {
    pub key_map: StrMap<ShellAction>,
}

} // verus!
