//! Commands from the tray menu.

use vstd::prelude::*;

verus! {

/// A command from the tray menu.
#[derive(Debug, Clone, Copy, PartialEq, Eq, Structural)]
pub enum TrayCommand {
    /// Switch the expander on or off.
    ToggleEnabled,
    /// Open the configuration window.
    OpenConfig,
    /// Open the configuration file in an editor.
    EditConfigFile,
    /// Reload the configuration.
    ReloadConfig,
    /// Quit.
    Quit,
}

} // verus!
