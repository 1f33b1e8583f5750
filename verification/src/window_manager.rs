//! The closed set of supported window managers, their canonical names, and
//! the detection decision that picks one from the environment's signals.

use vstd::prelude::*;
use crate::errors::ManagerError;

verus! {

/// The three supported window managers.
#[derive(Debug, Clone, Copy, PartialEq, Eq, Structural)]
pub enum WindowManager {
    Hyprland,
    Mango,
    Niri,
}

impl WindowManager {
    /// The canonical lowercase identifier, used to name template and
    /// generated-configuration files.
    pub open spec fn spec_str(&self) -> Seq<char> {
        match self {
            WindowManager::Hyprland => "hyprland"@,
            WindowManager::Mango => "mango"@,
            WindowManager::Niri => "niri"@,
        }
    }

    /// Executable form of [`Self::spec_str`].
    pub fn as_str(&self) -> (r: &'static str)
        ensures
            r@ == self.spec_str(),
    {
        match self {
            WindowManager::Hyprland => "hyprland",
            WindowManager::Mango => "mango",
            WindowManager::Niri => "niri",
        }
    }
}

/// Picks the active window manager from the three detection signals, in
/// their fixed priority order: the Hyprland instance environment variable
/// is authoritative; the process checks are fallbacks, tried in a fixed
/// order.
pub fn detect_window_manager(
    hyprland_env_set: bool,
    mango_running: bool,
    niri_running: bool,
) -> (r: Result<WindowManager, ManagerError>)
    ensures
        hyprland_env_set ==> r == Ok::<WindowManager, ManagerError>(WindowManager::Hyprland),
        !hyprland_env_set && mango_running ==> r == Ok::<WindowManager, ManagerError>(
            WindowManager::Mango,
        ),
        !hyprland_env_set && !mango_running && niri_running ==> r == Ok::<
            WindowManager,
            ManagerError,
        >(WindowManager::Niri),
        !hyprland_env_set && !mango_running && !niri_running ==> r == Err::<
            WindowManager,
            ManagerError,
        >(ManagerError::NoSupportedWindowManager),
{
    if hyprland_env_set {
        Ok(WindowManager::Hyprland)
    } else if mango_running {
        Ok(WindowManager::Mango)
    } else if niri_running {
        Ok(WindowManager::Niri)
    } else {
        Err(ManagerError::NoSupportedWindowManager)
    }
}

} // verus!
