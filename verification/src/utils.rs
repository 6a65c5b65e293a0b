//! `utils` module defines several settings that are essential to the
//! application powered by `ggengine`: how its window is placed and shown.
//!

use crate::mathcore::vectors::Vector2Int;
use vstd::prelude::*;

verus! {

/// [`Position`] enum encapsulates possible position settings.
///
#[derive(Copy, Clone, Debug, PartialEq, Eq, Structural)]
pub enum Position {
    /// Exact position that is given by coordinate (left top corner is `(0, 0)`).
    ///
    Exact(Vector2Int),
    /// Centered position.
    ///
    Centered,
}

/// [`FullscreenType`] lists types of fullscreen that are applicable to window.
///
#[derive(Copy, Clone, Debug, PartialEq, Eq, Structural, Hash)]
pub enum FullscreenType {
    /// Fullscreen is a real fullscreen mode - OS changes video mode for your application, but
    /// tabbing to another program might switch video mode back.
    ///
    Fullscreen,
    /// Desktop fullscreen is a 'fake' fullscreen - the actual video mode would not change.
    ///
    DesktopFullscreen,
}

/// [`InitialSizing`] enum lists possible states for window initial sizing.
///
/// Size that was given to window will be preserved, but window itself can be minimized or maximized.
///
#[derive(Copy, Clone, Debug, PartialEq, Eq, Structural, Hash)]
pub enum InitialSizing {
    /// Window will be minimized upon initialization.
    ///
    Minimized,
    /// Window will be maximized upon initialization.
    ///
    Maximized,
}

/// [`WindowSettings`] struct carries data that is needed for window configuration.
///
/// If you do not want to tweak settings, just pass `..Default::default()` to fill up remaining options.
///
#[derive(Debug, Copy, Clone)]
pub struct WindowSettings {
    /// Initial window position.
    ///
    pub position: Option<Position>,
    /// Fullscreen mode of the window.
    ///
    pub initial_fullscreen: Option<FullscreenType>,
    /// Decides whether the window will always be on top or not.
    ///
    pub always_on_top: bool,
    /// Decides whether the window will be resizable or not.
    ///
    pub is_resizable: bool,
    /// Initial sizing of the window.
    ///
    pub initial_sizing: Option<InitialSizing>,
    /// Decides whether the window will be hidden or not.
    ///
    pub is_hidden: bool,
    /// Decides whether the window will be borderless or not.
    ///
    pub is_borderless: bool,
    /// Decides whether the window will allow high dpi or not.
    ///
    pub allow_high_dpi: bool,
}

impl Default for WindowSettings {
    /// A resizable window that allows high dpi, with every other option off.
    ///
    fn default() -> (settings: WindowSettings)
        ensures
            settings.position is None,
            settings.initial_fullscreen is None,
            !settings.always_on_top,
            settings.is_resizable,
            settings.initial_sizing is None,
            !settings.is_hidden,
            !settings.is_borderless,
            settings.allow_high_dpi,
    {
        WindowSettings {
            position: None,
            initial_fullscreen: None,
            always_on_top: false,
            is_resizable: true,
            initial_sizing: None,
            is_hidden: false,
            is_borderless: false,
            allow_high_dpi: true,
        }
    }
}

/// [`Ping`] enum lists possible ping modes.
///
#[derive(Copy, Clone, Debug, PartialEq, Eq, Structural, Hash)]
pub enum Ping {
    /// Window will ping one time.
    ///
    Briefly,
    /// Window will be pinging until user focuses on it.
    ///
    UntilFocused,
}

} // verus!
