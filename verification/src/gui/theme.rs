//! Light and dark.

use vstd::prelude::*;

verus! {

/// The theme for the GUI.
#[derive(Copy, Clone, Debug, PartialEq, Eq, Structural)]
pub enum Theme {
    /// The light theme.
    Light,
    /// The dark theme.
    Dark,
}

impl Theme {
    /// The theme that this one is not.
    pub open spec fn other(self) -> Theme {
        match self {
            Theme::Light => Theme::Dark,
            Theme::Dark => Theme::Light,
        }
    }

    /// Swaps between available themes.
    pub fn swap(&mut self)
        ensures
            *final(self) == old(self).other(),
    {
        *self = match *self {
            Theme::Light => Theme::Dark,
            Theme::Dark => Theme::Light,
        }
    }
}

} // verus!
